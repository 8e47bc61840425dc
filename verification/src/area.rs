//! The pane manager: an ordered, never-empty sequence of text areas laid
//! out by equal division of the terminal cell area along the split axis,
//! with one focused pane. Cursor reporting composes the focused pane's
//! local cursor with its rectangle offset along the split axis.

use vstd::prelude::*;

verus! {

use crate::text_area::TextArea;
use crate::chars::chars_before;

/// The split axis: stacked rows or side-by-side columns.
#[derive(Debug, PartialEq, Eq, Structural, Clone, Copy)]
pub enum AreaOrder {
    Horizontal,
    Vertical,
}

/// The pane manager.
pub struct WriteableArea {
    writers: Vec<TextArea>,
    order: AreaOrder,
    focused_writer: usize,
    area: (u16, u16),
}

impl WriteableArea {
    /// The panes' documents, in order.
    pub closed spec fn panes(&self) -> Seq<TextArea> {
        self.writers@
    }

    /// The focused pane's index.
    pub closed spec fn spec_focus(&self) -> int {
        self.focused_writer as int
    }

    /// The split axis.
    pub closed spec fn spec_order(&self) -> AreaOrder {
        self.order
    }

    /// The total cell area divided among the panes.
    pub closed spec fn spec_area(&self) -> (u16, u16) {
        self.area
    }

    /// The focused pane.
    pub open spec fn focused(&self) -> TextArea {
        self.panes()[self.spec_focus()]
    }

    /// At least one pane, focus in range, every pane well formed, and the
    /// layout as the equal division prescribes: vertical panes stack with
    /// height `area.1 / n`, horizontal panes sit side by side with width
    /// `area.0 / n`.
    pub open spec fn wf(&self) -> bool {
        &&& 1 <= self.panes().len() <= u16::MAX
        &&& 0 <= self.spec_focus() < self.panes().len()
        &&& forall|i: int| 0 <= i < self.panes().len() ==> (#[trigger] self.panes()[i]).wf()
        &&& self.spec_order() == AreaOrder::Vertical ==> forall|i: int|
            0 <= i < self.panes().len() ==> ((#[trigger] self.panes()[i]).spec_size().0
                == self.spec_area().0 && self.panes()[i].spec_size().1 == self.spec_area().1 as int
                / self.panes().len() as int && self.panes()[i].spec_pos().0 == 0
                && self.panes()[i].spec_pos().1 == i * (self.spec_area().1 as int
                / self.panes().len() as int))
        &&& self.spec_order() == AreaOrder::Horizontal ==> forall|i: int|
            0 <= i < self.panes().len() ==> ((#[trigger] self.panes()[i]).spec_size().0
                == self.spec_area().0 as int / self.panes().len() as int
                && self.panes()[i].spec_size().1 == self.spec_area().1
                && self.panes()[i].spec_pos().0 == i * (self.spec_area().0 as int
                / self.panes().len() as int) && self.panes()[i].spec_pos().1 == 0)
    }

    /// Re-divides the total area equally among the panes along the split
    /// axis.
    fn modify_areas(&mut self)
        requires
            1 <= old(self).panes().len() <= u16::MAX,
            0 <= old(self).spec_focus() < old(self).panes().len(),
            forall|i: int|
                0 <= i < old(self).panes().len() ==> (#[trigger] old(self).panes()[i]).wf(),
        ensures
            final(self).wf(),
            final(self).panes().len() == old(self).panes().len(),
            final(self).spec_focus() == old(self).spec_focus(),
            final(self).spec_order() == old(self).spec_order(),
            final(self).spec_area() == old(self).spec_area(),
            forall|i: int|
                0 <= i < final(self).panes().len() ==> (#[trigger] final(self).panes()[i]).doc()
                    == old(self).panes()[i].doc() && final(self).panes()[i].cursor_x() == old(self).panes()[i].cursor_x() && final(self).panes()[i].cursor_y() == old(self).panes()[i].cursor_y() && final(self).panes()[i].spec_mode() == old(self).panes()[i].spec_mode(),
    {
        let n = self.writers.len() as u16;
        let is_vertical = matches!(self.order, AreaOrder::Vertical);
        let w = if is_vertical {
            self.area.0
        } else {
            self.area.0 / n
        };
        let h = if is_vertical {
            self.area.1 / n
        } else {
            self.area.1
        };
        let mut i: usize = 0;
        let count = self.writers.len();
        while i < count
            invariant
                0 <= i <= count,
                count == self.writers@.len(),
                count == old(self).panes().len(),
                count <= u16::MAX,
                n == count as u16,
                self.order == old(self).spec_order(),
                self.area == old(self).spec_area(),
                self.focused_writer == old(self).spec_focus(),
                is_vertical == (self.order == AreaOrder::Vertical),
                w as int == (if is_vertical {
                    self.area.0 as int
                } else {
                    self.area.0 as int / count as int
                }),
                h as int == (if is_vertical {
                    self.area.1 as int / count as int
                } else {
                    self.area.1 as int
                }),
                forall|j: int|
                    0 <= j < count ==> (#[trigger] self.writers@[j]).wf() && self.writers@[j].doc()
                        == old(self).panes()[j].doc() && self.writers@[j].cursor_x() == old(self).panes()[j].cursor_x() && self.writers@[j].cursor_y() == old(self).panes()[j].cursor_y() && self.writers@[j].spec_mode() == old(self).panes()[j].spec_mode(),
                forall|j: int|
                    0 <= j < i ==> ((#[trigger] self.writers@[j]).spec_size().0 == w
                        && self.writers@[j].spec_size().1 == h && self.writers@[j].spec_pos().0
                        == (if is_vertical {
                        0
                    } else {
                        j * w
                    }) && self.writers@[j].spec_pos().1 == (if is_vertical {
                        j * h
                    } else {
                        0
                    })),
            decreases count - i,
        {
            proof {
                assert(w * count <= self.area.0 || is_vertical) by (nonlinear_arith)
                    requires
                        count >= 1,
                        w == (if is_vertical {
                            self.area.0 as int
                        } else {
                            self.area.0 as int / count as int
                        }),
                        self.area.0 <= u16::MAX,
                ;
                assert(h * count <= self.area.1 || !is_vertical) by (nonlinear_arith)
                    requires
                        count >= 1,
                        h == (if is_vertical {
                            self.area.1 as int / count as int
                        } else {
                            self.area.1 as int
                        }),
                        self.area.1 <= u16::MAX,
                ;
                if is_vertical {
                    assert(i * h <= self.area.1) by (nonlinear_arith)
                        requires
                            0 <= i < count,
                            h * count <= self.area.1,
                            h >= 0,
                    ;
                } else {
                    assert(i * w <= self.area.0) by (nonlinear_arith)
                        requires
                            0 <= i < count,
                            w * count <= self.area.0,
                            w >= 0,
                    ;
                }
            }
            let xoff: u16 = if is_vertical {
                0
            } else {
                (i as u16) * w
            };
            let yoff: u16 = if is_vertical {
                (i as u16) * h
            } else {
                0
            };
            let pane = &mut self.writers[i];
            let _ = pane.set_pos(xoff, yoff);
            let _ = pane.set_size(w, h);
            i += 1;
        }
    }

    /// A manager with one pane over the given area, split vertically.
    pub fn new_vertical(w: u16, h: u16) -> (r: WriteableArea)
        ensures
            r.wf(),
            r.panes().len() == 1,
            r.spec_focus() == 0,
            r.spec_order() == AreaOrder::Vertical,
            r.spec_area() == (w, h),
            r.focused().doc() == seq![Seq::<char>::empty()],
    {
        let mut writers: Vec<TextArea> = Vec::new();
        writers.push(TextArea::new(0, 0, 0, 2));
        let mut s = WriteableArea { writers, order: AreaOrder::Vertical, focused_writer: 0, area: (w, h) };
        s.modify_areas();
        s
    }

    /// A manager with one pane over the given area, split horizontally.
    pub fn new_horizontal(w: u16, h: u16) -> (r: WriteableArea)
        ensures
            r.wf(),
            r.panes().len() == 1,
            r.spec_focus() == 0,
            r.spec_order() == AreaOrder::Horizontal,
            r.spec_area() == (w, h),
            r.focused().doc() == seq![Seq::<char>::empty()],
    {
        let mut writers: Vec<TextArea> = Vec::new();
        writers.push(TextArea::new(0, 0, 0, 2));
        let mut s = WriteableArea {
            writers,
            order: AreaOrder::Horizontal,
            focused_writer: 0,
            area: (w, h),
        };
        s.modify_areas();
        s
    }

    /// How many panes are open.
    pub fn len(&self) -> (r: usize)
        ensures
            r == self.panes().len(),
    {
        self.writers.len()
    }

    /// The focused pane's index.
    pub fn focus(&self) -> (r: usize)
        ensures
            r == self.spec_focus(),
    {
        self.focused_writer
    }

    /// Appends a new empty pane and re-divides the area.
    pub fn create_area(&mut self)
        requires
            old(self).wf(),
        ensures
            final(self).wf(),
            old(self).panes().len() < u16::MAX ==> {
                &&& final(self).panes().len() == old(self).panes().len() + 1
                &&& final(self).spec_focus() == old(self).spec_focus()
                &&& final(self).spec_order() == old(self).spec_order()
                &&& final(self).spec_area() == old(self).spec_area()
                &&& forall|i: int|
                    0 <= i < old(self).panes().len() ==> ((#[trigger] final(self).panes()[i]).doc() == old(self).panes()[i].doc() && final(self).panes()[i].cursor_x() == old(self).panes()[i].cursor_x() && final(self).panes()[i].cursor_y() == old(self).panes()[i].cursor_y() && final(self).panes()[i].spec_mode() == old(self).panes()[i].spec_mode())
                &&& final(self).panes()[old(self).panes().len() as int].doc() == seq![
                    Seq::<char>::empty(),
                ]
            },
            old(self).panes().len() == u16::MAX ==> *final(self) == *old(self),
    {
        if self.writers.len() >= 0xFFFF {
            return;
        }
        self.writers.push(TextArea::new(0, 0, 0, 2));
        self.modify_areas();
    }

    /// Deletes the focused pane, returning it, and focuses the previous
    /// pane; the sole pane is never deleted.
    pub fn delete_current_area(&mut self) -> (r: Option<TextArea>)
        requires
            old(self).wf(),
        ensures
            final(self).wf(),
            old(self).panes().len() == 1 ==> r is None && final(self).panes() =~= old(self).panes(),
            old(self).panes().len() > 1 ==> {
                &&& r matches Some(removed) && removed == old(self).focused()
                &&& final(self).panes().len() == old(self).panes().len() - 1
                &&& forall|i: int|
                    0 <= i < final(self).panes().len() ==> (#[trigger] final(self).panes()[i]).doc() == old(self).panes().remove(old(self).spec_focus())[i].doc()
                &&& final(self).spec_focus() == (if old(self).spec_focus() > 0 {
                    old(self).spec_focus() - 1
                } else {
                    0
                })
            },
    {
        if self.writers.len() <= 1 {
            return None;
        }
        let f = self.focused_writer;
        let removed = self.writers.remove(f);
        if f > 0 {
            self.focused_writer = f - 1;
        }
        self.modify_areas();
        Some(removed)
    }

    /// Focuses the next pane, clamped to the last.
    pub fn set_focus_next(&mut self)
        requires
            old(self).wf(),
        ensures
            final(self).wf(),
            final(self).panes() == old(self).panes(),
            final(self).spec_focus() == (if old(self).spec_focus() + 1 < old(self).panes().len() {
                old(self).spec_focus() + 1
            } else {
                old(self).panes().len() - 1
            }),
    {
        let f = self.focused_writer;
        if f + 1 < self.writers.len() {
            self.focused_writer = f + 1;
        } else {
            self.focused_writer = self.writers.len() - 1;
        }
    }

    /// Focuses the previous pane, stopping at the first.
    pub fn set_focus_back(&mut self)
        requires
            old(self).wf(),
        ensures
            final(self).wf(),
            final(self).panes() == old(self).panes(),
            final(self).spec_focus() == (if old(self).spec_focus() > 0 {
                old(self).spec_focus() - 1
            } else {
                0
            }),
    {
        let f = self.focused_writer;
        if f > 0 {
            self.focused_writer = f - 1;
        }
    }

    /// The focused pane, for reading.
    pub fn current_area(&self) -> (r: &TextArea)
        requires
            self.wf(),
        ensures
            *r == self.focused(),
    {
        &self.writers[self.focused_writer]
    }

    /// The focused pane, for editing; the caller must keep it well formed.
    pub fn current_area_mut(&mut self) -> (r: &mut TextArea)
        requires
            old(self).wf(),
        ensures
            *r == old(self).focused(),
            final(self).panes() == old(self).panes().update(
                old(self).spec_focus(),
                *final(r),
            ),
            final(self).spec_focus() == old(self).spec_focus(),
            final(self).spec_order() == old(self).spec_order(),
            final(self).spec_area() == old(self).spec_area(),
    {
        let f = self.focused_writer;
        &mut self.writers[f]
    }

    /// The composite cursor as a value: the focused pane's display cursor,
    /// offset along the split axis by the focused pane's rectangle; the sum
    /// saturates at the machine bound.
    pub open spec fn spec_cursor(&self) -> (int, int) {
        let col = self.focused().display_col();
        let row = self.focused().display_row();
        let n = self.panes().len() as int;
        if self.spec_order() == AreaOrder::Vertical {
            let off = self.spec_focus() * (self.spec_area().1 as int / n);
            (col, if row <= usize::MAX - off {
                off + row
            } else {
                usize::MAX as int
            })
        } else {
            let off = self.spec_focus() * (self.spec_area().0 as int / n);
            (
                if col <= usize::MAX - off {
                    off + col
                } else {
                    usize::MAX as int
                },
                row,
            )
        }
    }

    /// The composite cursor: the focused pane's display cursor offset by
    /// its rectangle along the split axis.
    pub fn cursor(&self) -> (r: (usize, usize))
        requires
            self.wf(),
        ensures
            r.0 == self.spec_cursor().0,
            r.1 == self.spec_cursor().1,
            self.spec_order() == AreaOrder::Vertical && self.focused().spec_size().1 >= 2 ==> r.1
                == self.spec_focus() * (self.spec_area().1 as int / self.panes().len() as int) + (
            self.focused().cursor_y() % (self.focused().spec_size().1 - 1)),
            self.spec_order() == AreaOrder::Horizontal && self.focused().spec_size().0 > 0 ==> r.0
                == self.spec_focus() * (self.spec_area().0 as int / self.panes().len() as int) + (
            chars_before(self.focused().cur_bytes(), self.focused().cursor_x()) as int
                % self.focused().spec_size().0 as int),
            self.spec_order() == AreaOrder::Vertical && self.focused().spec_size().0 > 0 ==> r.0
                == chars_before(self.focused().cur_bytes(), self.focused().cursor_x()) as int
                % self.focused().spec_size().0 as int,
            self.spec_order() == AreaOrder::Horizontal && self.focused().spec_size().1 >= 2 ==> r.1
                == self.focused().cursor_y() % (self.focused().spec_size().1 - 1),
    {
        let f = self.focused_writer;
        let col = self.writers[f].cursor_col();
        let row = self.writers[f].cursor_row();
        let n = self.writers.len();
        if matches!(self.order, AreaOrder::Vertical) {
            let h = (self.area.1 as usize) / n;
            proof {
                assert(f * ((self.area.1 as int) / (n as int)) <= self.area.1)
                    by (nonlinear_arith)
                    requires
                        0 <= f < n,
                        n >= 1,
                        self.area.1 >= 0,
                ;
            }
            let off = f * h;
            let yout = if row <= usize::MAX - off {
                off + row
            } else {
                usize::MAX
            };
            proof {
                if self.focused().spec_size().1 >= 2 {
                    assert(row < self.focused().spec_size().1);
                }
            }
            (col, yout)
        } else {
            let w = (self.area.0 as usize) / n;
            proof {
                assert(f * ((self.area.0 as int) / (n as int)) <= self.area.0)
                    by (nonlinear_arith)
                    requires
                        0 <= f < n,
                        n >= 1,
                        self.area.0 >= 0,
                ;
            }
            let off = f * w;
            let xout = if col <= usize::MAX - off {
                off + col
            } else {
                usize::MAX
            };
            proof {
                if self.focused().spec_size().0 > 0 {
                    assert(col < self.focused().spec_size().0);
                }
            }
            (xout, row)
        }
    }
}

} // verus!
