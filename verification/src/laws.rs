//! The library's general laws, each proved from the contracts the modules
//! state: the shape of accepted configuration trees, the UTF-8 round trip of
//! line storage, the atomicity of cursor motion over multi-byte characters,
//! and split and join of lines being inverses.

use vstd::prelude::*;

verus! {

use vstd::utf8::{
    valid_utf8,
    decode_utf8,
    encode_utf8,
    is_char_boundary,
    is_continuation_byte,
    length_of_first_scalar,
    valid_first_scalar,
    encode_utf8_valid_utf8,
    encode_utf8_decode_utf8,
    is_char_boundary_iff_not_is_continuation_byte,
    valid_utf8_split,
};
use crate::parser::StmtModel;

/// A subgroup named after one of the three editing modes.
pub open spec fn is_mode_subgroup(s: StmtModel) -> bool {
    s matches StmtModel::SubGroup { name, data } && (name == "normal"@ || name == "modify"@
        || name == "selection"@)
}

/// A group named `keybinds`.
pub open spec fn is_keybinds_group(s: StmtModel) -> bool {
    s matches StmtModel::Group { name, data } && name == "keybinds"@
}

/// Every subgroup in the group's body is named after an editing mode.
pub open spec fn group_subs_named(s: StmtModel) -> bool {
    s matches StmtModel::Group { name, data } ==> (*data matches StmtModel::Block(subs)
        ==> forall|j: int| 0 <= j < subs.len() ==> is_mode_subgroup(#[trigger] subs[j]))
}
use crate::config::{spec_build_decls, spec_build_subgroups, spec_build_groups, spec_config};
use crate::chars::lemma_boundary_step;

/// Accepted subgroup lists hold only subgroups named after the three
/// editing modes.
proof fn lemma_build_subgroups_names(
    subs: Seq<StmtModel>,
    normal: Map<Seq<char>, Seq<StmtModel>>,
    modify: Map<Seq<char>, Seq<StmtModel>>,
    selection: Map<Seq<char>, Seq<StmtModel>>,
)
    requires
        spec_build_subgroups(subs, normal, modify, selection) is Ok,
    ensures
        forall|i: int| 0 <= i < subs.len() ==> is_mode_subgroup(#[trigger] subs[i]),
    decreases subs.len(),
{
    if subs.len() > 0 {
        match subs[0] {
            StmtModel::SubGroup { name, data } => {
                match *data {
                    StmtModel::Block(decls) => {
                        let target = if name == "normal"@ {
                            normal
                        } else if name == "modify"@ {
                            modify
                        } else {
                            selection
                        };
                        match spec_build_decls(decls, target) {
                            Ok(t2) => {
                                let n2 = if name == "normal"@ {
                                    t2
                                } else {
                                    normal
                                };
                                let m2 = if name == "modify"@ {
                                    t2
                                } else {
                                    modify
                                };
                                let s2 = if name == "selection"@ {
                                    t2
                                } else {
                                    selection
                                };
                                lemma_build_subgroups_names(subs.drop_first(), n2, m2, s2);
                                assert forall|i: int| 0 <= i < subs.len() implies is_mode_subgroup(
                                    #[trigger] subs[i],
                                ) by {
                                    if i > 0 {
                                        assert(subs.drop_first()[i - 1] == subs[i]);
                                        assert(is_mode_subgroup(subs.drop_first()[i - 1]));
                                    }
                                }
                            },
                            Err(_) => {},
                        }
                    },
                    _ => {},
                }
            },
            _ => {},
        }
    }
}

/// Accepted group lists hold only groups named `keybinds`, and every
/// subgroup under them is named after one of the three editing modes.
proof fn lemma_build_groups_names(
    groups: Seq<StmtModel>,
    normal: Map<Seq<char>, Seq<StmtModel>>,
    modify: Map<Seq<char>, Seq<StmtModel>>,
    selection: Map<Seq<char>, Seq<StmtModel>>,
)
    requires
        spec_build_groups(groups, normal, modify, selection) is Ok,
    ensures
        forall|i: int|
            0 <= i < groups.len() ==> is_keybinds_group(#[trigger] groups[i]) && group_subs_named(
                groups[i],
            ),
    decreases groups.len(),
{
    if groups.len() > 0 {
        match groups[0] {
            StmtModel::Group { name, data } => {
                if name == "keybinds"@ {
                    match *data {
                        StmtModel::Block(subs) => {
                            match spec_build_subgroups(subs, normal, modify, selection) {
                                Ok((n2, m2, s2)) => {
                                    lemma_build_subgroups_names(subs, normal, modify, selection);
                                    lemma_build_groups_names(groups.drop_first(), n2, m2, s2);
                                    assert(is_keybinds_group(groups[0]) && group_subs_named(
                                        groups[0],
                                    ));
                                    assert forall|i: int| 0 <= i < groups.len() implies is_keybinds_group(
                                        #[trigger] groups[i],
                                    ) && group_subs_named(groups[i]) by {
                                        if i > 0 {
                                            assert(groups.drop_first()[i - 1] == groups[i]);
                                            assert(is_keybinds_group(groups.drop_first()[i - 1]));
                                            assert(group_subs_named(groups.drop_first()[i - 1]));
                                        }
                                    }
                                },
                                Err(_) => {},
                            }
                        },
                        _ => {},
                    }
                }
            },
            _ => {},
        }
    }
}

/// For every configuration text the builder accepts, the parse tree's
/// groups are all named `keybinds` and their subgroups are all named after
/// the three editing modes; a text with any other name is rejected with an
/// error, and rejection is always an error value, never a panic.
pub proof fn lemma_accepted_config_shape(cs: Seq<char>)
    requires
        spec_config(cs) is Ok,
    ensures
        crate::parser::spec_parse(cs) matches Ok(tree) && tree matches StmtModel::Block(groups)
            && (forall|i: int|
            0 <= i < groups.len() ==> is_keybinds_group(#[trigger] groups[i]) && group_subs_named(
                groups[i],
            )),
{
    match crate::parser::spec_parse(cs) {
        Ok(tree) => {
            match tree {
                StmtModel::Block(groups) => {
                    lemma_build_groups_names(
                        groups,
                        Map::empty(),
                        Map::empty(),
                        Map::empty(),
                    );
                },
                _ => {},
            }
        },
        Err(_) => {},
    }
}

/// Line storage round-trips text: encoding characters to bytes yields valid
/// UTF-8 that decodes back to the same characters. Every line operation's
/// contract keeps the stored bytes valid UTF-8, so a line built by any
/// sequence of edits reads back as the text its contracts describe.
pub proof fn lemma_text_round_trip(s: Seq<char>)
    ensures
        valid_utf8(encode_utf8(s)),
        decode_utf8(encode_utf8(s)) == s,
{
    encode_utf8_valid_utf8(s);
    encode_utf8_decode_utf8(s);
}

/// Cursor motion over a character is atomic: from a boundary, the character
/// there spans to the next boundary and no boundary lies strictly inside
/// it, so moving right over it and then left again returns exactly to the
/// starting offset, never landing mid-character.
pub proof fn lemma_motion_round_trip(bytes: Seq<u8>, at: int)
    requires
        valid_utf8(bytes),
        0 <= at < bytes.len(),
        is_char_boundary(bytes, at),
    ensures
        ({
            let w = length_of_first_scalar(bytes.subrange(at, bytes.len() as int));
            &&& 1 <= w
            &&& at + w <= bytes.len()
            &&& is_char_boundary(bytes, at + w)
            &&& forall|b: int| at < b < at + w ==> !is_char_boundary(bytes, b)
        }),
{
    lemma_boundary_step(bytes, at);
    valid_utf8_split(bytes, at);
    let rest = bytes.subrange(at, bytes.len() as int);
    let w = length_of_first_scalar(rest);
    assert(valid_first_scalar(rest));
    assert forall|b: int| at < b < at + w implies !is_char_boundary(bytes, b) by {
        assert(is_continuation_byte(rest[b - at]));
        assert(bytes[b] == rest[b - at]);
        is_char_boundary_iff_not_is_continuation_byte(bytes, b);
    }
}

/// Splitting a line at the cursor and merging the two halves back are
/// inverses: a newline at `(x, y)` followed by a backspace at the start of
/// the new line restores the document as it was and leaves the cursor's
/// character position where it was.
pub proof fn lemma_newline_backspace_inverse(doc: Seq<Seq<char>>, y: int, k: int)
    requires
        0 <= y < doc.len(),
        0 <= k <= doc[y].len(),
    ensures
        ({
            let after_nl = doc.update(y, doc[y].take(k)).insert(y + 1, doc[y].skip(k));
            let merged = after_nl.update(y, after_nl[y] + after_nl[y + 1]).remove(y + 1);
            &&& merged == doc
            &&& after_nl[y].len() == k
        }),
{
    let after_nl = doc.update(y, doc[y].take(k)).insert(y + 1, doc[y].skip(k));
    let merged = after_nl.update(y, after_nl[y] + after_nl[y + 1]).remove(y + 1);
    assert(after_nl[y] == doc[y].take(k));
    assert(after_nl[y + 1] == doc[y].skip(k));
    assert(doc[y].take(k) + doc[y].skip(k) =~= doc[y]);
    assert(merged =~= doc);
}

} // verus!
