//! Tests of the text area, pane manager, keybind handler and dispatcher.

use ishtar::area::WriteableArea;
use ishtar::config::IshtarConfiguration;
use ishtar::editor::{CommandInterpreter, Effect, Ishtar, IshtarMode, Key};
use ishtar::keybind::KeybindHandler;
use ishtar::tasks::CmdTask;
use ishtar::text_area::TextArea;

fn doc_of(area: &TextArea) -> Vec<String> {
    let mut out = Vec::new();
    let mut i = 0;
    while let Some(s) = area.line_text(i) {
        out.push(s);
        i += 1;
    }
    out
}

#[test]
fn typing_composes_or_commits_separately() {
    // An accent the composition tables do not combine: all three characters
    // land in order.
    let mut ta = TextArea::new(0, 0, 80, 10);
    ta.write_char('h');
    ta.write_char('´');
    ta.write_char('a');
    assert_eq!(doc_of(&ta), vec!["h´a".to_string()]);
    // A combining mark that does compose yields the single composed
    // character.
    let mut ta = TextArea::new(0, 0, 80, 10);
    ta.write_char('\u{0301}');
    ta.write_char('a');
    assert_eq!(doc_of(&ta), vec!["á".to_string()]);
}

#[test]
fn multibyte_motion_is_atomic() {
    let mut ta = TextArea::new(0, 0, 80, 10);
    ta.write_char('é');
    assert_eq!(ta.cursor(), (2, 0));
    ta.move_left();
    assert_eq!(ta.cursor(), (0, 0));
    ta.move_right();
    assert_eq!(ta.cursor(), (2, 0));
    ta.move_left();
    assert_eq!(ta.cursor(), (0, 0));
}

#[test]
fn newline_then_backspace_restores_line_and_cursor() {
    let mut ta = TextArea::new(0, 0, 80, 10);
    for c in "hello".chars() {
        ta.write_char(c);
    }
    ta.move_left();
    ta.move_left();
    ta.move_left();
    assert_eq!(ta.cursor(), (2, 0));
    ta.newline();
    assert_eq!(doc_of(&ta), vec!["he".to_string(), "llo".to_string()]);
    assert_eq!(ta.cursor(), (0, 1));
    ta.backspace();
    assert_eq!(doc_of(&ta), vec!["hello".to_string()]);
    assert_eq!(ta.cursor(), (2, 0));
}

#[test]
fn backspace_removes_char_before_cursor() {
    let mut ta = TextArea::new(0, 0, 80, 10);
    ta.write_char('a');
    ta.write_char('é');
    ta.backspace();
    assert_eq!(doc_of(&ta), vec!["a".to_string()]);
    assert_eq!(ta.cursor(), (1, 0));
}

#[test]
fn del_merges_next_line_up() {
    let mut ta = TextArea::new(0, 0, 80, 10);
    for c in "ab".chars() {
        ta.write_char(c);
    }
    ta.newline();
    ta.write_char('c');
    ta.move_up();
    ta.goto_end_of_line();
    ta.del();
    assert_eq!(doc_of(&ta), vec!["abc".to_string()]);
}

#[test]
fn del_removes_empty_current_line() {
    let mut ta = TextArea::new(0, 0, 80, 10);
    ta.newline();
    ta.move_up();
    ta.del();
    assert_eq!(doc_of(&ta), vec!["".to_string()]);
}

#[test]
fn selection_mode_blocks_edits() {
    let mut ta = TextArea::new(0, 0, 80, 10);
    ta.write_char('a');
    ta.enter_selection();
    ta.write_char('b');
    ta.backspace();
    ta.newline();
    ta.del();
    assert_eq!(doc_of(&ta), vec!["a".to_string()]);
    ta.enter_writing();
    ta.write_char('b');
    assert_eq!(doc_of(&ta), vec!["ab".to_string()]);
}

#[test]
fn copy_selection_takes_inclusive_line_range() {
    let mut ta = TextArea::new(0, 0, 80, 10);
    ta.set_content("one\ntwo\nthree");
    assert_eq!(ta.copy_selection(), None);
    ta.enter_selection();
    ta.move_down();
    ta.move_down();
    let copied = ta.copy_selection().unwrap();
    assert_eq!(copied, "one\ntwo\nthree\n");
}

#[test]
fn paste_single_line_inserts_at_cursor() {
    let mut ta = TextArea::new(0, 0, 80, 10);
    for c in "ad".chars() {
        ta.write_char(c);
    }
    ta.move_left();
    let r = ta.paste("bc");
    assert_eq!(r, CmdTask::EnterModify);
    assert_eq!(doc_of(&ta), vec!["abcd".to_string()]);
}

#[test]
fn paste_multi_line_inserts_lines_beneath() {
    let mut ta = TextArea::new(0, 0, 80, 10);
    ta.write_char('a');
    let r = ta.paste("x\ny");
    assert_eq!(r, CmdTask::EnterModify);
    assert_eq!(doc_of(&ta), vec!["a".to_string(), "x".to_string(), "y".to_string()]);
}

#[test]
fn set_content_splits_lines() {
    let mut ta = TextArea::new(0, 0, 80, 10);
    let n = ta.set_content("a\nb\nc");
    assert_eq!(n, 3);
    assert_eq!(doc_of(&ta), vec!["a".to_string(), "b".to_string(), "c".to_string()]);
    let n = ta.set_content("");
    assert_eq!(n, 0);
    assert_eq!(doc_of(&ta), vec!["".to_string()]);
}

#[test]
fn save_text_terminates_every_line() {
    let mut ta = TextArea::new(0, 0, 80, 10);
    ta.set_content("a\nb");
    assert_eq!(ta.save_text(), "a\nb\n");
    assert_eq!(ta.to_text(), "a\nb");
}

#[test]
fn three_vertical_panes_on_80_by_30() {
    let mut wa = WriteableArea::new_vertical(80, 30);
    wa.create_area();
    wa.create_area();
    assert_eq!(wa.len(), 3);
    wa.set_focus_next();
    wa.set_focus_next();
    assert_eq!(wa.focus(), 2);
    let pane = wa.current_area();
    assert_eq!(pane.h(), 10);
    assert_eq!(pane.w(), 80);
    assert_eq!(pane.posy(), 20);
    // The composite cursor for the pane at index 2 is its local row offset
    // by two pane heights.
    assert_eq!(wa.cursor(), (0, 20));
}

#[test]
fn delete_current_area_moves_focus_back() {
    let mut wa = WriteableArea::new_vertical(80, 30);
    wa.create_area();
    wa.set_focus_next();
    assert_eq!(wa.focus(), 1);
    let removed = wa.delete_current_area();
    assert!(removed.is_some());
    assert_eq!(wa.len(), 1);
    assert_eq!(wa.focus(), 0);
    // The last pane is never deleted.
    assert!(wa.delete_current_area().is_none());
    assert_eq!(wa.len(), 1);
}

#[test]
fn chord_capture_and_lookup() {
    let cfg = IshtarConfiguration::from_content(
        "[keybinds]\n<normal>\nALT-s = SaveFile\n".to_string(),
    )
    .unwrap();
    let mut kb = KeybindHandler::new(cfg);
    assert!(!kb.is_listening());
    kb.start_listening("s".to_string(), "ALT".to_string());
    assert!(kb.is_listening());
    assert_eq!(kb.content(), "ALT-s");
    let tasks = kb.lookup_expand("ALT-s", 0).unwrap();
    assert_eq!(tasks, vec![CmdTask::SaveFile]);
    kb.stop_listening();
    assert!(!kb.is_listening());
    assert_eq!(kb.content(), "");
}

#[test]
fn alias_expansion_is_transparent() {
    let cfg = IshtarConfiguration::from_content(
        "[keybinds]\n<normal>\na = { SaveFile EnterModify }\nb = other\nother = { EnterSelection }\n"
            .to_string(),
    )
    .unwrap();
    let kb = KeybindHandler::new(cfg);
    // A chord bound to a block runs the block's tasks.
    let direct = kb.lookup_expand("a", 0).unwrap();
    assert_eq!(direct, vec![CmdTask::SaveFile, CmdTask::EnterModify]);
    // A chord bound to an alias runs what the alias's binding holds.
    let aliased = kb.lookup_expand("b", 0).unwrap();
    assert_eq!(aliased, vec![CmdTask::EnterSelection]);
    // A self-referential alias ends the expansion instead of looping.
    let cfg = IshtarConfiguration::from_content(
        "[keybinds]\n<normal>\nloop = loop\n".to_string(),
    )
    .unwrap();
    let kb = KeybindHandler::new(cfg);
    assert_eq!(kb.lookup_expand("loop", 0).unwrap(), Vec::<CmdTask>::new());
}

#[test]
fn bound_chord_deletes_current_line() {
    let cfg = IshtarConfiguration::from_content(
        "[keybinds]\n<normal>\nx = DeleteLine\n".to_string(),
    )
    .unwrap();
    let mut ed = Ishtar::new(80, 30, cfg, String::new());
    let mut effects: Vec<Effect> = Vec::new();
    ed.handle_task(&CmdTask::Write("one\ntwo".to_string()), "", &mut effects);
    {
        let area = ed.current_area();
        assert_eq!(doc_of(area), vec!["".to_string(), "one".to_string(), "two".to_string()]);
        assert_eq!(area.cursor().1, 0);
    }
    let tasks = ed.keybind_handler().lookup_expand("x", 0).unwrap();
    ed.handle_tasks(&tasks, "", &mut effects);
    let area = ed.current_area();
    assert_eq!(doc_of(area), vec!["one".to_string(), "two".to_string()]);
    // The cursor's line is unchanged, clamped to the new line count.
    assert_eq!(area.cursor().1, 0);
}

#[test]
fn open_nonexistent_then_save_writes_document() {
    let cfg = IshtarConfiguration::new();
    let mut ed = Ishtar::new(80, 30, cfg, String::new());
    // A nonexistent file has no content to load; the path is still bound.
    ed.open_file("notes.txt".to_string(), None);
    let mut effects: Vec<Effect> = Vec::new();
    ed.handle_task(&CmdTask::Write("hello".to_string()), "", &mut effects);
    ed.handle_task(&CmdTask::SaveFile, "", &mut effects);
    assert_eq!(
        effects,
        vec![Effect::WriteFile { path: "notes.txt".to_string(), content: "hello\n".to_string() }]
    );
}

#[test]
fn dispatcher_mode_transitions_and_exit() {
    let mut ed = Ishtar::new(80, 30, IshtarConfiguration::new(), String::new());
    let mut effects: Vec<Effect> = Vec::new();
    assert_eq!(ed.mode_id(), 0);
    ed.handle_task(&CmdTask::EnterModify, "", &mut effects);
    assert_eq!(ed.mode_id(), 1);
    ed.handle_task(&CmdTask::EnterSelection, "", &mut effects);
    assert_eq!(ed.mode_id(), 2);
    ed.handle_task(&CmdTask::EnterNormal, "", &mut effects);
    assert_eq!(ed.mode_id(), 0);
    ed.handle_task(&CmdTask::Exit, "", &mut effects);
    assert!(ed.should_exit());
    ed.handle_task(&CmdTask::ExecCmd("ls".to_string()), "", &mut effects);
    // Every mode transition is logged; the spawn comes last.
    assert_eq!(
        effects,
        vec![
            Effect::Log("entering modify mode".to_string()),
            Effect::Log("entering selection mode".to_string()),
            Effect::Log("entering normal mode".to_string()),
            Effect::Spawn("ls".to_string()),
        ]
    );
}

#[test]
fn unimplemented_command_warns_and_does_nothing() {
    let mut ed = Ishtar::new(80, 30, IshtarConfiguration::new(), String::new());
    let mut effects: Vec<Effect> = Vec::new();
    ed.handle_task(&CmdTask::Swap, "clip", &mut effects);
    ed.handle_task(&CmdTask::MoveIOW, "", &mut effects);
    assert_eq!(
        effects,
        vec![
            Effect::Warn("command not handled".to_string()),
            Effect::Warn("command not handled".to_string()),
        ]
    );
    assert!(!ed.should_exit());
}

#[test]
fn modifier_press_captures_and_dispatches_chord() {
    let cfg = IshtarConfiguration::from_content(
        "[keybinds]\n<normal>\nALT-s = ExecCmd -> \"ls\"\n".to_string(),
    )
    .unwrap();
    let mut ed = Ishtar::new(80, 30, cfg, String::new());
    let mut effects: Vec<Effect> = Vec::new();
    // A complete match on the opening press dispatches at once.
    ed.handle_key(Key::Char('s'), "ALT", "", &mut effects);
    assert_eq!(effects, vec![Effect::Spawn("ls".to_string())]);
    assert!(!ed.keybind_handler().is_listening());
    // An unbound opening press leaves the capture running; Esc ends it.
    ed.handle_key(Key::Char('x'), "ALT", "", &mut effects);
    assert!(ed.keybind_handler().is_listening());
    assert_eq!(ed.keybind_handler().content(), "ALT-x");
    ed.handle_key(Key::Esc, "", "", &mut effects);
    assert!(!ed.keybind_handler().is_listening());
}

#[test]
fn plain_keys_route_to_the_focused_widget() {
    let mut ed = Ishtar::new(80, 30, IshtarConfiguration::new(), String::new());
    let mut effects: Vec<Effect> = Vec::new();
    // In command mode the keystrokes build the command line.
    ed.handle_key(Key::Char(':'), "", "", &mut effects);
    ed.handle_key(Key::Char('x'), "", "", &mut effects);
    assert_eq!(ed.cmd_line().content(), ":x");
    ed.handle_key(Key::Backspace, "", "", &mut effects);
    assert_eq!(ed.cmd_line().content(), ":");
    ed.handle_key(Key::Esc, "", "", &mut effects);
    // The `m` shortcut on the empty line enters modify mode; typing then
    // lands in the focused pane.
    ed.handle_key(Key::Char('m'), "", "", &mut effects);
    assert_eq!(ed.mode_id(), 1);
    ed.handle_key(Key::Char('a'), "", "", &mut effects);
    ed.handle_key(Key::Enter, "", "", &mut effects);
    ed.handle_key(Key::Char('b'), "", "", &mut effects);
    let area = ed.current_area();
    assert_eq!(doc_of(area), vec!["a".to_string(), "b".to_string()]);
    // The `:l` directive exits.
    ed.handle_key(Key::Esc, "", "", &mut effects);
    ed.handle_key(Key::Char(':'), "", "", &mut effects);
    ed.handle_key(Key::Char('l'), "", "", &mut effects);
    ed.handle_key(Key::Enter, "", "", &mut effects);
    assert!(ed.should_exit());
}

#[test]
fn dispatcher_runs_multi_in_order() {
    let mut ed = Ishtar::new(80, 30, IshtarConfiguration::new(), String::new());
    let mut effects: Vec<Effect> = Vec::new();
    ed.handle_task(
        &CmdTask::Multi(vec![
            CmdTask::Log("first".to_string()),
            CmdTask::Warn("second".to_string()),
        ]),
        "",
        &mut effects,
    );
    assert_eq!(
        effects,
        vec![Effect::Log("first".to_string()), Effect::Warn("second".to_string())]
    );
}

#[test]
fn interpreter_builtins_and_directives() {
    let mut ci = CommandInterpreter::new();
    assert_eq!(ci.execute_cmd(":l"), CmdTask::Exit);
    assert_eq!(ci.execute_cmd(":r"), CmdTask::Reset);
    assert_eq!(ci.execute_cmd(":s"), CmdTask::SaveFile);
    assert_eq!(
        ci.execute_cmd(":s notes.txt"),
        CmdTask::SaveFileAs("notes.txt".to_string())
    );
    assert_eq!(
        ci.execute_cmd(":m src/lib.rs"),
        CmdTask::ModifyFile("src/lib.rs".to_string())
    );
    assert_eq!(
        ci.execute_cmd("!ls;pwd"),
        CmdTask::Multi(vec![
            CmdTask::ExecCmd("ls".to_string()),
            CmdTask::ExecCmd("pwd".to_string()),
        ])
    );
    assert_eq!(ci.execute_cmd("nonsense"), CmdTask::Null);
}

#[test]
fn interpreter_prompts_for_missing_file_name() {
    let mut ci = CommandInterpreter::new();
    assert_eq!(ci.execute_cmd(":m"), CmdTask::Null);
    assert!(ci.is_requesting());
    let _ = ci.write('a');
    let _ = ci.write('b');
    assert_eq!(ci.execute(), CmdTask::ModifyFile("ab".to_string()));
    assert!(!ci.is_requesting());
}

#[test]
fn interpreter_mode_shortcuts_on_empty_line() {
    let mut ci = CommandInterpreter::new();
    assert_eq!(ci.write('m'), CmdTask::EnterModify);
    assert_eq!(ci.write('s'), CmdTask::EnterSelection);
    assert_eq!(ci.write('x'), CmdTask::Null);
    assert_eq!(ci.write('m'), CmdTask::Null);
    assert_eq!(ci.content(), "xm");
}

#[test]
fn interpreter_backspace_edits_line() {
    let mut ci = CommandInterpreter::new();
    let _ = ci.write(':');
    let _ = ci.write('s');
    ci.backspace();
    assert_eq!(ci.content(), ":");
    ci.backspace();
    assert_eq!(ci.content(), "");
    ci.backspace();
    assert_eq!(ci.content(), "");
}

#[test]
fn copy_selection_routes_to_clipboards() {
    let mut ed = Ishtar::new(80, 30, IshtarConfiguration::new(), String::new());
    let mut effects: Vec<Effect> = Vec::new();
    ed.handle_task(&CmdTask::Write("line".to_string()), "", &mut effects);
    ed.handle_task(&CmdTask::EnterSelection, "", &mut effects);
    ed.handle_task(&CmdTask::CopyToSys, "", &mut effects);
    assert!(effects.iter().any(|e| matches!(e, Effect::SetClipboard(_))));
}

#[test]
fn modify_file_asks_for_the_file_content() {
    let mut ed = Ishtar::new(80, 30, IshtarConfiguration::new(), String::new());
    let mut effects: Vec<Effect> = Vec::new();
    ed.handle_task(&CmdTask::ModifyFile("a.txt".to_string()), "", &mut effects);
    assert_eq!(effects, vec![Effect::OpenFileRequest("a.txt".to_string())]);
    ed.open_file("a.txt".to_string(), Some("x\ny".to_string()));
    let area = ed.current_area();
    assert_eq!(doc_of(area), vec!["x".to_string(), "y".to_string()]);
}

#[test]
fn modes_follow_commands() {
    let mut ed = Ishtar::new(80, 30, IshtarConfiguration::new(), String::new());
    let mut effects: Vec<Effect> = Vec::new();
    ed.handle_task(&CmdTask::EnterModify, "", &mut effects);
    ed.handle_task(&CmdTask::Write("abc".to_string()), "", &mut effects);
    let area = ed.current_area();
    assert_eq!(doc_of(area), vec!["abc".to_string()]);
    assert!(matches!(IshtarMode::Modify, IshtarMode::Modify));
}
