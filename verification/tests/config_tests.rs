//! Tests of the configuration pipeline: lexing, parsing, table building.

use ishtar::config::{ConfigError, ConfigurationError, IshtarConfiguration};
use ishtar::errors::IshtParseError;
use ishtar::lexer::{lex_content, ConfigToken};
use ishtar::parser::{parse_content, ConfigStatment};
use ishtar::tasks::CmdTask;

#[test]
fn lex_simple_binding() {
    let toks = lex_content("q = SaveFile").unwrap();
    assert_eq!(
        toks,
        vec![
            ConfigToken::Identifier("q".to_string()),
            ConfigToken::Eq,
            ConfigToken::Task(CmdTask::SaveFile),
        ]
    );
}

#[test]
fn lex_group_subgroup_braces() {
    let toks = lex_content("[keybinds]\n<normal>\ns = { SaveFile }").unwrap();
    assert_eq!(
        toks,
        vec![
            ConfigToken::Group("keybinds".to_string()),
            ConfigToken::SubGroup("normal".to_string()),
            ConfigToken::Identifier("s".to_string()),
            ConfigToken::Eq,
            ConfigToken::OpenBrace,
            ConfigToken::Task(CmdTask::SaveFile),
            ConfigToken::CloseBrace,
        ]
    );
}

#[test]
fn lex_arrow_string_and_number() {
    let toks = lex_content("e = ExecCmd -> \"ls -l\" n = MoveToLine -> 42").unwrap();
    assert_eq!(
        toks,
        vec![
            ConfigToken::Identifier("e".to_string()),
            ConfigToken::Eq,
            ConfigToken::Identifier("ExecCmd".to_string()),
            ConfigToken::Arrow,
            ConfigToken::Str("ls -l".to_string()),
            ConfigToken::Identifier("n".to_string()),
            ConfigToken::Eq,
            ConfigToken::Identifier("MoveToLine".to_string()),
            ConfigToken::Arrow,
            ConfigToken::Num(42),
        ]
    );
}

#[test]
fn lex_malformed_arrow_is_an_error() {
    assert_eq!(lex_content("a -b"), Err(IshtParseError::MalformedArrow));
}

#[test]
fn lex_unterminated_string_closes_at_line_end() {
    let toks = lex_content("x = \"abc\ny = SaveFile").unwrap();
    assert_eq!(toks[2], ConfigToken::Str("abc".to_string()));
    assert_eq!(toks[3], ConfigToken::Identifier("y".to_string()));
}

#[test]
fn lex_number_too_large_is_an_error() {
    assert_eq!(
        lex_content("x = MoveToLine -> 99999999999"),
        Err(IshtParseError::NumTooLarge)
    );
}

#[test]
fn vocabulary_recognizes_tasks() {
    assert_eq!(CmdTask::new("SaveMode"), Ok(CmdTask::SaveMode));
    assert_eq!(CmdTask::new("EnterCmd"), Ok(CmdTask::EnterNormal));
    assert_eq!(CmdTask::new("EnterNormal"), Ok(CmdTask::EnterNormal));
    assert_eq!(CmdTask::new("MoveIOB"), Ok(CmdTask::MoveIOB));
    assert!(CmdTask::new("NotATask").is_err());
    assert!(CmdTask::new("ExecCmd").is_err());
}

#[test]
fn parse_example_config() {
    let tree = parse_content("[keybinds]\n<normal>\nq = SaveFile\ngg = MoveIOB\n").unwrap();
    match tree {
        ConfigStatment::Block(groups) => {
            assert_eq!(groups.len(), 1);
            match &groups[0] {
                ConfigStatment::Group { name, data } => {
                    assert_eq!(name, "keybinds");
                    match &**data {
                        ConfigStatment::Block(subs) => {
                            assert_eq!(subs.len(), 1);
                            match &subs[0] {
                                ConfigStatment::SubGroup { name, data } => {
                                    assert_eq!(name, "normal");
                                    match &**data {
                                        ConfigStatment::Block(decls) => {
                                            assert_eq!(decls.len(), 2);
                                        }
                                        other => panic!("not a block: {other:?}"),
                                    }
                                }
                                other => panic!("not a subgroup: {other:?}"),
                            }
                        }
                        other => panic!("not a block: {other:?}"),
                    }
                }
                other => panic!("not a group: {other:?}"),
            }
        }
        other => panic!("not a block: {other:?}"),
    }
}

#[test]
fn parse_reserved_call_arguments() {
    let tree = parse_content("[keybinds]\n<normal>\ne = ExecCmd -> \"ls\"\nn = MoveToRow -> 7\n")
        .unwrap();
    let ConfigStatment::Block(groups) = tree else { panic!() };
    let ConfigStatment::Group { data, .. } = &groups[0] else { panic!() };
    let ConfigStatment::Block(subs) = &**data else { panic!() };
    let ConfigStatment::SubGroup { data, .. } = &subs[0] else { panic!() };
    let ConfigStatment::Block(decls) = &**data else { panic!() };
    let ConfigStatment::CmdDecl { rhs, .. } = &decls[0] else { panic!() };
    assert_eq!(
        &**rhs,
        &ConfigStatment::Task(CmdTask::ExecCmd("ls".to_string()))
    );
    let ConfigStatment::CmdDecl { rhs, .. } = &decls[1] else { panic!() };
    assert_eq!(&**rhs, &ConfigStatment::Task(CmdTask::MoveToRow(7)));
}

#[test]
fn parse_reserved_word_as_binding_name_is_rejected() {
    let r = parse_content("[keybinds]\n<normal>\nExecCmd = SaveFile\n");
    assert_eq!(r, Err(IshtParseError::WrongUseofReserved));
}

#[test]
fn parse_missing_arrow_is_rejected() {
    let r = parse_content("[keybinds]\n<normal>\ne = ExecCmd \"ls\"\n");
    assert_eq!(r, Err(IshtParseError::ExpectingArrow("ExecCmd".to_string())));
}

#[test]
fn parse_missing_eq_is_rejected() {
    let r = parse_content("[keybinds]\n<normal>\nq SaveFile\n");
    assert_eq!(r, Err(IshtParseError::ExpectingEq));
}

#[test]
fn parse_expects_a_group_first() {
    let r = parse_content("q = SaveFile");
    assert!(matches!(r, Err(IshtParseError::BlockExpected(_))));
}

#[test]
fn config_builds_keybind_tables() {
    let cfg = IshtarConfiguration::from_content(
        "[keybinds]\n<normal>\nq = SaveFile\n<modify>\nEsc = EnterNormal\n".to_string(),
    )
    .unwrap();
    let normal = &cfg.keybinds[0];
    let bound = normal.get("q").unwrap();
    assert_eq!(bound, &vec![ConfigStatment::Task(CmdTask::SaveFile)]);
    let modify = &cfg.keybinds[1];
    let bound = modify.get("Esc").unwrap();
    assert_eq!(bound, &vec![ConfigStatment::Task(CmdTask::EnterNormal)]);
    assert!(normal.get("Esc").is_none());
}

#[test]
fn config_block_binding_keeps_order() {
    let cfg = IshtarConfiguration::from_content(
        "[keybinds]\n<normal>\nx = { SaveFile EnterModify }\n".to_string(),
    )
    .unwrap();
    let bound = cfg.keybinds[0].get("x").unwrap();
    assert_eq!(
        bound,
        &vec![
            ConfigStatment::Task(CmdTask::SaveFile),
            ConfigStatment::Task(CmdTask::EnterModify),
        ]
    );
}

#[test]
fn config_rejects_unknown_group() {
    let r = IshtarConfiguration::from_content("[colors]\n".to_string());
    assert!(matches!(
        r,
        Err(ConfigError::Config(ConfigurationError::NotRecognizedGroup(n))) if n == "colors"
    ));
}

#[test]
fn config_rejects_unknown_mode() {
    let r = IshtarConfiguration::from_content("[keybinds]\n<visual>\n".to_string());
    assert!(matches!(
        r,
        Err(ConfigError::Config(ConfigurationError::NotRecognizedKeybindMode(n))) if n == "visual"
    ));
}

#[test]
fn config_later_binding_overrides_earlier() {
    let cfg = IshtarConfiguration::from_content(
        "[keybinds]\n<normal>\nq = SaveFile\nq = EnterModify\n".to_string(),
    )
    .unwrap();
    let bound = cfg.keybinds[0].get("q").unwrap();
    assert_eq!(bound, &vec![ConfigStatment::Task(CmdTask::EnterModify)]);
}

#[test]
fn parse_missing_string_parameter_is_rejected() {
    let r = parse_content("[keybinds]\n<normal>\ne = ExecCmd -> 5\n");
    assert_eq!(r, Err(IshtParseError::MissingStringParameter));
}

#[test]
fn parse_missing_num_parameter_is_rejected() {
    let r = parse_content("[keybinds]\n<normal>\nn = MoveToLine -> \"x\"\n");
    assert_eq!(r, Err(IshtParseError::MissingNumParameter));
}

#[test]
fn parse_unclosed_block_reaches_end_of_input() {
    let r = parse_content("[keybinds]\n<normal>\nx = { SaveFile\n");
    assert_eq!(r, Err(IshtParseError::ReachedEOF));
}

#[test]
fn parse_stray_token_in_block_is_rejected() {
    let r = parse_content("[keybinds]\n<normal>\nx = { = }\n");
    assert!(matches!(r, Err(IshtParseError::InvalidTokenPosition(_))));
}

#[test]
fn builder_rejects_non_block_group_body() {
    let mut normal = ishtar::config::Keybinds::new();
    let mut modify = ishtar::config::Keybinds::new();
    let mut selection = ishtar::config::Keybinds::new();
    let r = IshtarConfiguration::generate_from_keybinds_group(
        &ConfigStatment::Task(CmdTask::SaveFile),
        &mut normal,
        &mut modify,
        &mut selection,
    );
    assert!(matches!(r, Err(ConfigurationError::ExpectedTasksBlock)));
    let r = IshtarConfiguration::generate_from_keybinds_group(
        &ConfigStatment::Block(vec![ConfigStatment::Task(CmdTask::SaveFile)]),
        &mut normal,
        &mut modify,
        &mut selection,
    );
    assert!(matches!(r, Err(ConfigurationError::InvalidStatment(_))));
}

#[test]
fn empty_config_is_empty_tables() {
    let cfg = IshtarConfiguration::new();
    assert!(cfg.keybinds[0].get("q").is_none());
    assert!(cfg.keybinds[1].get("q").is_none());
    assert!(cfg.keybinds[2].get("q").is_none());
}
