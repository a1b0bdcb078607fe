use input2cmds::config::{
    parse_line, parse_source, Config, ConfigError, Device, ErrKind, MatchRule, ParsedLine,
};
use input2cmds::text::{split_lines, split_tokens};

fn bytes(s: &str) -> Vec<u8> {
    s.as_bytes().to_vec()
}

fn lines(s: &str) -> Vec<Vec<u8>> {
    split_lines(&bytes(s))
}

#[test]
fn splits_lines_and_strips_carriage_returns() {
    assert_eq!(lines("a\nb\r\nc"), vec![bytes("a"), bytes("b"), bytes("c")]);
    assert_eq!(lines("a\n"), vec![bytes("a")]);
    assert_eq!(lines(""), Vec::<Vec<u8>>::new());
    assert_eq!(lines("\n"), vec![bytes("")]);
}

#[test]
fn tokenizes_on_each_whitespace_byte() {
    assert_eq!(split_tokens(&bytes("if type=1 then")), vec![
        bytes("if"),
        bytes("type=1"),
        bytes("then")
    ]);
    // Consecutive separators produce empty tokens.
    assert_eq!(split_tokens(&bytes("dev  x")), vec![bytes("dev"), bytes(""), bytes("x")]);
}

#[test]
fn colon_appends_one_verbatim_token() {
    assert_eq!(split_tokens(&bytes("if then:   echo a b")), vec![
        bytes("if"),
        bytes("then"),
        bytes("echo a b")
    ]);
}

#[test]
fn comment_stripped_before_colon_split() {
    assert_eq!(split_tokens(&bytes("if then: echo a#b")), vec![
        bytes("if"),
        bytes("then"),
        bytes("echo a")
    ]);
    assert_eq!(split_tokens(&bytes("# dev /x")), vec![bytes("")]);
}

#[test]
fn parses_full_rule_line() {
    let r = parse_line(&bytes("if type=1 code=2 value=1 then: echo hi"));
    match r {
        ParsedLine::Rule(rule) => {
            assert_eq!(rule, MatchRule {
                wants_type: Some(1),
                wants_code: Some(2),
                wants_value: Some(1),
                command: bytes("echo hi"),
            });
        }
        other => panic!("expected a rule, got {:?}", other),
    }
}

#[test]
fn parses_wildcard_rule_line() {
    let r = parse_line(&bytes("if then: true"));
    match r {
        ParsedLine::Rule(rule) => {
            assert_eq!(rule.wants_type, None);
            assert_eq!(rule.wants_code, None);
            assert_eq!(rule.wants_value, None);
            assert_eq!(rule.command, bytes("true"));
        }
        other => panic!("expected a rule, got {:?}", other),
    }
}

#[test]
fn parses_dev_line() {
    let r = parse_line(&bytes("dev /dev/input/event0"));
    match r {
        ParsedLine::Dev(path) => assert_eq!(path, bytes("/dev/input/event0")),
        other => panic!("expected a device, got {:?}", other),
    }
}

#[test]
fn blank_and_comment_lines_are_skipped() {
    assert!(matches!(parse_line(&bytes("")), ParsedLine::Empty));
    assert!(matches!(parse_line(&bytes("   ")), ParsedLine::Empty));
    assert!(matches!(parse_line(&bytes("# just a comment")), ParsedLine::Empty));
}

#[test]
fn missing_then_is_rejected_with_line_number() {
    let r = parse_source(&lines("dev /x\nif type=1\n"));
    assert_eq!(r, Err(ConfigError { line: 2, kind: ErrKind::MissingThen }));
}

#[test]
fn duplicate_keys_are_rejected_with_line_number() {
    let r = parse_source(&lines("\nif type=1 type=2 then: x"));
    assert_eq!(r, Err(ConfigError { line: 2, kind: ErrKind::DuplicateType }));
    let r = parse_source(&lines("if code=1 code=1 then: x"));
    assert_eq!(r, Err(ConfigError { line: 1, kind: ErrKind::DuplicateCode }));
    let r = parse_source(&lines("if value=1 type=2 value=3 then: x"));
    assert_eq!(r, Err(ConfigError { line: 1, kind: ErrKind::DuplicateValue }));
}

#[test]
fn non_colon_multi_token_command_is_rejected() {
    let r = parse_source(&lines("if type=1 then echo hi"));
    assert_eq!(r, Err(ConfigError { line: 1, kind: ErrKind::UnsplitCommand }));
}

#[test]
fn then_without_command_is_rejected() {
    let r = parse_source(&lines("if type=1 then"));
    assert_eq!(r, Err(ConfigError { line: 1, kind: ErrKind::MissingCommand }));
}

#[test]
fn invalid_integers_are_rejected() {
    let r = parse_source(&lines("if type=abc then: x"));
    assert_eq!(r, Err(ConfigError { line: 1, kind: ErrKind::InvalidType }));
    let r = parse_source(&lines("if code=65536 then: x"));
    assert_eq!(r, Err(ConfigError { line: 1, kind: ErrKind::InvalidCode }));
    let r = parse_source(&lines("if value=1.5 then: x"));
    assert_eq!(r, Err(ConfigError { line: 1, kind: ErrKind::InvalidValue }));
}

#[test]
fn unknown_directives_and_conditions_are_rejected() {
    let r = parse_source(&lines("frobnicate /x"));
    assert_eq!(r, Err(ConfigError { line: 1, kind: ErrKind::UnknownDirective }));
    let r = parse_source(&lines("if mouse=1 then: x"));
    assert_eq!(r, Err(ConfigError { line: 1, kind: ErrKind::UnknownCondition }));
}

#[test]
fn dev_wants_exactly_one_parameter() {
    let r = parse_source(&lines("dev"));
    assert_eq!(r, Err(ConfigError { line: 1, kind: ErrKind::DevParamCount }));
    let r = parse_source(&lines("dev /a /b"));
    assert_eq!(r, Err(ConfigError { line: 1, kind: ErrKind::DevParamCount }));
}

#[test]
fn devices_are_recorded_with_their_line() {
    let cfg = parse_source(&lines("# header\ndev /no/such/device\nif type=1 then: x")).unwrap();
    assert_eq!(cfg.devices, vec![Device { path: bytes("/no/such/device"), line: 2 }]);
    assert_eq!(cfg.rules.len(), 1);
}

#[test]
fn rules_accumulate_in_declaration_order() {
    let cfg = parse_source(&lines("if type=1 then: A\nif type=1 code=5 then: B")).unwrap();
    assert_eq!(cfg.rules.len(), 2);
    assert_eq!(cfg.rules[0].command, bytes("A"));
    assert_eq!(cfg.rules[1].command, bytes("B"));
}

#[test]
fn sources_accumulate_rules_in_supply_order() {
    let mut rules = Vec::new();
    let devs = input2cmds::config::load_source(&lines("if type=1 then: A"), &mut rules).unwrap();
    assert!(devs.is_empty());
    let devs = input2cmds::config::load_source(&lines("dev /x\nif type=2 then: B"), &mut rules)
        .unwrap();
    assert_eq!(devs.len(), 1);
    assert_eq!(rules.len(), 2);
    assert_eq!(rules[0].command, bytes("A"));
    assert_eq!(rules[1].command, bytes("B"));
}

#[test]
fn failed_source_leaves_the_table_untouched() {
    let mut rules = Vec::new();
    input2cmds::config::load_source(&lines("if type=1 then: A"), &mut rules).unwrap();
    let r = input2cmds::config::load_source(&lines("if type=2 then: B\nnonsense"), &mut rules);
    assert_eq!(r, Err(ConfigError { line: 2, kind: ErrKind::UnknownDirective }));
    assert_eq!(rules.len(), 1);
    assert_eq!(rules[0].command, bytes("A"));
}

#[test]
fn recompiling_same_text_gives_identical_tables() {
    let src = "dev /x\nif type=1 code=2 then: echo hi\n# note\nif value=-3 then: beep";
    let a: Config = parse_source(&lines(src)).unwrap();
    let b: Config = parse_source(&lines(src)).unwrap();
    assert_eq!(a, b);
    assert_eq!(a.rules, b.rules);
}
