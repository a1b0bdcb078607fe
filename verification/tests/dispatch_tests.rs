use input2cmds::config::parse_source;
use input2cmds::dispatch::{find_match, Dispatcher, Phase};
use input2cmds::event::Event;
use input2cmds::render::render_event_line;
use input2cmds::text::split_lines;

fn bytes(s: &str) -> Vec<u8> {
    s.as_bytes().to_vec()
}

fn lines(s: &str) -> Vec<Vec<u8>> {
    split_lines(&bytes(s))
}

#[test]
fn scenario_single_rule_runs_its_command() {
    let cfg = parse_source(&lines("if type=1 code=2 value=1 then: echo hi")).unwrap();
    let mut d = Dispatcher::new(cfg.rules);
    let e = Event { type_: 1, code: 2, value: 1 };
    let cmd = d.on_event(&e).expect("the rule should match");
    assert_eq!(cmd, bytes("echo hi"));
    assert_eq!(d.phase, Phase::Running);
    let line = render_event_line(&e, &cmd);
    assert_eq!(line, bytes("if type=1 code=2 value=1 then: echo hi"));
    d.on_command_exit();
    assert_eq!(d.phase, Phase::Ready);
}

#[test]
fn scenario_no_rules_matches_nothing() {
    let cfg = parse_source(&lines("dev /no/such/device")).unwrap();
    assert!(cfg.rules.is_empty());
    let mut d = Dispatcher::new(cfg.rules);
    let e = Event { type_: 3, code: 7, value: -5 };
    assert_eq!(d.on_event(&e), None);
    assert_eq!(d.phase, Phase::Ready);
    // The verbose template uses the exact observed field values.
    let template = render_event_line(&e, &bytes("..."));
    assert_eq!(template, bytes("if type=3 code=7 value=-5 then: ..."));
}

#[test]
fn scenario_first_match_wins_over_more_specific_rule() {
    let cfg = parse_source(&lines("if type=1 then: A\nif type=1 code=5 then: B")).unwrap();
    let e = Event { type_: 1, code: 5, value: 0 };
    assert_eq!(find_match(&cfg.rules, &e), Some(0));
    let mut d = Dispatcher::new(cfg.rules);
    assert_eq!(d.on_event(&e), Some(bytes("A")));
}

#[test]
fn wildcard_fields_never_constrain() {
    let cfg = parse_source(&lines("if then: anything")).unwrap();
    let mut d = Dispatcher::new(cfg.rules);
    assert_eq!(d.on_event(&Event { type_: 9, code: 9, value: 9 }), Some(bytes("anything")));
}

#[test]
fn set_fields_must_all_match() {
    let cfg = parse_source(&lines("if type=1 code=2 value=3 then: x")).unwrap();
    assert_eq!(find_match(&cfg.rules, &Event { type_: 1, code: 2, value: 3 }), Some(0));
    assert_eq!(find_match(&cfg.rules, &Event { type_: 2, code: 2, value: 3 }), None);
    assert_eq!(find_match(&cfg.rules, &Event { type_: 1, code: 3, value: 3 }), None);
    assert_eq!(find_match(&cfg.rules, &Event { type_: 1, code: 2, value: 4 }), None);
}

#[test]
fn later_rule_matches_when_earlier_do_not() {
    let cfg = parse_source(&lines("if type=1 code=9 then: A\nif type=1 then: B")).unwrap();
    let e = Event { type_: 1, code: 5, value: 0 };
    assert_eq!(find_match(&cfg.rules, &e), Some(1));
}

#[test]
fn one_command_at_a_time() {
    let cfg = parse_source(&lines("if then: x")).unwrap();
    let mut d = Dispatcher::new(cfg.rules);
    let e1 = Event { type_: 1, code: 1, value: 1 };
    let e2 = Event { type_: 2, code: 2, value: 2 };
    let first = d.on_event(&e1);
    assert!(first.is_some());
    // While the command runs the dispatcher stays in the running phase;
    // only after its exit status is observed is the next event taken.
    assert_eq!(d.phase, Phase::Running);
    d.on_command_exit();
    assert_eq!(d.phase, Phase::Ready);
    let second = d.on_event(&e2);
    assert!(second.is_some());
}

#[test]
fn renders_negative_and_large_values_exactly() {
    let e = Event { type_: 65535, code: 0, value: -2147483648 };
    let line = render_event_line(&e, &bytes("cmd"));
    assert_eq!(line, bytes("if type=65535 code=0 value=-2147483648 then: cmd"));
}
