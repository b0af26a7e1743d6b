use pi3gpio::bank::{read_report, PinBank, Report};
use pi3gpio::pins::{
    checked_pin, parse_pin_token, resolve_state, CommandError, Op, PinMode, PinSelector, PinState,
};
use pi3gpio::plan::{plan_invocation, Plan};
use pi3gpio::token::{matches_word, to_u8};

fn args(words: &[&str]) -> Vec<String> {
    words.iter().map(|w| w.to_string()).collect()
}

fn plan(words: &[&str]) -> Plan {
    plan_invocation(&args(words))
}

fn read_ops(pin: u8) -> Vec<Op> {
    vec![Op::SetMode { pin, mode: PinMode::Input }, Op::Read { pin }]
}

fn write_ops(pin: u8, state: PinState) -> Vec<Op> {
    vec![Op::SetMode { pin, mode: PinMode::Output }, Op::Write { pin, state }]
}

#[test]
fn no_arguments_is_missing_command() {
    let p = plan(&[]);
    assert!(!p.help);
    assert!(p.ops.is_empty());
    assert_eq!(p.outcome, Err(CommandError::MissingCommand));
}

#[test]
fn help_touches_no_pin() {
    for words in [&["help"][..], &["help", "get", "all"][..]] {
        let p = plan(words);
        assert!(p.help);
        assert!(p.ops.is_empty());
        assert_eq!(p.outcome, Ok(()));
    }
}

#[test]
fn unknown_command_is_fatal() {
    let p = plan(&["GET", "4"]);
    assert!(!p.help);
    assert!(p.ops.is_empty());
    assert_eq!(p.outcome, Err(CommandError::UnknownCommand("GET".to_string())));
}

#[test]
fn set_medium_is_invalid_state_before_any_pin() {
    let p = plan(&["set", "medium", "4", "5"]);
    assert_eq!(p.ops, vec![Op::Open { revert_on_close: false }]);
    assert_eq!(p.outcome, Err(CommandError::InvalidState("medium".to_string())));
    let p = plan(&["set", "medium", "all"]);
    assert_eq!(p.ops, vec![Op::Open { revert_on_close: false }]);
    assert_eq!(p.outcome, Err(CommandError::InvalidState("medium".to_string())));
}

#[test]
fn set_without_state_is_missing_state() {
    let p = plan(&["set"]);
    assert_eq!(p.ops, vec![Op::Open { revert_on_close: false }]);
    assert_eq!(p.outcome, Err(CommandError::MissingState));
}

#[test]
fn set_without_pin_is_missing_pin() {
    let p = plan(&["set", "high"]);
    assert_eq!(p.ops, vec![Op::Open { revert_on_close: false }]);
    assert_eq!(p.outcome, Err(CommandError::MissingPin));
}

#[test]
fn get_without_pin_is_missing_pin() {
    let p = plan(&["get"]);
    assert_eq!(p.ops, vec![Op::Open { revert_on_close: true }]);
    assert_eq!(p.outcome, Err(CommandError::MissingPin));
}

#[test]
fn get_30_is_invalid_pin_without_read() {
    let p = plan(&["get", "30"]);
    assert_eq!(p.ops, vec![Op::Open { revert_on_close: true }]);
    assert_eq!(p.outcome, Err(CommandError::InvalidPinToken("30".to_string())));
}

#[test]
fn get_reads_in_order_until_invalid_token() {
    let p = plan(&["get", "4", "11", "99", "5"]);
    let mut expected = vec![Op::Open { revert_on_close: true }];
    expected.extend(read_ops(4));
    expected.extend(read_ops(11));
    assert_eq!(p.ops, expected);
    assert_eq!(p.outcome, Err(CommandError::InvalidPinToken("99".to_string())));

    let mut bank = PinBank::new();
    let reports = bank.run(&p.ops);
    assert_eq!(reports, vec![Report::Unreadable { pin: 4 }, Report::Unreadable { pin: 11 }]);
}

#[test]
fn all_after_a_pin_is_an_invalid_token() {
    let p = plan(&["get", "3", "all"]);
    let mut expected = vec![Op::Open { revert_on_close: true }];
    expected.extend(read_ops(3));
    assert_eq!(p.ops, expected);
    assert_eq!(p.outcome, Err(CommandError::InvalidPinToken("all".to_string())));
}

#[test]
fn get_all_reads_every_pin_ascending() {
    let p = plan(&["get", "all"]);
    assert_eq!(p.outcome, Ok(()));
    let mut expected = vec![Op::Open { revert_on_close: true }];
    for pin in 0..=27u8 {
        expected.extend(read_ops(pin));
    }
    assert_eq!(p.ops.len(), 57);
    assert_eq!(p.ops, expected);
    let reads = p.ops.iter().filter(|op| matches!(op, Op::Read { .. })).count();
    assert_eq!(reads, 28);
}

#[test]
fn get_all_ignores_later_tokens() {
    let p = plan(&["get", "all", "99", "x"]);
    assert_eq!(p.outcome, Ok(()));
    assert_eq!(p.ops, plan(&["get", "all"]).ops);
}

#[test]
fn get_all_reports_every_pin_when_reads_fail() {
    let mut bank = PinBank::new();
    let reports = bank.run(&plan(&["get", "all"]).ops);
    let expected: Vec<Report> = (0..=27u8).map(|pin| Report::Unreadable { pin }).collect();
    assert_eq!(reports, expected);
}

#[test]
fn get_all_reports_levels_where_known() {
    let mut bank = PinBank::new();
    bank.run(&plan(&["set", "high", "2", "5"]).ops);
    let reports = bank.run(&plan(&["get", "all"]).ops);
    assert_eq!(reports.len(), 28);
    assert_eq!(reports[2], Report::Level { pin: 2, state: PinState::High });
    assert_eq!(reports[5], Report::Level { pin: 5, state: PinState::High });
    assert_eq!(reports[3], Report::Unreadable { pin: 3 });
}

#[test]
fn set_low_all_writes_every_pin_ascending() {
    let p = plan(&["set", "low", "all"]);
    assert_eq!(p.outcome, Ok(()));
    let mut expected = vec![Op::Open { revert_on_close: false }];
    for pin in 0..=27u8 {
        expected.extend(write_ops(pin, PinState::Low));
    }
    assert_eq!(p.ops, expected);
    let writes = p.ops.iter().filter(|op| matches!(op, Op::Write { .. })).count();
    assert_eq!(writes, 28);
    let mut bank = PinBank::new();
    let reports = bank.run(&p.ops);
    let driven: Vec<Report> =
        (0..=27u8).map(|pin| Report::Driven { pin, state: PinState::Low }).collect();
    assert_eq!(reports, driven);
    for pin in 0..=27u8 {
        assert_eq!(bank.level(pin), Some(PinState::Low));
    }
}

#[test]
fn set_pins_in_order() {
    let p = plan(&["set", "high", "2", "5", "7"]);
    assert_eq!(p.outcome, Ok(()));
    let mut expected = vec![Op::Open { revert_on_close: false }];
    for pin in [2u8, 5, 7] {
        expected.extend(write_ops(pin, PinState::High));
    }
    assert_eq!(p.ops, expected);
}

#[test]
fn set_then_get_round_trip_every_pin() {
    for (word, state) in [("high", PinState::High), ("low", PinState::Low)] {
        for pin in 0..=27u8 {
            let token = pin.to_string();
            let mut bank = PinBank::new();
            let set = plan(&["set", word, &token]);
            assert_eq!(set.outcome, Ok(()));
            assert_eq!(bank.run(&set.ops), vec![Report::Driven { pin, state }]);
            let get = plan(&["get", &token]);
            assert_eq!(get.outcome, Ok(()));
            assert_eq!(bank.run(&get.ops), vec![Report::Level { pin, state }]);
        }
    }
}

#[test]
fn round_trip_overwrites_earlier_level() {
    let mut bank = PinBank::new();
    bank.run(&plan(&["set", "high", "17"]).ops);
    bank.run(&plan(&["set", "low", "17"]).ops);
    assert_eq!(
        bank.run(&plan(&["get", "17"]).ops),
        vec![Report::Level { pin: 17, state: PinState::Low }]
    );
}

#[test]
fn u8_tokens() {
    assert_eq!(to_u8("0"), Some(0));
    assert_eq!(to_u8("27"), Some(27));
    assert_eq!(to_u8("255"), Some(255));
    assert_eq!(to_u8("256"), None);
    assert_eq!(to_u8("007"), Some(7));
    assert_eq!(to_u8("+7"), Some(7));
    assert_eq!(to_u8("+"), None);
    assert_eq!(to_u8("-1"), None);
    assert_eq!(to_u8(""), None);
    assert_eq!(to_u8("1a"), None);
    assert_eq!(to_u8(" 1"), None);
    assert_eq!(to_u8("99999999999999999999"), None);
    for n in 0..=255u8 {
        assert_eq!(to_u8(&n.to_string()), n.to_string().parse::<u8>().ok());
    }
}

#[test]
fn pin_tokens() {
    assert_eq!(parse_pin_token("all"), Ok(PinSelector::All));
    assert_eq!(parse_pin_token("12"), Ok(PinSelector::Single(12)));
    assert_eq!(parse_pin_token("200"), Ok(PinSelector::Single(200)));
    assert_eq!(parse_pin_token("ALL"), Err(CommandError::InvalidPinToken("ALL".to_string())));
    assert_eq!(parse_pin_token("300"), Err(CommandError::InvalidPinToken("300".to_string())));
}

#[test]
fn checked_pin_bounds() {
    assert_eq!(checked_pin("0"), Ok(0));
    assert_eq!(checked_pin("27"), Ok(27));
    assert_eq!(checked_pin("28"), Err(CommandError::InvalidPinToken("28".to_string())));
    assert_eq!(checked_pin("x"), Err(CommandError::InvalidPinToken("x".to_string())));
}

#[test]
fn state_tokens() {
    assert_eq!(resolve_state(None), Err(CommandError::MissingState));
    assert_eq!(resolve_state(Some("high")), Ok(PinState::High));
    assert_eq!(resolve_state(Some("low")), Ok(PinState::Low));
    assert_eq!(
        resolve_state(Some("HIGH")),
        Err(CommandError::InvalidState("HIGH".to_string()))
    );
}

#[test]
fn words_match_exactly() {
    assert!(matches_word("get", "get"));
    assert!(!matches_word("ge", "get"));
    assert!(!matches_word("gets", "get"));
    assert!(!matches_word("Get", "get"));
    assert!(matches_word("", ""));
}

#[test]
fn read_reports() {
    assert_eq!(read_report(3, Some(PinState::High)), Report::Level { pin: 3, state: PinState::High });
    assert_eq!(read_report(3, None), Report::Unreadable { pin: 3 });
}
