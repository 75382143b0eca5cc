use debugscope::color::{Color, Legend};
use debugscope::config::{ScopeConfig, ScopeSignalConfig};
use debugscope::line::DebugObjectError;
use debugscope::num::Num;

fn to_tokens(tokens: &[&str]) -> Vec<String> {
    tokens.iter().map(|s| s.to_string()).collect()
}

fn dec(neg: bool, digits: Vec<u8>, exp: i64) -> Num {
    Num::Dec { neg, digits, exp }
}

fn cyan() -> Color {
    Color { r: 0, g: 0xFF, b: 0xFF }
}

fn yellow() -> Color {
    Color { r: 0xFF, g: 0xFF, b: 0 }
}

#[test]
fn test_configuration_commandline() {
    let tokens = to_tokens(&["MyScope", "SIZE", "254", "84", "SAMPLES", "128"]);
    let scope_config = ScopeConfig::from_tokens(&tokens).expect("invalid configuration");
    assert_eq!(scope_config.name, "MyScope");
    assert_eq!(
        scope_config.size,
        (dec(false, vec![2, 5, 4], 0), dec(false, vec![8, 4], 0))
    );
    assert_eq!(scope_config.samples, 128);
}

#[test]
fn test_configuration_signal() {
    let tokens = to_tokens(&["'Sawtooth'", "0", "63", "64", "10", "%1111", "CYAN"]);
    let signal_config = ScopeSignalConfig::from_tokens(&tokens).expect("invalid configuration");
    assert_eq!(signal_config.name, "Sawtooth");
    assert_eq!(signal_config.min, dec(false, vec![], 0));
    assert_eq!(signal_config.max, dec(false, vec![6, 3], 0));
    assert_eq!(signal_config.y_size, dec(false, vec![6, 4], 0));
    assert_eq!(signal_config.y_base, dec(false, vec![1, 0], 0));
    assert_eq!(signal_config.color, cyan());
}

#[test]
fn scope_defaults_when_nothing_given() {
    let cfg = ScopeConfig::from_tokens(&to_tokens(&["A"])).expect("name alone must do");
    assert_eq!(cfg.name, "A");
    assert_eq!(cfg.samples, 256);
    assert_eq!(cfg.rate, 1);
    assert_eq!(cfg.color, Color { r: 0, g: 0, b: 0 });
}

#[test]
fn scope_scan_stops_at_unknown_keyword() {
    let cfg = ScopeConfig::from_tokens(&to_tokens(&["A", "FOO", "SAMPLES", "9"]))
        .expect("unknown keyword only stops the scan");
    assert_eq!(cfg.samples, 256);
}

#[test]
fn scope_errors() {
    assert_eq!(
        ScopeConfig::from_tokens(&to_tokens(&[])).unwrap_err(),
        DebugObjectError::NoNameGiven
    );
    assert_eq!(
        ScopeConfig::from_tokens(&to_tokens(&["X", "SIZE"])).unwrap_err(),
        DebugObjectError::IndexError
    );
    assert_eq!(
        ScopeConfig::from_tokens(&to_tokens(&["X", "SIZE", "abc", "1"])).unwrap_err(),
        DebugObjectError::ParseNumberError
    );
    assert_eq!(
        ScopeConfig::from_tokens(&to_tokens(&["X", "SIZE", "1"])).unwrap_err(),
        DebugObjectError::IndexError
    );
    assert_eq!(
        ScopeConfig::from_tokens(&to_tokens(&["X", "SAMPLES"])).unwrap_err(),
        DebugObjectError::IndexError
    );
    assert_eq!(
        ScopeConfig::from_tokens(&to_tokens(&["X", "SAMPLES", "many"])).unwrap_err(),
        DebugObjectError::ParseNumberError
    );
    assert_eq!(
        ScopeConfig::from_tokens(&to_tokens(&["X", "SAMPLES", "99999999999999999999999"]))
            .unwrap_err(),
        DebugObjectError::ParseNumberError
    );
}

#[test]
fn signal_errors() {
    assert_eq!(
        ScopeSignalConfig::from_tokens(&to_tokens(&[])).unwrap_err(),
        DebugObjectError::NoNameGiven
    );
    assert_eq!(
        ScopeSignalConfig::from_tokens(&to_tokens(&["'S'"])).unwrap_err(),
        DebugObjectError::IndexError
    );
    assert_eq!(
        ScopeSignalConfig::from_tokens(&to_tokens(&["'S'", "0", "63", "64"])).unwrap_err(),
        DebugObjectError::IndexError
    );
    assert_eq!(
        ScopeSignalConfig::from_tokens(&to_tokens(&["'S'", "low", "63", "64", "10"]))
            .unwrap_err(),
        DebugObjectError::ParseNumberError
    );
}

#[test]
fn signal_color_defaults_to_yellow() {
    let cfg = ScopeSignalConfig::from_tokens(&to_tokens(&["'S'", "0", "1", "2", "3"]))
        .expect("four numerics suffice");
    assert_eq!(cfg.color, yellow());
    assert_eq!(cfg.legend, None);
    let cfg = ScopeSignalConfig::from_tokens(&to_tokens(&["'S'", "0", "1", "2", "3", "BEIGE"]))
        .expect("an unknown color is not an error");
    assert_eq!(cfg.color, yellow());
}

#[test]
fn signal_color_without_mask() {
    let cfg = ScopeSignalConfig::from_tokens(&to_tokens(&["'S'", "0", "1", "2", "3", "RED"]))
        .expect("direct color");
    assert_eq!(cfg.color, Color { r: 0xFF, g: 0, b: 0 });
    assert_eq!(cfg.legend, None);
}

#[test]
fn signal_mask_then_color() {
    let cfg = ScopeSignalConfig::from_tokens(&to_tokens(&[
        "'S'", "0", "1", "2", "3", "%1010", "GREEN",
    ]))
    .expect("mask then color");
    assert_eq!(
        cfg.legend,
        Some(Legend { max: true, min: false, max_line: true, min_line: false })
    );
    assert_eq!(cfg.color, Color { r: 0, g: 0x80, b: 0 });
}

#[test]
fn signal_mask_without_color_gets_default() {
    let cfg = ScopeSignalConfig::from_tokens(&to_tokens(&["'S'", "0", "1", "2", "3", "%1111"]))
        .expect("mask without color");
    assert_eq!(
        cfg.legend,
        Some(Legend { max: true, min: true, max_line: true, min_line: true })
    );
    assert_eq!(cfg.color, yellow());
}

#[test]
fn gray_colors_by_level() {
    let cfg = ScopeSignalConfig::from_tokens(&to_tokens(&["'S'", "0", "1", "2", "3", "GRAY", "1"]))
        .expect("gray level 1");
    assert_eq!(cfg.color, Color { r: 30, g: 30, b: 30 });
    let cfg = ScopeSignalConfig::from_tokens(&to_tokens(&["'S'", "0", "1", "2", "3", "GREY", "10"]))
        .expect("grey level 10");
    assert_eq!(cfg.color, Color { r: 255, g: 255, b: 255 });
    let cfg = ScopeSignalConfig::from_tokens(&to_tokens(&["'S'", "0", "1", "2", "3", "GRAY", "11"]))
        .expect("out-of-range level is not an error");
    assert_eq!(cfg.color, yellow());
}

#[test]
fn quote_stripping_convention() {
    let cfg = ScopeSignalConfig::from_tokens(&to_tokens(&["'Saw'", "0", "1", "2", "3"]))
        .expect("quoted");
    assert_eq!(cfg.name, "Saw");
    let cfg = ScopeSignalConfig::from_tokens(&to_tokens(&["bare", "0", "1", "2", "3"]))
        .expect("unquoted passes through");
    assert_eq!(cfg.name, "bare");
    let cfg = ScopeSignalConfig::from_tokens(&to_tokens(&["a'b'c", "0", "1", "2", "3"]))
        .expect("malformed quoting degenerates to the middle piece");
    assert_eq!(cfg.name, "b");
}
