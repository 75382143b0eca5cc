use debugscope::line::{DebugLine, DebugObjectError};
use debugscope::num::Num;
use debugscope::numparse::parse_num;
use debugscope::strutil::parse_usize;

fn dec(neg: bool, digits: Vec<u8>, exp: i64) -> Num {
    Num::Dec { neg, digits, exp }
}

#[test]
fn integers_parse_exactly() {
    assert_eq!(parse_num("31"), Some(dec(false, vec![3, 1], 0)));
    assert_eq!(parse_num("+7"), Some(dec(false, vec![7], 0)));
    assert_eq!(parse_num("-42"), Some(dec(true, vec![4, 2], 0)));
    assert_eq!(parse_num("007"), Some(dec(false, vec![7], 0)));
    assert_eq!(parse_num("0"), Some(dec(false, vec![], 0)));
    assert_eq!(parse_num("-0.00"), Some(dec(true, vec![], 0)));
}

#[test]
fn fractions_and_exponents_parse_exactly() {
    assert_eq!(parse_num("1.5"), Some(dec(false, vec![1, 5], -1)));
    assert_eq!(parse_num(".5"), Some(dec(false, vec![5], -1)));
    assert_eq!(parse_num("5."), Some(dec(false, vec![5], 0)));
    assert_eq!(parse_num("-2e3"), Some(dec(true, vec![2], 3)));
    assert_eq!(parse_num("1e+2"), Some(dec(false, vec![1], 2)));
    assert_eq!(parse_num("12.34E-1"), Some(dec(false, vec![1, 2, 3, 4], -3)));
}

#[test]
fn special_words_parse_any_case() {
    assert_eq!(parse_num("inf"), Some(Num::PosInf));
    assert_eq!(parse_num("-InFiNiTy"), Some(Num::NegInf));
    assert_eq!(parse_num("NaN"), Some(Num::Nan));
    assert_eq!(parse_num("+INF"), Some(Num::PosInf));
}

#[test]
fn malformed_numbers_are_rejected() {
    assert_eq!(parse_num(""), None);
    assert_eq!(parse_num("."), None);
    assert_eq!(parse_num("1e"), None);
    assert_eq!(parse_num("1.2.3"), None);
    assert_eq!(parse_num("1_0"), None);
    assert_eq!(parse_num("xyz"), None);
    assert_eq!(parse_num("1,2,3"), None);
    assert_eq!(parse_num("--1"), None);
    assert_eq!(parse_num("infx"), None);
}

#[test]
fn unsigned_capacities_parse_exactly() {
    assert_eq!(parse_usize("128"), Some(128));
    assert_eq!(parse_usize("+5"), Some(5));
    assert_eq!(parse_usize("0"), Some(0));
    assert_eq!(parse_usize("-1"), None);
    assert_eq!(parse_usize(""), None);
    assert_eq!(parse_usize("1.5"), None);
    assert_eq!(parse_usize("99999999999999999999999999"), None);
}

#[test]
fn debug_lines_split_keyword_and_tokens() {
    let dl = DebugLine::from_str("`A 1 2").expect("sigil line");
    assert_eq!(dl.keyword, "A");
    assert_eq!(dl.tokens, vec!["1".to_string(), "2".to_string()]);
    let dl = DebugLine::from_str("  `SCOPE   X  ").expect("whitespace runs collapse");
    assert_eq!(dl.keyword, "SCOPE");
    assert_eq!(dl.tokens, vec!["X".to_string()]);
}

#[test]
fn lines_without_a_keyword_are_rejected() {
    assert_eq!(
        DebugLine::from_str("no sigil").unwrap_err(),
        DebugObjectError::InvalidFormat("no sigil".to_string())
    );
    assert!(DebugLine::from_str("").is_err());
    assert!(DebugLine::from_str("   ").is_err());
    assert!(DebugLine::from_str("`").is_err());
}
