use debugscope::num::Num;
use debugscope::registry::{DebugObject, DebugObjects};

fn dec(neg: bool, digits: Vec<u8>, exp: i64) -> Num {
    Num::Dec { neg, digits, exp }
}

fn scope_of<'a>(objs: &'a DebugObjects, name: &str) -> &'a debugscope::scope::Scope {
    match objs.get(name) {
        Some(DebugObject::Scope(s)) => s,
        None => panic!("no scope of that name"),
    }
}

const SCOPE_DECLARATION: &str = "`SCOPE MyScope SIZE 254 84 SAMPLES 128\r\n\
`MyScope 'Sawtooth' 0 63 64 10 %1111\r\n\
`MyScope 31\r\n\
`MyScope 32\r\n\
`MyScope 33\r\n\
`MyScope 34\r\n\
`MyScope 35\r\n\
`MyScope 36\r\n\
";

#[test]
fn instantiate_scope_through_debug_objects() {
    let mut debug_objects = DebugObjects::new();
    debug_objects.feed("`SCOPE MyScope SIZE 254 84 SAMPLES 128");
    debug_objects.feed("`MyScope 'Sawtooth' 0 63 64 10 %1111");
}

#[test]
fn instantiate_scope_configure_and_feed() {
    let mut debug_objects = DebugObjects::new();
    debug_objects.feed("`SCOPE MyScope SIZE 254 84 SAMPLES 128");
    for line in String::from(SCOPE_DECLARATION).split_terminator("\r\n") {
        debug_objects.feed(line);
    }
}

#[test]
fn sawtooth_history_is_kept_in_order() {
    let mut objs = DebugObjects::new();
    objs.feed("`SCOPE MyScope SIZE 254 84 SAMPLES 128");
    objs.feed("`MyScope 'Sawtooth' 0 63 64 10 %1111");
    for v in 31..=36 {
        objs.feed(&format!("`MyScope {}", v));
    }
    assert_eq!(objs.len(), 1);
    let scope = scope_of(&objs, "MyScope");
    assert_eq!(scope.name(), "MyScope");
    assert_eq!(scope.samples(), 128);
    assert_eq!(scope.signals_len(), 1);
    assert_eq!(scope.signal_name(0), "Sawtooth");
    let hist = scope.signal_history(0);
    assert_eq!(
        hist,
        vec![
            dec(false, vec![3, 1], 0),
            dec(false, vec![3, 2], 0),
            dec(false, vec![3, 3], 0),
            dec(false, vec![3, 4], 0),
            dec(false, vec![3, 5], 0),
            dec(false, vec![3, 6], 0),
        ]
    );
    let (min, max) = scope.signal_range(0);
    assert_eq!(min, dec(false, vec![], 0));
    assert_eq!(max, dec(false, vec![6, 3], 0));
}

#[test]
fn bare_scope_declaration_gets_defaults() {
    let mut objs = DebugObjects::new();
    objs.feed("`SCOPE A");
    let scope = scope_of(&objs, "A");
    assert_eq!(scope.name(), "A");
    assert_eq!(scope.samples(), 256);
    assert_eq!(scope.signals_len(), 0);
}

#[test]
fn extra_row_values_are_ignored() {
    let mut objs = DebugObjects::new();
    objs.feed("`SCOPE A");
    objs.feed("`A 'S' 0 63 64 10");
    objs.feed("`A 1, 2, 3");
    let scope = scope_of(&objs, "A");
    assert_eq!(scope.signals_len(), 1);
    assert_eq!(scope.signal_history(0), vec![dec(false, vec![1], 0)]);
}

#[test]
fn comma_joined_values_in_one_token_are_not_a_row() {
    // only one trailing comma per whitespace token is tolerated, so a
    // comma-joined list without spaces is no data row and is dropped
    let mut objs = DebugObjects::new();
    objs.feed("`SCOPE A");
    objs.feed("`A 'S' 0 63 64 10");
    objs.feed("`A 1,2,3");
    let scope = scope_of(&objs, "A");
    assert_eq!(scope.signals_len(), 1);
    assert_eq!(scope.signal_history(0), Vec::<Num>::new());
}

#[test]
fn undecodable_line_is_dropped() {
    let mut objs = DebugObjects::new();
    objs.feed("`SCOPE A");
    objs.feed("`A 'S' 0 63 64 10");
    objs.feed("`A 7");
    objs.feed("`A xyz");
    let scope = scope_of(&objs, "A");
    assert_eq!(scope.signals_len(), 1);
    assert_eq!(scope.signal_history(0), vec![dec(false, vec![7], 0)]);
}

#[test]
fn capacity_retains_one_less_than_declared() {
    let mut objs = DebugObjects::new();
    objs.feed("`SCOPE C SAMPLES 4");
    objs.feed("`C 'S' 0 100 64 10");
    for v in 1..=10 {
        objs.feed(&format!("`C {}", v));
    }
    let scope = scope_of(&objs, "C");
    let hist = scope.signal_history(0);
    assert_eq!(
        hist,
        vec![
            dec(false, vec![8], 0),
            dec(false, vec![9], 0),
            dec(false, vec![1, 0], 0),
        ]
    );
}

#[test]
fn values_are_clamped_into_the_declared_range() {
    let mut objs = DebugObjects::new();
    objs.feed("`SCOPE C");
    objs.feed("`C 'S' 0 63 64 10");
    objs.feed("`C 100");
    objs.feed("`C -5");
    objs.feed("`C 12.5");
    let scope = scope_of(&objs, "C");
    assert_eq!(
        scope.signal_history(0),
        vec![
            dec(false, vec![6, 3], 0),
            dec(false, vec![], 0),
            dec(false, vec![1, 2, 5], -1),
        ]
    );
}

#[test]
fn numeric_rows_never_declare_signals() {
    let mut objs = DebugObjects::new();
    objs.feed("`SCOPE D");
    objs.feed("`D 'S' 0 63 64 10");
    objs.feed("`D 1 2 3 4");
    objs.feed("`D 1 2 3 4 5 6");
    let scope = scope_of(&objs, "D");
    assert_eq!(scope.signals_len(), 1);
    assert_eq!(
        scope.signal_history(0),
        vec![dec(false, vec![1], 0), dec(false, vec![1], 0)]
    );
}

#[test]
fn redeclaring_a_scope_discards_its_signals() {
    let mut objs = DebugObjects::new();
    objs.feed("`SCOPE X SAMPLES 10");
    objs.feed("`X 'S' 0 63 64 10");
    assert_eq!(scope_of(&objs, "X").signals_len(), 1);
    objs.feed("`SCOPE X SAMPLES 10");
    assert_eq!(objs.len(), 1);
    assert_eq!(scope_of(&objs, "X").signals_len(), 0);
}

#[test]
fn unknown_keyword_is_dropped_without_creating() {
    let mut objs = DebugObjects::new();
    objs.feed("`WIDGET A 1 2");
    objs.feed("no sigil here");
    objs.feed("`SCOPE");
    assert_eq!(objs.len(), 0);
}

#[test]
fn rows_of_two_values_feed_two_signals_pairwise() {
    let mut objs = DebugObjects::new();
    objs.feed("`SCOPE P");
    objs.feed("`P 'a' 0 10 64 10");
    objs.feed("`P 'b' 0 10 64 10");
    objs.feed("`P 3, 4");
    let scope = scope_of(&objs, "P");
    assert_eq!(scope.signal_history(0), vec![dec(false, vec![3], 0)]);
    assert_eq!(scope.signal_history(1), vec![dec(false, vec![4], 0)]);
}

#[test]
fn short_row_leaves_later_signals_alone() {
    let mut objs = DebugObjects::new();
    objs.feed("`SCOPE P");
    objs.feed("`P 'a' 0 10 64 10");
    objs.feed("`P 'b' 0 10 64 10");
    objs.feed("`P 5");
    let scope = scope_of(&objs, "P");
    assert_eq!(scope.signal_history(0), vec![dec(false, vec![5], 0)]);
    assert_eq!(scope.signal_history(1), Vec::<Num>::new());
}
