use debugscope::color::{Color, Legend};
use debugscope::parser::{
    color_value_parser, dotsize_parser, identifier_parser, legend_and_color_parser, legend_parser,
    linesize_parser, pos_parser, rate_parser, samples_parser, scope_definition_parser,
    scope_signal_data_parser, scope_signal_declaration_parser, scope_symbol, size_parser,
    string_parser, symbol_parser, textsize_parser, title_parser, DebugInstruction,
    DebugInstructionAtom,
};

fn yellow() -> Color {
    Color { r: 0xFF, g: 0xFF, b: 0 }
}

#[test]
fn parse_color_value() {
    let (_rest, result) = color_value_parser(b"YELLOW", 0).unwrap();
    assert_eq!(result, yellow());
    let (_rest, result) = color_value_parser(b"GRAY 1", 0).unwrap();
    assert_eq!(result, Color { r: 30, g: 30, b: 30 });
    let (_rest, result) = color_value_parser(b"GRAY 10", 0).unwrap();
    assert_eq!(result, Color { r: 255, g: 255, b: 255 });
}

#[test]
fn parse_scope_configurations() {
    let (_rest, result) = title_parser(b"TITLE  'FooBarBaz'", 0).unwrap();
    assert_eq!(result, DebugInstructionAtom::Title("FooBarBaz".to_string()));
    let (_rest, result) = pos_parser(b"POS   100   200", 0).unwrap();
    assert_eq!(result, DebugInstructionAtom::Pos(100, 200));
    let (_rest, result) = size_parser(b"SIZE   100   200", 0).unwrap();
    assert_eq!(result, DebugInstructionAtom::Size(100, 200));
    let (_rest, result) = samples_parser(b"SAMPLES  128", 0).unwrap();
    assert_eq!(result, DebugInstructionAtom::Samples(128));
    let (_rest, result) = rate_parser(b"RATE  128", 0).unwrap();
    assert_eq!(result, DebugInstructionAtom::Rate(128));
    let (_rest, result) = dotsize_parser(b"DOTSIZE  12", 0).unwrap();
    assert_eq!(result, DebugInstructionAtom::DotSize(12));
    let (_rest, result) = linesize_parser(b"LINESIZE  12", 0).unwrap();
    assert_eq!(result, DebugInstructionAtom::LineSize(12));
    let (_rest, result) = textsize_parser(b"TEXTSIZE  12", 0).unwrap();
    assert_eq!(result, DebugInstructionAtom::TextSize(12));

    let (_rest, result) = debugscope::parser::color_parser(b"COLOR  YELLOW", 0).unwrap();
    assert_eq!(
        result,
        DebugInstructionAtom::Color { background: yellow(), grid: None }
    );
    let (_rest, result) = debugscope::parser::color_parser(b"COLOR  YELLOW   GREEN", 0).unwrap();
    assert_eq!(
        result,
        DebugInstructionAtom::Color {
            background: yellow(),
            grid: Some(Color { r: 0, g: 0x80, b: 0 })
        }
    );
}

#[test]
fn parse_signal_legend() {
    let (_rest, result) = legend_parser(b"%1010", 0).unwrap();
    assert_eq!(
        result,
        Legend { max: true, min: false, max_line: true, min_line: false }
    );
}

#[test]
fn parse_symbols() {
    let (_rest, result) = symbol_parser(b"`SpaceSignal", 0).unwrap();
    assert_eq!(
        result,
        DebugInstructionAtom::Symbol { value: "SpaceSignal".to_string() }
    );
    let rest = scope_symbol(b"`SCOPE", 0).unwrap();
    assert_eq!(rest, b"`SCOPE".len());
}

#[test]
fn parse_string() {
    let (_rest, result) = string_parser(b"'String'", 0).unwrap();
    assert_eq!(
        result,
        DebugInstructionAtom::String { value: "String".to_string() }
    );
    let (_rest, result) = string_parser(b"'String with Space'", 0).unwrap();
    assert_eq!(
        result,
        DebugInstructionAtom::String { value: "String with Space".to_string() }
    );
    let (_rest, result) = string_parser(b"'String_with_underscores'", 0).unwrap();
    assert_eq!(
        result,
        DebugInstructionAtom::String { value: "String_with_underscores".to_string() }
    );
}

#[test]
fn parse_identifier() {
    let (_rest, result) = identifier_parser(b"Identifier", 0).unwrap();
    assert_eq!(
        result,
        DebugInstructionAtom::Identifier { value: "Identifier".to_string() }
    );
}

#[test]
fn parse_scope_declaration() {
    let (_rest, result) =
        scope_definition_parser(b"`SCOPE MyScope SIZE 254 84 SAMPLES 128", 0).unwrap();
    match result {
        DebugInstruction::SCOPE { name, configurations: _ } => {
            assert!(name == "MyScope".to_string());
        }
        _ => {
            assert!(false);
        }
    }
}

#[test]
fn numerals_with_underscores_are_rejected() {
    assert!(scope_signal_data_parser(b"1_0", 0).is_none());
    assert!(samples_parser(b"SAMPLES 1_2", 0).is_none());
}

#[test]
fn gray_levels_beyond_the_ramp_wrap_to_the_low_byte() {
    let (_rest, result) = color_value_parser(b"GRAY 11", 0).unwrap();
    assert_eq!(result, Color { r: 24, g: 24, b: 24 });
}

#[test]
fn scope_declaration_keeps_no_configurations_after_greedy_whitespace() {
    // the separator consumes the whitespace run whole, so the
    // whitespace-preceded configuration list that follows is always empty
    let (rest, result) =
        scope_definition_parser(b"`SCOPE MyScope SIZE 254 84 SAMPLES 128", 0).unwrap();
    match result {
        DebugInstruction::SCOPE { name, configurations } => {
            assert_eq!(name, "MyScope");
            assert!(configurations.is_empty());
        }
        _ => panic!("not a scope declaration"),
    }
    assert_eq!(rest, "`SCOPE MyScope ".len());
}

#[test]
fn identifiers_stop_at_the_first_foreign_byte() {
    let (rest, result) = identifier_parser(b"Name rest", 0).unwrap();
    assert_eq!(rest, 4);
    assert_eq!(result, DebugInstructionAtom::Identifier { value: "Name".to_string() });
    assert!(identifier_parser(b" Name", 0).is_none());
}

#[test]
fn parse_scope_signal_data() {
    let (_rest, result) = scope_signal_data_parser(b"1, 2,  3, 4,5", 0).unwrap();
    assert_eq!(result, vec![1, 2, 3, 4, 5]);
}

#[test]
fn parse_scope_signal_definition() {
    let (_rest, (legend, color)) = legend_and_color_parser(b"%1111 YELLOW", 0).unwrap();
    assert_eq!(color, yellow());
    assert_eq!(
        legend,
        Some(Legend { max: true, min: true, max_line: true, min_line: true })
    );

    let (_rest, (legend, color)) = legend_and_color_parser(b"YELLOW", 0).unwrap();
    assert_eq!(color, yellow());
    assert_eq!(legend, None);

    let (_rest, result) = scope_signal_declaration_parser(b"'Sawtooth'", 0).unwrap();
    match result {
        DebugInstruction::SignalDefinition {
            name,
            min: _,
            max: _,
            y_base: _,
            y_size: _,
            legend: _,
            color: _,
        } => {
            assert_eq!(name, "Sawtooth".to_string());
        }
        _ => {
            assert!(false);
        }
    }

    let (_rest, result) = scope_signal_declaration_parser(b"'Sawtooth' 10 20 30 40 YELLOW", 0)
        .unwrap();
    match result {
        DebugInstruction::SignalDefinition { name, min, max, y_size, y_base, legend: _, color } => {
            assert_eq!(name, "Sawtooth".to_string());
            assert_eq!(min, Some(10));
            assert_eq!(max, Some(20));
            assert_eq!(y_size, Some(30));
            assert_eq!(y_base, Some(40));
            assert_eq!(color, Some(yellow()));
        }
        _ => {
            assert!(false);
        }
    }

    let (_rest, result) =
        scope_signal_declaration_parser(b"'Sawtooth' 10 20 30 40 %1111 YELLOW", 0).unwrap();
    match result {
        DebugInstruction::SignalDefinition { name, min, max, y_size, y_base, legend, color } => {
            assert_eq!(name, "Sawtooth".to_string());
            assert_eq!(min, Some(10));
            assert_eq!(max, Some(20));
            assert_eq!(y_size, Some(30));
            assert_eq!(y_base, Some(40));
            assert_eq!(color, Some(yellow()));
            assert_eq!(
                legend,
                Some(Legend { max: true, min: true, max_line: true, min_line: true })
            );
        }
        _ => {
            assert!(false);
        }
    }
}
