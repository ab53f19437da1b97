use lisette_highlight::ast::Span;
use lisette_highlight::builder::{SemanticToken, SemanticTokensBuilder};
use lisette_highlight::legend::{TokenModifier, TokenModifierMap, TokenType, TokenTypeMap};
use lisette_highlight::position::{LineIndex, Position, Range};

fn token(delta_line: u32, delta_start: u32, length: u32, token_type: u32, modifiers: u32) -> SemanticToken {
    SemanticToken { delta_line, delta_start, length, token_type, token_modifiers_bitset: modifiers }
}

#[test]
fn type_map_gives_first_legend_index() {
    let map = TokenTypeMap::new(vec![TokenType::Namespace, TokenType::Struct, TokenType::Struct]);
    assert_eq!(map.get(TokenType::Namespace), 0);
    assert_eq!(map.get(TokenType::Struct), 1);
}

#[test]
fn type_map_gives_zero_outside_the_legend() {
    let map = TokenTypeMap::new(vec![TokenType::Struct, TokenType::Enum]);
    assert_eq!(map.get(TokenType::Decorator), 0);
    let empty = TokenTypeMap::new(Vec::new());
    assert_eq!(empty.get(TokenType::Struct), 0);
}

#[test]
fn modifier_map_sets_one_bit_per_modifier() {
    let map = TokenModifierMap::new(vec![
        TokenModifier::Declaration,
        TokenModifier::Readonly,
        TokenModifier::Static,
        TokenModifier::Async,
        TokenModifier::Modification,
        TokenModifier::Documentation,
    ]);
    assert_eq!(map.encode(&[]), 0);
    assert_eq!(map.encode(&[TokenModifier::Declaration]), 1);
    assert_eq!(map.encode(&[TokenModifier::Readonly, TokenModifier::Declaration]), 3);
    assert_eq!(map.encode(&[TokenModifier::Documentation]), 32);
    assert_eq!(map.encode(&[TokenModifier::Static, TokenModifier::Static]), 4);
    assert_eq!(map.encode(&[TokenModifier::Deprecated, TokenModifier::Async]), 8);
}

#[test]
fn builder_encodes_relative_positions() {
    let source = "ab cd\n  ef gh";
    let index = LineIndex::new(source);
    let mut builder = SemanticTokensBuilder::new();
    builder.push(&index, &Span::new(0, 0, 2), 1, 0);
    builder.push(&index, &Span::new(0, 3, 2), 2, 1);
    builder.push(&index, &Span::new(0, 8, 2), 3, 2);
    builder.push(&index, &Span::new(0, 11, 2), 4, 3);
    let tokens = builder.build();
    assert!(tokens.result_id.is_none());
    assert_eq!(
        tokens.data,
        vec![token(0, 0, 2, 1, 0), token(0, 3, 2, 2, 1), token(1, 2, 2, 3, 2), token(0, 3, 2, 4, 3)]
    );
}

#[test]
fn builder_skips_spans_without_width() {
    let source = "abc\ndef";
    let index = LineIndex::new(source);
    let mut builder = SemanticTokensBuilder::new();
    builder.push(&index, &Span::new(0, 1, 0), 1, 0);
    // From column 2 of line 0 to column 1 of line 1: no width on the first line.
    builder.push(&index, &Span::new(0, 2, 3), 1, 0);
    // Past the end of the document.
    builder.push(&index, &Span::new(0, 50, 4), 1, 0);
    assert!(builder.build().data.is_empty());
}

#[test]
fn builder_puts_tokens_in_document_order() {
    let source = "abcdef\nghij";
    let index = LineIndex::new(source);
    let mut builder = SemanticTokensBuilder::new();
    builder.push(&index, &Span::new(0, 8, 2), 1, 0);
    builder.push(&index, &Span::new(0, 4, 1), 2, 0);
    builder.push(&index, &Span::new(0, 2, 1), 3, 0);
    builder.push(&index, &Span::new(0, 4, 2), 4, 0);
    assert_eq!(
        builder.build().data,
        vec![token(0, 2, 1, 3, 0), token(0, 2, 1, 2, 0), token(0, 0, 2, 4, 0), token(1, 1, 2, 1, 0)]
    );
}

#[test]
fn builder_skips_dummy_spans() {
    let index = LineIndex::new("abc def");
    let mut builder = SemanticTokensBuilder::new();
    let mut dummy = Span::dummy();
    assert!(dummy.is_dummy());
    dummy.byte_length = 3;
    builder.push(&index, &dummy, 1, 0);
    builder.push(&index, &Span::new(0, 4, 3), 2, 0);
    assert_eq!(builder.build().data, vec![token(0, 4, 3, 2, 0)]);
    assert!(!Span::new(0, 4, 3).is_dummy());
}

/// Reads relative tokens back to absolute lines and starts.
fn decode(data: &[SemanticToken]) -> Vec<(u32, u32, u32)> {
    let mut line = 0;
    let mut start = 0;
    let mut out = Vec::new();
    for t in data {
        if t.delta_line == 0 {
            start += t.delta_start;
        } else {
            line += t.delta_line;
            start = t.delta_start;
        }
        out.push((line, start, t.length));
    }
    out
}

#[test]
fn tokens_in_document_order_decode_to_their_places() {
    let source = "let a = 1\n  let bb = 22\n\nx";
    let index = LineIndex::new(source);
    let spans = [(0u32, 3u32), (4, 1), (8, 1), (12, 3), (16, 2), (21, 2), (25, 1)];
    let mut builder = SemanticTokensBuilder::new();
    for (offset, length) in spans {
        builder.push(&index, &Span::new(0, offset, length), 0, 0);
    }
    let data = builder.build().data;
    assert_eq!(
        decode(&data),
        vec![(0, 0, 3), (0, 4, 1), (0, 8, 1), (1, 2, 3), (1, 6, 2), (1, 11, 2), (3, 0, 1)]
    );
}

#[test]
fn positions_count_utf16_units_from_the_line_start() {
    // "aé😀b": 'é' is two bytes and one unit, '😀' four bytes and two units.
    let source = "aé😀b\nxy";
    let index = LineIndex::new(source);
    let r = index.span_to_range(Span::new(0, 3, 5));
    assert_eq!(
        r,
        Range { start: Position { line: 0, character: 2 }, end: Position { line: 0, character: 5 } }
    );
    let r = index.span_to_range(Span::new(0, 9, 2));
    assert_eq!(
        r,
        Range { start: Position { line: 1, character: 0 }, end: Position { line: 1, character: 2 } }
    );
}

#[test]
fn positions_past_the_end_stand_for_the_end() {
    let index = LineIndex::new("ab\nc");
    let r = index.span_to_range(Span::new(0, 3, 100));
    assert_eq!(
        r,
        Range { start: Position { line: 1, character: 0 }, end: Position { line: 1, character: 1 } }
    );
    let r = index.span_to_range(Span::new(0, u32::MAX, u32::MAX));
    assert_eq!(r.start, Position { line: 1, character: 1 });
    assert_eq!(r.end, Position { line: 1, character: 1 });
}

#[test]
fn advertised_legend_order() {
    let types = lisette_highlight::highlight::token_types();
    assert_eq!(types.len(), 16);
    assert!(types[0] == TokenType::Type);
    assert!(types[3] == TokenType::Struct);
    assert!(types[6] == TokenType::Method);
    assert!(types[8] == TokenType::Parameter);
    assert!(types[12] == TokenType::Comment);
    assert!(types[13] == TokenType::StringLit);
    assert!(types[15] == TokenType::Operator);
    let modifiers = lisette_highlight::highlight::token_modifiers();
    assert_eq!(modifiers.len(), 6);
    assert!(modifiers[0] == TokenModifier::Declaration);
    assert!(modifiers[1] == TokenModifier::Readonly);
    assert!(modifiers[5] == TokenModifier::Documentation);
}

#[test]
fn tokens_pushed_out_of_order_decode_to_their_places() {
    let source = "let a = 1\n  let bb = 22\n\nx";
    let index = LineIndex::new(source);
    let spans = [(25u32, 1u32), (12, 3), (0, 3), (21, 2), (4, 1), (16, 2), (8, 1)];
    let mut builder = SemanticTokensBuilder::new();
    for (offset, length) in spans {
        builder.push(&index, &Span::new(0, offset, length), 0, 0);
    }
    let data = builder.build().data;
    assert_eq!(
        decode(&data),
        vec![(0, 0, 3), (0, 4, 1), (0, 8, 1), (1, 2, 3), (1, 6, 2), (1, 11, 2), (3, 0, 1)]
    );
}
