//! Conversion from byte spans to protocol positions: zero-based lines and
//! columns counted in UTF-16 code units, as the Language Server Protocol uses
//! them by default.
use vstd::prelude::*;
use crate::ast::Span;
use vstd::string::StringSliceAdditionalSpecFns;

verus! {

/// A position in a text document: zero-based line and UTF-16 column.
#[derive(Clone, Copy, Debug, PartialEq, Eq, Structural)]
pub struct Position {
    pub line: u32,
    pub character: u32,
}

/// A range in a text document, from `start` up to `end`.
#[derive(Clone, Copy, Debug, PartialEq, Eq, Structural)]
pub struct Range {
    pub start: Position,
    pub end: Position,
}

/// The number of UTF-16 code units that a byte of UTF-8 contributes: none
/// for a continuation byte, two for the first byte of a four-byte sequence
/// (a surrogate pair), one for any other byte.
pub open spec fn utf16_units(b: u8) -> int {
    if 0x80 <= b && b < 0xC0 {
        0
    } else if b >= 0xF0 {
        2
    } else {
        1
    }
}

/// The line and column reached after reading `bytes` from the start of a
/// document: a line feed starts a new line at column 0.
pub open spec fn position_after(bytes: Seq<u8>) -> (int, int)
    decreases bytes.len(),
{
    if bytes.len() == 0 {
        (0, 0)
    } else {
        let (l, c) = position_after(bytes.drop_last());
        if bytes.last() == 10u8 {
            (l + 1, 0)
        } else {
            (l, c + utf16_units(bytes.last()))
        }
    }
}

/// The offset `offset` held to the end of `text`.
pub open spec fn clamp_offset(text: Seq<u8>, offset: int) -> int {
    if offset < text.len() {
        offset
    } else {
        text.len() as int
    }
}

/// The position of byte offset `offset` in `text`; an offset past the end
/// stands for the end of the text.
pub open spec fn position_at(text: Seq<u8>, offset: int) -> Position {
    let p = position_after(text.take(clamp_offset(text, offset)));
    Position { line: p.0 as u32, character: p.1 as u32 }
}

/// The range that `span` covers in `text`.
pub open spec fn span_range(text: Seq<u8>, span: Span) -> Range {
    Range {
        start: position_at(text, span.byte_offset as int),
        end: position_at(text, span.byte_offset + span.byte_length),
    }
}

/// Converts byte offsets of one document into protocol positions.
pub struct LineIndex {
    text: Vec<u8>,
}

impl LineIndex {
    /// The UTF-8 bytes of the document.
    pub closed spec fn text(&self) -> Seq<u8> {
        self.text@
    }

    pub fn new(source: &str) -> (r: Self)
        ensures
            r.text() == source.spec_bytes(),
    {
        let bytes = source.as_bytes();
        let mut text: Vec<u8> = Vec::new();
        let mut i: usize = 0;
        while i < bytes.len()
            invariant
                i <= bytes@.len(),
                text@ == bytes@.take(i as int),
            decreases bytes@.len() - i,
        {
            text.push(bytes[i]);
            i = i + 1;
            assert(text@ =~= bytes@.take(i as int));
        }
        assert(bytes@.take(i as int) =~= bytes@);
        LineIndex { text }
    }

    /// The range of `span`: its start and end offsets as positions, each held
    /// to the end of the document.
    pub fn span_to_range(&self, span: Span) -> (r: Range)
        ensures
            r == span_range(self.text(), span),
    {
        let len = self.text.len();
        let start_off: u64 = span.byte_offset as u64;
        let end_off: u64 = span.byte_offset as u64 + span.byte_length as u64;
        let start_at: usize = if start_off < len as u64 { start_off as usize } else { len };
        let end_at: usize = if end_off < len as u64 { end_off as usize } else { len };
        let mut line: u64 = 0;
        let mut col: u64 = 0;
        let mut start = Position { line: 0, character: 0 };
        let mut i: usize = 0;
        proof {
            assert(self.text@.take(0) =~= Seq::<u8>::empty());
        }
        while i < end_at || i < start_at
            invariant
                i <= len,
                len == self.text@.len(),
                start_at <= len,
                end_at <= len,
                start_at as int == clamp_offset(self.text@, start_off as int),
                end_at as int == clamp_offset(self.text@, end_off as int),
                end_off <= 0x2_0000_0000,
                start_at <= start_off,
                start_off <= 0xffff_ffff,
                end_at <= end_off,
                i <= start_at || i <= end_at,
                (line as int, col as int) == position_after(self.text@.take(i as int)),
                line <= i,
                col <= 2 * i,
                i <= 0x2_0000_0000,
                i >= start_at ==> start == position_at(self.text@, start_off as int),
            decreases len - i,
        {
            let b = self.text[i];
            assert(self.text@.take(i + 1).drop_last() =~= self.text@.take(i as int));
            assert(self.text@.take(i + 1).last() == b);
            if b == 10u8 {
                line = line + 1;
                col = 0;
            } else if 0x80u8 <= b && b < 0xC0u8 {
            } else if b >= 0xF0u8 {
                col = col + 2;
            } else {
                col = col + 1;
            }
            i = i + 1;
            if i == start_at {
                start = Position {
                    line: #[verifier::truncate] (line as u32),
                    character: #[verifier::truncate] (col as u32),
                };
            }
        }
        let end = Position {
            line: #[verifier::truncate] (line as u32),
            character: #[verifier::truncate] (col as u32),
        };
        Range { start, end }
    }
}

} // verus!
