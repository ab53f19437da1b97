//! Byte-level reading of the UTF-8 source around operators: char boundaries,
//! trimming of Unicode white space, and the search for an operator.
use vstd::prelude::*;
use crate::legend::{first_index_of, lemma_first_index_of};

verus! {

/// Where `&text[..i]` may cut UTF-8 text: at either end, or before a byte
/// that is not a continuation byte.
pub open spec fn is_char_boundary(text: Seq<u8>, i: int) -> bool {
    i == 0 || i == text.len() || (0 < i < text.len() && !(0x80 <= text[i] && text[i] < 0xC0))
}

/// `&text[from..to]` is defined: both ends lie in the text, in order, on
/// char boundaries.
pub open spec fn slice_ok(text: Seq<u8>, from: int, to: int) -> bool {
    &&& 0 <= from <= to <= text.len()
    &&& is_char_boundary(text, from)
    &&& is_char_boundary(text, to)
}

/// An ASCII white-space character: tab, line feed, vertical tab, form feed,
/// carriage return or space.
pub open spec fn is_ws1(b0: u8) -> bool {
    b0 == 0x20 || (0x09 <= b0 && b0 <= 0x0D)
}

/// The two-byte encodings of white space: U+0085 and U+00A0.
pub open spec fn is_ws2(b0: u8, b1: u8) -> bool {
    b0 == 0xC2 && (b1 == 0x85 || b1 == 0xA0)
}

/// The three-byte encodings of white space: U+1680, U+2000 to U+200A,
/// U+2028, U+2029, U+202F, U+205F and U+3000.
pub open spec fn is_ws3(b0: u8, b1: u8, b2: u8) -> bool {
    ||| (b0 == 0xE1 && b1 == 0x9A && b2 == 0x80)
    ||| (b0 == 0xE2 && b1 == 0x80 && ((0x80 <= b2 && b2 <= 0x8A) || b2 == 0xA8 || b2 == 0xA9
        || b2 == 0xAF))
    ||| (b0 == 0xE2 && b1 == 0x81 && b2 == 0x9F)
    ||| (b0 == 0xE3 && b1 == 0x80 && b2 == 0x80)
}

/// The byte length of the white-space character that `s` starts with, or 0.
pub open spec fn ws_head_len(s: Seq<u8>) -> nat {
    if s.len() >= 1 && is_ws1(s[0]) {
        1
    } else if s.len() >= 2 && is_ws2(s[0], s[1]) {
        2
    } else if s.len() >= 3 && is_ws3(s[0], s[1], s[2]) {
        3
    } else {
        0
    }
}

/// The byte length of the white-space character that `s` ends with, or 0.
pub open spec fn ws_tail_len(s: Seq<u8>) -> nat {
    let n = s.len() as int;
    if n >= 1 && is_ws1(s[n - 1]) {
        1
    } else if n >= 2 && is_ws2(s[n - 2], s[n - 1]) {
        2
    } else if n >= 3 && is_ws3(s[n - 3], s[n - 2], s[n - 1]) {
        3
    } else {
        0
    }
}

/// The byte length of the white space that `s` starts with.
pub open spec fn leading_ws(s: Seq<u8>) -> nat
    decreases s.len(),
{
    let k = ws_head_len(s);
    if k == 0 || k > s.len() {
        0
    } else {
        k + leading_ws(s.skip(k as int))
    }
}

/// The byte length of the white space that `s` ends with.
pub open spec fn trailing_ws(s: Seq<u8>) -> nat
    decreases s.len(),
{
    let k = ws_tail_len(s);
    if k == 0 || k > s.len() {
        0
    } else {
        k + trailing_ws(s.take(s.len() - k))
    }
}

/// `s` with white space removed from both ends, as `str::trim` leaves it.
pub open spec fn trimmed(s: Seq<u8>) -> Seq<u8> {
    let rest = s.skip(leading_ws(s) as int);
    rest.take(rest.len() - trailing_ws(rest))
}

/// The leading white space lies within `s`.
pub proof fn lemma_leading_ws_bound(s: Seq<u8>)
    ensures
        leading_ws(s) <= s.len(),
    decreases s.len(),
{
    let k = ws_head_len(s);
    if k != 0 && k <= s.len() {
        lemma_leading_ws_bound(s.skip(k as int));
    }
}

/// The trailing white space lies within `s`.
pub proof fn lemma_trailing_ws_bound(s: Seq<u8>)
    ensures
        trailing_ws(s) <= s.len(),
    decreases s.len(),
{
    let k = ws_tail_len(s);
    if k != 0 && k <= s.len() {
        lemma_trailing_ws_bound(s.take(s.len() - k));
    }
}

/// `s` holds `..` at index `j`.
pub open spec fn dot_dot_at(s: Seq<u8>, j: int) -> bool {
    0 <= j && j + 1 < s.len() && s[j] == 0x2Eu8 && s[j + 1] == 0x2Eu8
}

/// The index of the first `..` in `s`.
pub open spec fn find_dot_dot(s: Seq<u8>) -> Option<int>
    decreases s.len(),
{
    if s.len() < 2 {
        None
    } else {
        match find_dot_dot(s.drop_last()) {
            Some(i) => Some(i),
            None => if s[s.len() - 2] == 0x2Eu8 && s[s.len() - 1] == 0x2Eu8 {
                Some(s.len() - 2)
            } else {
                None
            },
        }
    }
}

/// `find_dot_dot` finds the earliest `..`, and finds nothing exactly when
/// `s` holds none.
pub proof fn lemma_find_dot_dot(s: Seq<u8>)
    ensures
        match find_dot_dot(s) {
            Some(i) => dot_dot_at(s, i) && forall|j: int| 0 <= j < i ==> !#[trigger] dot_dot_at(s, j),
            None => forall|j: int| !#[trigger] dot_dot_at(s, j),
        },
    decreases s.len(),
{
    if s.len() >= 2 {
        lemma_find_dot_dot(s.drop_last());
        assert forall|j: int| 0 <= j && j + 1 < s.len() - 1 implies dot_dot_at(s.drop_last(), j)
            == dot_dot_at(s, j) by {
            assert(s.drop_last()[j] == s[j]);
            assert(s.drop_last()[j + 1] == s[j + 1]);
        }
        assert(forall|j: int| j + 1 >= s.len() - 1 && j != s.len() - 2 ==> !dot_dot_at(s, j));
    }
}

/// The byte length of the white-space character at `text[from..to]`'s start.
fn ws_head_len_at(text: &[u8], from: usize, to: usize) -> (r: usize)
    requires
        from <= to <= text@.len(),
    ensures
        r == ws_head_len(text@.subrange(from as int, to as int)),
{
    let n = to - from;
    if n >= 1 {
        let b0 = text[from];
        if b0 == 0x20 || (0x09 <= b0 && b0 <= 0x0D) {
            return 1;
        }
    }
    if n >= 2 {
        let b0 = text[from];
        let b1 = text[from + 1];
        if b0 == 0xC2 && (b1 == 0x85 || b1 == 0xA0) {
            return 2;
        }
    }
    if n >= 3 {
        let b0 = text[from];
        let b1 = text[from + 1];
        let b2 = text[from + 2];
        if (b0 == 0xE1 && b1 == 0x9A && b2 == 0x80) || (b0 == 0xE2 && b1 == 0x80 && ((0x80 <= b2
            && b2 <= 0x8A) || b2 == 0xA8 || b2 == 0xA9 || b2 == 0xAF)) || (b0 == 0xE2 && b1 == 0x81
            && b2 == 0x9F) || (b0 == 0xE3 && b1 == 0x80 && b2 == 0x80) {
            return 3;
        }
    }
    0
}

/// The byte length of the white-space character at `text[from..to]`'s end.
fn ws_tail_len_at(text: &[u8], from: usize, to: usize) -> (r: usize)
    requires
        from <= to <= text@.len(),
    ensures
        r == ws_tail_len(text@.subrange(from as int, to as int)),
{
    let n = to - from;
    if n >= 1 {
        let b0 = text[to - 1];
        if b0 == 0x20 || (0x09 <= b0 && b0 <= 0x0D) {
            return 1;
        }
    }
    if n >= 2 {
        let b0 = text[to - 2];
        let b1 = text[to - 1];
        if b0 == 0xC2 && (b1 == 0x85 || b1 == 0xA0) {
            return 2;
        }
    }
    if n >= 3 {
        let b0 = text[to - 3];
        let b1 = text[to - 2];
        let b2 = text[to - 1];
        if (b0 == 0xE1 && b1 == 0x9A && b2 == 0x80) || (b0 == 0xE2 && b1 == 0x80 && ((0x80 <= b2
            && b2 <= 0x8A) || b2 == 0xA8 || b2 == 0xA9 || b2 == 0xAF)) || (b0 == 0xE2 && b1 == 0x81
            && b2 == 0x9F) || (b0 == 0xE3 && b1 == 0x80 && b2 == 0x80) {
            return 3;
        }
    }
    0
}

/// The byte length of the white space that `text[from..to]` starts with.
pub fn leading_ws_len(text: &[u8], from: usize, to: usize) -> (r: usize)
    requires
        from <= to <= text@.len(),
    ensures
        r == leading_ws(text@.subrange(from as int, to as int)),
{
    let mut i = from;
    while i < to
        invariant
            from <= i <= to <= text@.len(),
            leading_ws(text@.subrange(from as int, to as int)) == (i - from) + leading_ws(
                text@.subrange(i as int, to as int),
            ),
        decreases to - i,
    {
        let k = ws_head_len_at(text, i, to);
        if k == 0 {
            assert(leading_ws(text@.subrange(i as int, to as int)) == 0);
            return i - from;
        }
        assert(text@.subrange(i as int, to as int).skip(k as int) =~= text@.subrange(
            i + k,
            to as int,
        ));
        i = i + k;
    }
    proof {
        if i == to {
            assert(ws_head_len(text@.subrange(i as int, to as int)) == 0);
        }
    }
    i - from
}

/// The byte length of the white space that `text[from..to]` ends with.
pub fn trailing_ws_len(text: &[u8], from: usize, to: usize) -> (r: usize)
    requires
        from <= to <= text@.len(),
    ensures
        r == trailing_ws(text@.subrange(from as int, to as int)),
{
    let mut j = to;
    while j > from
        invariant
            from <= j <= to <= text@.len(),
            trailing_ws(text@.subrange(from as int, to as int)) == (to - j) + trailing_ws(
                text@.subrange(from as int, j as int),
            ),
        decreases j - from,
    {
        let k = ws_tail_len_at(text, from, j);
        if k == 0 {
            assert(trailing_ws(text@.subrange(from as int, j as int)) == 0);
            return to - j;
        }
        assert(text@.subrange(from as int, j as int).take(j - from - k) =~= text@.subrange(
            from as int,
            j - k,
        ));
        j = j - k;
    }
    proof {
        if j == from {
            assert(ws_tail_len(text@.subrange(from as int, j as int)) == 0);
        }
    }
    to - j
}

/// The index in `text[from..to]` of its first `..`.
pub fn find_dot_dot_in(text: &[u8], from: usize, to: usize) -> (r: Option<usize>)
    requires
        from <= to <= text@.len(),
    ensures
        match find_dot_dot(text@.subrange(from as int, to as int)) {
            Some(i) => r == Some(i as usize),
            None => r is None,
        },
{
    let ghost s = text@.subrange(from as int, to as int);
    proof {
        lemma_find_dot_dot(s);
    }
    let mut i = from;
    while to - i > 1
        invariant
            from <= i <= to <= text@.len(),
            s == text@.subrange(from as int, to as int),
            forall|j: int| 0 <= j < i - from ==> !#[trigger] dot_dot_at(s, j),
            match find_dot_dot(s) {
                Some(k) => dot_dot_at(s, k) && forall|j: int| 0 <= j < k ==> !#[trigger] dot_dot_at(s, j),
                None => forall|j: int| !#[trigger] dot_dot_at(s, j),
            },
        decreases to - i,
    {
        if text[i] == 0x2E && text[i + 1] == 0x2E {
            assert(dot_dot_at(s, i - from));
            return Some(i - from);
        }
        assert(!dot_dot_at(s, i - from));
        i = i + 1;
    }
    assert(forall|j: int| i - from <= j ==> !#[trigger] dot_dot_at(s, j));
    None
}

/// The index in `text[from..to]` of its first byte `needle`.
pub fn find_byte_in(text: &[u8], from: usize, to: usize, needle: u8) -> (r: Option<usize>)
    requires
        from <= to <= text@.len(),
    ensures
        match first_index_of(text@.subrange(from as int, to as int), needle) {
            Some(i) => r == Some(i as usize),
            None => r is None,
        },
{
    let ghost s = text@.subrange(from as int, to as int);
    proof {
        lemma_first_index_of(s, needle);
    }
    let mut i = from;
    while i < to
        invariant
            from <= i <= to <= text@.len(),
            s == text@.subrange(from as int, to as int),
            forall|j: int| 0 <= j < i - from ==> s[j] != needle,
            match first_index_of(s, needle) {
                Some(k) => 0 <= k < s.len() && s[k] == needle && forall|j: int|
                    0 <= j < k ==> s[j] != needle,
                None => forall|j: int| 0 <= j < s.len() ==> s[j] != needle,
            },
        decreases to - i,
    {
        if text[i] == needle {
            assert(s[i - from] == needle);
            return Some(i - from);
        }
        i = i + 1;
    }
    None
}

} // verus!
