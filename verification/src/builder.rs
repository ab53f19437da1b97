//! The relative token encoding of the Language Server Protocol: each token
//! carries its line as a difference from the line of the token before it,
//! and its start column as a difference from that token's start where both
//! share a line.
use vstd::prelude::*;
use crate::ast::Span;
use crate::position::{LineIndex, span_range};

verus! {

/// One encoded token, as the protocol transmits it.
#[derive(Clone, Copy, Debug, PartialEq, Eq, Structural)]
pub struct SemanticToken {
    pub delta_line: u32,
    pub delta_start: u32,
    pub length: u32,
    pub token_type: u32,
    pub token_modifiers_bitset: u32,
}

/// The encoded tokens of one document.
pub struct SemanticTokens {
    pub result_id: Option<String>,
    pub data: Vec<SemanticToken>,
}

/// A token at its absolute place: line and start column of the document.
#[derive(Clone, Copy, Debug, PartialEq, Eq, Structural)]
pub struct AbsoluteToken {
    pub line: u32,
    pub start: u32,
    pub length: u32,
    pub token_type: u32,
    pub token_modifiers_bitset: u32,
}

/// A request to highlight `span` as `token_type` with `modifiers`.
#[derive(Clone, Copy, Debug, PartialEq, Eq, Structural)]
pub struct Mark {
    pub span: Span,
    pub token_type: u32,
    pub modifiers: u32,
}

/// The line and start of the last token of `s`, or line 0, column 0 before
/// the first token.
pub open spec fn prev_place(s: Seq<AbsoluteToken>) -> (u32, u32) {
    if s.len() == 0 {
        (0, 0)
    } else {
        (s.last().line, s.last().start)
    }
}

/// The encoding of `t` after a token that starts at `prev`.
pub open spec fn delta_of(prev: (u32, u32), t: AbsoluteToken) -> SemanticToken {
    let delta_line = t.line.saturating_sub(prev.0);
    SemanticToken {
        delta_line,
        delta_start: if delta_line == 0 {
            t.start.saturating_sub(prev.1)
        } else {
            t.start
        },
        length: t.length,
        token_type: t.token_type,
        token_modifiers_bitset: t.token_modifiers_bitset,
    }
}

/// The relative encoding of a sequence of absolute tokens.
pub open spec fn encode(s: Seq<AbsoluteToken>) -> Seq<SemanticToken>
    decreases s.len(),
{
    if s.len() == 0 {
        Seq::empty()
    } else {
        encode(s.drop_last()).push(delta_of(prev_place(s.drop_last()), s.last()))
    }
}

/// The absolute token that a mark becomes in `text`, or none where its span
/// is a dummy or its range has no width on its first line.
pub open spec fn mark_token(text: Seq<u8>, m: Mark) -> Option<AbsoluteToken> {
    let range = span_range(text, m.span);
    let length = range.end.character.saturating_sub(range.start.character);
    if m.span.dummy || length == 0 {
        None
    } else {
        Some(
            AbsoluteToken {
                line: range.start.line,
                start: range.start.character,
                length,
                token_type: m.token_type,
                token_modifiers_bitset: m.modifiers,
            },
        )
    }
}

/// The tokens that a sequence of marks becomes in `text`, in order.
#[verifier::opaque]
pub open spec fn mark_tokens(text: Seq<u8>, ms: Seq<Mark>) -> Seq<AbsoluteToken>
    decreases ms.len(),
{
    if ms.len() == 0 {
        Seq::empty()
    } else {
        match mark_token(text, ms.last()) {
            Some(t) => mark_tokens(text, ms.drop_last()).push(t),
            None => mark_tokens(text, ms.drop_last()),
        }
    }
}

/// The tokens of two runs of marks are those of each run, in turn.
pub broadcast proof fn lemma_mark_tokens_concat(text: Seq<u8>, a: Seq<Mark>, b: Seq<Mark>)
    ensures
        #[trigger] mark_tokens(text, a + b) == mark_tokens(text, a) + mark_tokens(text, b),
    decreases b.len(),
{
    reveal(mark_tokens);
    if b.len() == 0 {
        assert(a + b =~= a);
        assert(mark_tokens(text, a) + mark_tokens(text, b) =~= mark_tokens(text, a));
    } else {
        lemma_mark_tokens_concat(text, a, b.drop_last());
        assert((a + b).drop_last() =~= a + b.drop_last());
        assert((a + b).last() == b.last());
        match mark_token(text, b.last()) {
            Some(t) => {
                assert(mark_tokens(text, a) + mark_tokens(text, b) =~= (mark_tokens(text, a)
                    + mark_tokens(text, b.drop_last())).push(t));
            },
            None => {},
        }
    }
}

/// The first token starts no later in the document than the second.
pub open spec fn place_le(a: AbsoluteToken, b: AbsoluteToken) -> bool {
    a.line < b.line || (a.line == b.line && a.start <= b.start)
}

/// `t` inserted into `s` after the tokens that start no later than it, scanning
/// from the end: into a sequence in document order, in its place.
pub open spec fn insert_by_place(s: Seq<AbsoluteToken>, t: AbsoluteToken) -> Seq<AbsoluteToken>
    decreases s.len(),
{
    if s.len() == 0 {
        seq![t]
    } else if place_le(s.last(), t) {
        s.push(t)
    } else {
        insert_by_place(s.drop_last(), t).push(s.last())
    }
}

/// `s` in document order; tokens at the same place keep their order.
pub open spec fn sort_by_place(s: Seq<AbsoluteToken>) -> Seq<AbsoluteToken>
    decreases s.len(),
{
    if s.len() == 0 {
        Seq::empty()
    } else {
        insert_by_place(sort_by_place(s.drop_last()), s.last())
    }
}

fn place_before(a: &AbsoluteToken, b: &AbsoluteToken) -> (r: bool)
    ensures
        r == place_le(*a, *b),
{
    a.line < b.line || (a.line == b.line && a.start <= b.start)
}

/// Inserts `t` into `v` as `insert_by_place` does.
fn insert_in_place(v: &mut Vec<AbsoluteToken>, t: AbsoluteToken)
    ensures
        final(v)@ == insert_by_place(old(v)@, t),
{
    let ghost s = v@;
    let mut k: usize = v.len();
    let mut found = false;
    assert(s.take(k as int) =~= s);
    assert(s.skip(k as int) =~= Seq::<AbsoluteToken>::empty());
    while k > 0 && !found
        invariant
            v@ == s,
            k <= s.len(),
            insert_by_place(s, t) == insert_by_place(s.take(k as int), t) + s.skip(k as int),
            found ==> k > 0 && place_le(s[k - 1], t),
        decreases 2 * k + if found { 0int } else { 1int },
    {
        if place_before(&v[k - 1], &t) {
            found = true;
        } else {
            let ghost pre = s.take(k as int);
            assert(pre.drop_last() =~= s.take(k - 1));
            assert(pre.last() == s[k - 1]);
            assert(insert_by_place(pre, t) == insert_by_place(s.take(k - 1), t).push(s[k - 1]));
            assert(insert_by_place(s.take(k - 1), t).push(s[k - 1]) + s.skip(k as int)
                =~= insert_by_place(s.take(k - 1), t) + s.skip(k - 1));
            k = k - 1;
        }
    }
    if k == 0 {
        assert(s.take(0) =~= Seq::<AbsoluteToken>::empty());
    } else {
        let ghost pre = s.take(k as int);
        assert(pre.last() == s[k - 1]);
    }
    v.insert(k, t);
    assert(v@ =~= insert_by_place(s.take(k as int), t) + s.skip(k as int));
}

/// Accumulates the tokens of one document.
pub struct SemanticTokensBuilder {
    tokens: Vec<AbsoluteToken>,
}

impl View for SemanticTokensBuilder {
    type V = Seq<AbsoluteToken>;

    /// The tokens accepted so far, at their absolute places, in the order in
    /// which they were pushed.
    closed spec fn view(&self) -> Seq<AbsoluteToken> {
        self.tokens@
    }
}

impl SemanticTokensBuilder {
    pub fn new() -> (r: Self)
        ensures
            r@ == Seq::<AbsoluteToken>::empty(),
    {
        Self { tokens: Vec::new() }
    }

    /// Adds a token for `span`, unless it is a dummy or its range has no
    /// width on its first line.
    pub fn push(
        &mut self,
        line_index: &LineIndex,
        span: &Span,
        token_type: u32,
        token_modifiers_bitset: u32,
    )
        ensures
            final(self)@ == old(self)@ + mark_tokens(
                line_index.text(),
                seq![Mark { span: *span, token_type, modifiers: token_modifiers_bitset }],
            ),
    {
        let ghost m = Mark { span: *span, token_type, modifiers: token_modifiers_bitset };
        proof {
            reveal(mark_tokens);
            let ms = seq![m];
            assert(ms.drop_last() =~= Seq::<Mark>::empty());
            assert(ms.last() == m);
            assert(mark_tokens(line_index.text(), ms.drop_last()) == Seq::<AbsoluteToken>::empty());
        }
        if span.is_dummy() {
            assert(mark_token(line_index.text(), m) is None);
            assert(self@ + Seq::<AbsoluteToken>::empty() =~= self@);
            return;
        }
        let range = line_index.span_to_range(*span);
        let line = range.start.line;
        let start = range.start.character;
        let length = range.end.character.saturating_sub(range.start.character);
        assert(range == span_range(line_index.text(), *span));
        if length == 0 {
            assert(mark_token(line_index.text(), m) is None);
            assert(self@ + Seq::<AbsoluteToken>::empty() =~= self@);
            return;
        }
        let t = AbsoluteToken { line, start, length, token_type, token_modifiers_bitset };
        let ghost before = self@;
        self.tokens.push(t);
        proof {
            assert(mark_token(line_index.text(), m) == Some(t));
            assert(before + seq![t] =~= before.push(t));
        }
    }

    /// The accepted tokens in document order, relatively encoded, with no
    /// result id.
    pub fn build(self) -> (r: SemanticTokens)
        ensures
            r.result_id is None,
            r.data@ == encode(sort_by_place(self@)),
    {
        let tokens = &self.tokens;
        let mut sorted: Vec<AbsoluteToken> = Vec::new();
        let mut i: usize = 0;
        assert(tokens@.take(0) =~= Seq::<AbsoluteToken>::empty());
        while i < tokens.len()
            invariant
                i <= tokens@.len(),
                sorted@ == sort_by_place(tokens@.take(i as int)),
            decreases tokens@.len() - i,
        {
            assert(tokens@.take(i + 1).drop_last() =~= tokens@.take(i as int));
            assert(tokens@.take(i + 1).last() == tokens@[i as int]);
            insert_in_place(&mut sorted, tokens[i]);
            i = i + 1;
        }
        assert(tokens@.take(i as int) =~= tokens@);
        let ghost ordered = sorted@;
        let mut data: Vec<SemanticToken> = Vec::new();
        let mut prev_line: u32 = 0;
        let mut prev_start: u32 = 0;
        let mut j: usize = 0;
        assert(ordered.take(0) =~= Seq::<AbsoluteToken>::empty());
        while j < sorted.len()
            invariant
                sorted@ == ordered,
                j <= ordered.len(),
                data@ == encode(ordered.take(j as int)),
                (prev_line, prev_start) == prev_place(ordered.take(j as int)),
            decreases ordered.len() - j,
        {
            let t = sorted[j];
            assert(ordered.take(j + 1).drop_last() =~= ordered.take(j as int));
            assert(ordered.take(j + 1).last() == t);
            let delta_line = t.line.saturating_sub(prev_line);
            let delta_start = if delta_line == 0 {
                t.start.saturating_sub(prev_start)
            } else {
                t.start
            };
            data.push(
                SemanticToken {
                    delta_line,
                    delta_start,
                    length: t.length,
                    token_type: t.token_type,
                    token_modifiers_bitset: t.token_modifiers_bitset,
                },
            );
            prev_line = t.line;
            prev_start = t.start;
            j = j + 1;
        }
        assert(ordered.take(j as int) =~= ordered);
        SemanticTokens { result_id: None, data }
    }
}

} // verus!

verus! {

/// The absolute tokens that a relative encoding stands for: each line is the
/// previous line plus the delta, and each start on an unchanged line is the
/// previous start plus the delta.
pub open spec fn decode(data: Seq<SemanticToken>) -> Seq<AbsoluteToken>
    decreases data.len(),
{
    if data.len() == 0 {
        Seq::empty()
    } else {
        let prev = decode(data.drop_last());
        let (pl, ps) = prev_place(prev);
        let d = data.last();
        prev.push(
            AbsoluteToken {
                line: (pl + d.delta_line) as u32,
                start: if d.delta_line == 0 {
                    (ps + d.delta_start) as u32
                } else {
                    d.delta_start
                },
                length: d.length,
                token_type: d.token_type,
                token_modifiers_bitset: d.token_modifiers_bitset,
            },
        )
    }
}

/// Each token starts no earlier in the document than the tokens before it.
pub open spec fn in_document_order(s: Seq<AbsoluteToken>) -> bool {
    forall|i: int, j: int| 0 <= i < j < s.len() ==> place_le(#[trigger] s[i], #[trigger] s[j])
}

/// Tokens given in document order are recovered exactly from their relative
/// encoding: the encoding loses nothing.
pub proof fn lemma_decode_encode(s: Seq<AbsoluteToken>)
    requires
        in_document_order(s),
    ensures
        decode(encode(s)) == s,
    decreases s.len(),
{
    if s.len() > 0 {
        let init = s.drop_last();
        assert(in_document_order(init)) by {
            assert forall|i: int, j: int| 0 <= i < j < init.len() implies place_le(
                #[trigger] init[i],
                #[trigger] init[j],
            ) by {
                assert(init[i] == s[i] && init[j] == s[j]);
            }
        }
        lemma_decode_encode(init);
        let e = encode(s);
        assert(e.drop_last() =~= encode(init));
        if init.len() > 0 {
            assert(s[init.len() - 1] == init.last());
            assert(place_le(s[init.len() - 1], s[s.len() - 1]));
        }
        assert(decode(e) =~= s);
    }
}

/// Inserting by place adds exactly `t`, and keeps a sequence in document
/// order in document order.
pub proof fn lemma_insert_by_place(s: Seq<AbsoluteToken>, t: AbsoluteToken)
    ensures
        insert_by_place(s, t).len() == s.len() + 1,
        insert_by_place(s, t).to_multiset() == s.to_multiset().insert(t),
        in_document_order(s) ==> in_document_order(insert_by_place(s, t)),
    decreases s.len(),
{
    broadcast use vstd::seq_lib::group_to_multiset_ensures;
    if s.len() == 0 {
        assert(seq![t] =~= Seq::<AbsoluteToken>::empty().push(t));
    } else if place_le(s.last(), t) {
        if in_document_order(s) {
            let r = s.push(t);
            assert forall|i: int, j: int| 0 <= i < j < r.len() implies place_le(
                #[trigger] r[i],
                #[trigger] r[j],
            ) by {
                if j == s.len() {
                    if i < s.len() - 1 {
                        assert(place_le(s[i], s[s.len() - 1]));
                    }
                } else {
                    assert(place_le(s[i], s[j]));
                }
            }
        }
    } else {
        let init = s.drop_last();
        let last = s.last();
        lemma_insert_by_place(init, t);
        assert(init.push(last) =~= s);
        let r0 = insert_by_place(init, t);
        let r = r0.push(last);
        if in_document_order(s) {
            assert(in_document_order(init)) by {
                assert forall|i: int, j: int| 0 <= i < j < init.len() implies place_le(
                    #[trigger] init[i],
                    #[trigger] init[j],
                ) by {
                    assert(init[i] == s[i] && init[j] == s[j]);
                }
            }
            assert forall|i: int| 0 <= i < r0.len() implies place_le(#[trigger] r0[i], last) by {
                let x = r0[i];
                assert(r0.to_multiset().count(x) > 0) by {
                    assert(r0.contains(x));
                }
                if x != t {
                    assert(init.to_multiset().count(x) > 0);
                    assert(init.contains(x));
                    let k = choose|k: int| 0 <= k < init.len() && init[k] == x;
                    assert(place_le(s[k], s[s.len() - 1]));
                }
            }
            assert forall|i: int, j: int| 0 <= i < j < r.len() implies place_le(
                #[trigger] r[i],
                #[trigger] r[j],
            ) by {
                if j == r0.len() {
                    assert(place_le(r0[i], last));
                } else {
                    assert(place_le(r0[i], r0[j]));
                }
            }
        }
    }
}

/// Sorting by place puts the tokens in document order and keeps each of them,
/// as often as it occurs.
pub proof fn lemma_sort_by_place(s: Seq<AbsoluteToken>)
    ensures
        in_document_order(sort_by_place(s)),
        sort_by_place(s).to_multiset() == s.to_multiset(),
        sort_by_place(s).len() == s.len(),
    decreases s.len(),
{
    broadcast use vstd::seq_lib::group_to_multiset_ensures;
    if s.len() > 0 {
        lemma_sort_by_place(s.drop_last());
        lemma_insert_by_place(sort_by_place(s.drop_last()), s.last());
        assert(s.drop_last().push(s.last()) =~= s);
    }
}

/// Tokens already in document order are left as they are.
pub proof fn lemma_sort_keeps_ordered(s: Seq<AbsoluteToken>)
    requires
        in_document_order(s),
    ensures
        sort_by_place(s) == s,
    decreases s.len(),
{
    if s.len() > 0 {
        let init = s.drop_last();
        assert(in_document_order(init)) by {
            assert forall|i: int, j: int| 0 <= i < j < init.len() implies place_le(
                #[trigger] init[i],
                #[trigger] init[j],
            ) by {
                assert(init[i] == s[i] && init[j] == s[j]);
            }
        }
        lemma_sort_keeps_ordered(init);
        if init.len() > 0 {
            assert(place_le(s[s.len() - 2], s[s.len() - 1]));
            assert(init.last() == s[s.len() - 2]);
        }
        assert(init.push(s.last()) =~= s);
    }
}

/// What a builder hands out decodes to its tokens in document order: each
/// token back at the place of the span it was made from, none lost or added.
pub proof fn lemma_build_decodes(s: Seq<AbsoluteToken>)
    ensures
        decode(encode(sort_by_place(s))) == sort_by_place(s),
        in_document_order(sort_by_place(s)),
        sort_by_place(s).to_multiset() == s.to_multiset(),
{
    lemma_sort_by_place(s);
    lemma_decode_encode(sort_by_place(s));
}

/// Every accepted token covers at least one column.
pub proof fn lemma_mark_tokens_nonempty(text: Seq<u8>, ms: Seq<Mark>)
    ensures
        forall|i: int|
            0 <= i < mark_tokens(text, ms).len() ==> #[trigger] mark_tokens(text, ms)[i].length
                > 0,
    decreases ms.len(),
{
    reveal(mark_tokens);
    if ms.len() > 0 {
        lemma_mark_tokens_nonempty(text, ms.drop_last());
        let prev = mark_tokens(text, ms.drop_last());
        match mark_token(text, ms.last()) {
            Some(t) => {
                assert forall|i: int| 0 <= i < prev.len() + 1 implies #[trigger] prev.push(t)[i].length
                    > 0 by {
                    if i < prev.len() {
                        assert(prev.push(t)[i] == prev[i]);
                    }
                }
            },
            None => {},
        }
    }
}

/// The encoding has one token for each absolute token, and keeps its length,
/// type and modifiers.
pub proof fn lemma_encode_keeps_tokens(s: Seq<AbsoluteToken>)
    ensures
        encode(s).len() == s.len(),
        forall|i: int|
            0 <= i < s.len() ==> {
                &&& (#[trigger] encode(s)[i]).length == s[i].length
                &&& encode(s)[i].token_type == s[i].token_type
                &&& encode(s)[i].token_modifiers_bitset == s[i].token_modifiers_bitset
            },
    decreases s.len(),
{
    if s.len() > 0 {
        lemma_encode_keeps_tokens(s.drop_last());
        assert forall|i: int| 0 <= i < s.len() - 1 implies encode(s)[i] == encode(s.drop_last())[i]
            && s[i] == s.drop_last()[i] by {}
    }
}

} // verus!

verus! {

/// The tokens of three runs of marks are those of each run, in turn.
pub proof fn lemma_mark_tokens_concat3(text: Seq<u8>, a: Seq<Mark>, b: Seq<Mark>, c: Seq<Mark>)
    ensures
        mark_tokens(text, a + b + c) == mark_tokens(text, a) + mark_tokens(text, b) + mark_tokens(
            text,
            c,
        ),
{
    lemma_mark_tokens_concat(text, a + b, c);
    lemma_mark_tokens_concat(text, a, b);
}

/// The tokens of four runs of marks are those of each run, in turn.
pub proof fn lemma_mark_tokens_concat4(
    text: Seq<u8>,
    a: Seq<Mark>,
    b: Seq<Mark>,
    c: Seq<Mark>,
    d: Seq<Mark>,
)
    ensures
        mark_tokens(text, a + b + c + d) == mark_tokens(text, a) + mark_tokens(text, b)
            + mark_tokens(text, c) + mark_tokens(text, d),
{
    lemma_mark_tokens_concat(text, a + b + c, d);
    lemma_mark_tokens_concat3(text, a, b, c);
}

/// No marks, no tokens.
pub proof fn lemma_mark_tokens_empty(text: Seq<u8>)
    ensures
        mark_tokens(text, Seq::<Mark>::empty()) == Seq::<AbsoluteToken>::empty(),
{
    reveal(mark_tokens);
}

} // verus!

verus! {

/// Each token comes from one of the marks, with its type and modifiers.
pub proof fn lemma_mark_tokens_from_marks(text: Seq<u8>, ms: Seq<Mark>)
    ensures
        forall|j: int|
            0 <= j < mark_tokens(text, ms).len() ==> exists|i: int|
                0 <= i < ms.len() && ms[i].token_type == #[trigger] mark_tokens(text, ms)[j].token_type
                    && ms[i].modifiers == mark_tokens(text, ms)[j].token_modifiers_bitset,
    decreases ms.len(),
{
    reveal(mark_tokens);
    if ms.len() > 0 {
        let init = ms.drop_last();
        lemma_mark_tokens_from_marks(text, init);
        let prev = mark_tokens(text, init);
        assert forall|j: int| 0 <= j < mark_tokens(text, ms).len() implies exists|i: int|
            0 <= i < ms.len() && ms[i].token_type == #[trigger] mark_tokens(text, ms)[j].token_type
                && ms[i].modifiers == mark_tokens(text, ms)[j].token_modifiers_bitset by {
            if j < prev.len() {
                assert(mark_tokens(text, ms)[j] == prev[j]);
                let i = choose|i: int|
                    0 <= i < init.len() && init[i].token_type == #[trigger] prev[j].token_type
                        && init[i].modifiers == prev[j].token_modifiers_bitset;
                assert(ms[i] == init[i]);
            } else {
                assert(ms[ms.len() - 1] == ms.last());
            }
        }
    }
}

} // verus!
