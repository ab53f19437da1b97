//! The token legend: which token types and modifiers the server advertises,
//! and how a type or a set of modifiers is turned into the integers that the
//! encoded token stream carries.
use vstd::prelude::*;

verus! {

/// The standard semantic token types of the Language Server Protocol.
#[derive(Clone, Copy, Debug, PartialEq, Eq, Structural)]
pub enum TokenType {
    Namespace,
    Type,
    Class,
    Enum,
    Interface,
    Struct,
    TypeParameter,
    Parameter,
    Variable,
    Property,
    EnumMember,
    Event,
    Function,
    Method,
    Macro,
    Keyword,
    Modifier,
    Comment,
    StringLit,
    Number,
    Regexp,
    Operator,
    Decorator,
}

/// The standard semantic token modifiers of the Language Server Protocol.
#[derive(Clone, Copy, Debug, PartialEq, Eq, Structural)]
pub enum TokenModifier {
    Declaration,
    Definition,
    Readonly,
    Static,
    Deprecated,
    Abstract,
    Async,
    Modification,
    Documentation,
    DefaultLibrary,
}

/// Index of the first element of `s` equal to `x`, if there is one.
pub open spec fn first_index_of<T>(s: Seq<T>, x: T) -> Option<int>
    decreases s.len(),
{
    if s.len() == 0 {
        None
    } else {
        match first_index_of(s.drop_last(), x) {
            Some(i) => Some(i),
            None => if s.last() == x {
                Some(s.len() - 1)
            } else {
                None
            },
        }
    }
}

/// `first_index_of` finds the earliest occurrence, and finds nothing exactly
/// when `x` does not occur.
pub proof fn lemma_first_index_of<T>(s: Seq<T>, x: T)
    ensures
        match first_index_of(s, x) {
            Some(i) => 0 <= i < s.len() && s[i] == x && forall|j: int| 0 <= j < i ==> s[j] != x,
            None => forall|j: int| 0 <= j < s.len() ==> s[j] != x,
        },
    decreases s.len(),
{
    if s.len() > 0 {
        lemma_first_index_of(s.drop_last(), x);
        assert(forall|j: int| 0 <= j < s.len() - 1 ==> s.drop_last()[j] == s[j]);
    }
}

/// Maps a token type to its index in the legend.
pub struct TokenTypeMap {
    types: Vec<TokenType>,
}

/// The index that `get` reports for `ty` in `legend`: its first position, or 0
/// where the legend does not hold it.
pub open spec fn type_index(legend: Seq<TokenType>, ty: TokenType) -> u32 {
    match first_index_of(legend, ty) {
        Some(i) => i as u32,
        None => 0,
    }
}

impl TokenTypeMap {
    /// The legend, in the order in which it is advertised.
    pub closed spec fn legend(&self) -> Seq<TokenType> {
        self.types@
    }

    pub fn new(types: Vec<TokenType>) -> (r: Self)
        ensures
            r.legend() == types@,
    {
        Self { types }
    }

    /// The legend index of `ty`; 0 where `ty` is not in the legend.
    pub fn get(&self, ty: TokenType) -> (r: u32)
        ensures
            r == type_index(self.legend(), ty),
    {
        proof {
            lemma_first_index_of(self.types@, ty);
        }
        let mut i: usize = 0;
        while i < self.types.len()
            invariant
                i <= self.types@.len(),
                forall|j: int| 0 <= j < i ==> self.types@[j] != ty,
                match first_index_of(self.types@, ty) {
                    Some(k) => 0 <= k < self.types@.len() && self.types@[k] == ty && forall|j: int|
                        0 <= j < k ==> self.types@[j] != ty,
                    None => forall|j: int| 0 <= j < self.types@.len() ==> self.types@[j] != ty,
                },
            decreases self.types@.len() - i,
        {
            if self.types[i] == ty {
                return i as u32;
            }
            i = i + 1;
        }
        0
    }
}

/// Maps a token modifier to its bit in the modifier bitset.
pub struct TokenModifierMap {
    modifiers: Vec<TokenModifier>,
}

/// The bit that `m` sets in a bitset over `legend`: bit `i` for its first
/// position `i`, none where the legend does not hold it.
pub open spec fn modifier_bit(legend: Seq<TokenModifier>, m: TokenModifier) -> u32 {
    match first_index_of(legend, m) {
        Some(i) => 1u32 << (i as u32),
        None => 0,
    }
}

/// The bitset of a list of modifiers: the union of their bits.
pub open spec fn modifier_bits(legend: Seq<TokenModifier>, mods: Seq<TokenModifier>) -> u32
    decreases mods.len(),
{
    if mods.len() == 0 {
        0
    } else {
        modifier_bits(legend, mods.drop_last()) | modifier_bit(legend, mods.last())
    }
}

/// Every modifier of `mods` that the legend holds has a position below 32, so
/// that its bit fits in the 32-bit set.
pub open spec fn modifiers_fit(legend: Seq<TokenModifier>, mods: Seq<TokenModifier>) -> bool {
    forall|j: int|
        0 <= j < mods.len() ==> match #[trigger] first_index_of(legend, mods[j]) {
            Some(i) => i < 32,
            None => true,
        }
}

impl TokenModifierMap {
    /// The legend, in the order in which it is advertised.
    pub closed spec fn legend(&self) -> Seq<TokenModifier> {
        self.modifiers@
    }

    pub fn new(modifiers: Vec<TokenModifier>) -> (r: Self)
        ensures
            r.legend() == modifiers@,
    {
        Self { modifiers }
    }

    fn position(&self, m: TokenModifier) -> (r: Option<usize>)
        ensures
            match first_index_of(self.legend(), m) {
                Some(i) => 0 <= i < self.legend().len() && r == Some(i as usize),
                None => r is None,
            },
    {
        proof {
            lemma_first_index_of(self.modifiers@, m);
        }
        let mut i: usize = 0;
        while i < self.modifiers.len()
            invariant
                i <= self.modifiers@.len(),
                forall|j: int| 0 <= j < i ==> self.modifiers@[j] != m,
                match first_index_of(self.modifiers@, m) {
                    Some(k) => 0 <= k < self.modifiers@.len() && self.modifiers@[k] == m
                        && forall|j: int| 0 <= j < k ==> self.modifiers@[j] != m,
                    None => forall|j: int| 0 <= j < self.modifiers@.len() ==> self.modifiers@[j] != m,
                },
            decreases self.modifiers@.len() - i,
        {
            if self.modifiers[i] == m {
                return Some(i);
            }
            i = i + 1;
        }
        None
    }

    /// The bitset of `modifiers`: bit `i` is set for each listed modifier
    /// whose legend index is `i`; modifiers outside the legend set nothing.
    pub fn encode(&self, modifiers: &[TokenModifier]) -> (r: u32)
        requires
            modifiers_fit(self.legend(), modifiers@),
        ensures
            r == modifier_bits(self.legend(), modifiers@),
    {
        let mut result: u32 = 0;
        let mut k: usize = 0;
        while k < modifiers.len()
            invariant
                k <= modifiers@.len(),
                modifiers_fit(self.legend(), modifiers@),
                result == modifier_bits(self.legend(), modifiers@.take(k as int)),
            decreases modifiers@.len() - k,
        {
            let m = modifiers[k];
            assert(modifiers@.take(k + 1).drop_last() =~= modifiers@.take(k as int));
            assert(modifiers@.take(k + 1).last() == m);
            let found = self.position(m);
            assert(match first_index_of(self.legend(), modifiers@[k as int]) {
                Some(i) => i < 32,
                None => true,
            });
            if let Some(bit) = found {
                let b: u32 = bit as u32;
                result = result | (1u32 << b);
            } else {
                let r0 = result;
                assert(r0 | 0u32 == r0) by (bit_vector);
            }
            k = k + 1;
        }
        assert(modifiers@.take(k as int) =~= modifiers@);
        result
    }
}

} // verus!

verus! {

/// A token type in the legend gets an index that points back at it; one not
/// in the legend gets index 0.
pub proof fn lemma_type_index(legend: Seq<TokenType>, ty: TokenType)
    requires
        legend.len() <= 0x1_0000_0000,
    ensures
        legend.contains(ty) ==> type_index(legend, ty) < legend.len() && legend[type_index(
            legend,
            ty,
        ) as int] == ty,
        !legend.contains(ty) ==> type_index(legend, ty) == 0,
{
    lemma_first_index_of(legend, ty);
    if legend.contains(ty) {
        let j = choose|j: int| 0 <= j < legend.len() && legend[j] == ty;
        assert(legend[j] == ty);
    }
}

proof fn lemma_bit_or(a: u32, b: u32, k: u32)
    requires
        k < 32,
    ensures
        ((a | b) >> k) & 1 == 1 <==> ((a >> k) & 1 == 1 || (b >> k) & 1 == 1),
{
    assert(((a | b) >> k) & 1 == 1 <==> ((a >> k) & 1 == 1 || (b >> k) & 1 == 1))
        by (bit_vector)
        requires
            k < 32,
    ;
}

proof fn lemma_bit_single(i: u32, k: u32)
    requires
        i < 32,
        k < 32,
    ensures
        ((1u32 << i) >> k) & 1 == 1 <==> i == k,
{
    assert(((1u32 << i) >> k) & 1 == 1 <==> i == k) by (bit_vector)
        requires
            i < 32,
            k < 32,
    ;
}

/// Bit `k` of the modifier bitset is set exactly when one of the listed
/// modifiers has legend index `k`.
pub proof fn lemma_modifier_bits(legend: Seq<TokenModifier>, mods: Seq<TokenModifier>, k: u32)
    requires
        modifiers_fit(legend, mods),
        k < 32,
    ensures
        (modifier_bits(legend, mods) >> k) & 1 == 1 <==> exists|j: int|
            0 <= j < mods.len() && #[trigger] first_index_of(legend, mods[j]) == Some(k as int),
    decreases mods.len(),
{
    if mods.len() == 0 {
        assert((0u32 >> k) & 1 == 0) by (bit_vector);
    } else {
        let init = mods.drop_last();
        assert(modifiers_fit(legend, init)) by {
            assert forall|j: int| 0 <= j < init.len() implies match #[trigger] first_index_of(
                legend,
                init[j],
            ) {
                Some(i) => i < 32,
                None => true,
            } by {
                assert(init[j] == mods[j]);
                assert(match first_index_of(legend, mods[j]) {
                    Some(i) => i < 32,
                    None => true,
                });
            }
        }
        lemma_modifier_bits(legend, init, k);
        lemma_bit_or(modifier_bits(legend, init), modifier_bit(legend, mods.last()), k);
        lemma_first_index_of(legend, mods.last());
        assert(match first_index_of(legend, mods[mods.len() - 1]) {
            Some(i) => i < 32,
            None => true,
        });
        match first_index_of(legend, mods.last()) {
            Some(i) => {
                lemma_bit_single(i as u32, k);
            },
            None => {
                assert((0u32 >> k) & 1 == 0) by (bit_vector);
            },
        }
        if exists|j: int| 0 <= j < mods.len() && #[trigger] first_index_of(legend, mods[j]) == Some(
            k as int,
        ) {
            let j = choose|j: int|
                0 <= j < mods.len() && #[trigger] first_index_of(legend, mods[j]) == Some(k as int);
            if j < init.len() {
                assert(init[j] == mods[j]);
            }
        }
        if exists|j: int| 0 <= j < init.len() && #[trigger] first_index_of(legend, init[j]) == Some(
            k as int,
        ) {
            let j = choose|j: int|
                0 <= j < init.len() && #[trigger] first_index_of(legend, init[j]) == Some(k as int);
            assert(init[j] == mods[j]);
        }
    }
}

} // verus!

verus! {

/// With at most 32 modifiers in the legend, every modifier's bit fits.
pub proof fn lemma_small_legend_fits(legend: Seq<TokenModifier>, mods: Seq<TokenModifier>)
    requires
        legend.len() <= 32,
    ensures
        modifiers_fit(legend, mods),
{
    assert forall|j: int| 0 <= j < mods.len() implies match #[trigger] first_index_of(legend, mods[j]) {
        Some(i) => i < 32,
        None => true,
    } by {
        lemma_first_index_of(legend, mods[j]);
    }
}

} // verus!
