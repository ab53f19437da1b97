//! What the analysis of a file knows, as far as highlighting reads it: the
//! definitions by qualified name, the local bindings, and the comments.
use vstd::prelude::*;
use std::collections::HashMap;

verus! {

/// A type, reduced to what decides how a name of it is highlighted.
pub enum Type {
    /// A function type; the name of each parameter's type, where it has one.
    Function { param_type_names: Vec<Option<String>> },
    /// A type with quantified type variables around `body`.
    Forall { body: Box<Type> },
    /// Any other type.
    Other,
}

pub struct StructField {
    pub name: String,
}

pub enum DefinitionBody {
    Struct { fields: Vec<StructField> },
    Enum,
    ValueEnum,
    Interface,
    TypeAlias,
    Value,
}

pub struct Definition {
    pub body: DefinitionBody,
    pub ty: Type,
}

/// A local binding: whether it is a function parameter.
#[derive(Clone, Copy, Debug, PartialEq, Eq, Structural)]
pub struct BindingFact {
    pub is_param: bool,
}

/// The index of the first entry of `entries` named `key`.
pub open spec fn find_key(entries: Seq<(String, Definition)>, key: Seq<char>) -> Option<int>
    decreases entries.len(),
{
    if entries.len() == 0 {
        None
    } else {
        match find_key(entries.drop_last(), key) {
            Some(i) => Some(i),
            None => if entries.last().0@ == key {
                Some(entries.len() - 1)
            } else {
                None
            },
        }
    }
}

/// `find_key` finds the earliest entry named `key`, and finds nothing
/// exactly when no entry is named so.
pub proof fn lemma_find_key(entries: Seq<(String, Definition)>, key: Seq<char>)
    ensures
        match find_key(entries, key) {
            Some(i) => 0 <= i < entries.len() && entries[i].0@ == key && forall|j: int|
                0 <= j < i ==> #[trigger] entries[j].0@ != key,
            None => forall|j: int| 0 <= j < entries.len() ==> #[trigger] entries[j].0@ != key,
        },
    decreases entries.len(),
{
    if entries.len() > 0 {
        lemma_find_key(entries.drop_last(), key);
        assert(forall|j: int| 0 <= j < entries.len() - 1 ==> entries.drop_last()[j] == entries[j]);
    }
}

/// Two entry lists with the same names, in the same order, find each key at
/// the same index.
proof fn lemma_find_key_same_names(a: Seq<(String, Definition)>, b: Seq<(String, Definition)>, key: Seq<char>)
    requires
        a.len() == b.len(),
        forall|j: int| 0 <= j < a.len() ==> #[trigger] a[j].0@ == b[j].0@,
    ensures
        find_key(a, key) == find_key(b, key),
    decreases a.len(),
{
    if a.len() > 0 {
        assert forall|j: int| 0 <= j < a.len() - 1 implies #[trigger] a.drop_last()[j].0@ == b.drop_last()[j].0@ by {
            assert(a.drop_last()[j] == a[j] && b.drop_last()[j] == b[j]);
        }
        lemma_find_key_same_names(a.drop_last(), b.drop_last(), key);
    }
}

/// The definitions of a program, by qualified name.
pub struct Definitions {
    entries: Vec<(String, Definition)>,
}

impl Definitions {
    /// The definition stored under `key`.
    pub closed spec fn lookup(&self, key: Seq<char>) -> Option<Definition> {
        match find_key(self.entries@, key) {
            Some(i) => Some(self.entries@[i].1),
            None => None,
        }
    }

    pub fn new() -> (r: Self)
        ensures
            forall|key: Seq<char>| #[trigger] r.lookup(key) is None,
    {
        Definitions { entries: Vec::new() }
    }

    /// Stores `definition` under `name`, in place of what was stored there.
    pub fn insert(&mut self, name: String, definition: Definition)
        ensures
            forall|key: Seq<char>|
                #[trigger] final(self).lookup(key) == if key == name@ {
                    Some(definition)
                } else {
                    old(self).lookup(key)
                },
    {
        let ghost key0 = name@;
        proof {
            lemma_find_key(self.entries@, key0);
        }
        let mut i: usize = 0;
        while i < self.entries.len()
            invariant
                i <= self.entries@.len(),
                forall|j: int| 0 <= j < i ==> #[trigger] self.entries@[j].0@ != key0,
                key0 == name@,
                self.entries@ == old(self).entries@,
            decreases self.entries@.len() - i,
        {
            if self.entries[i].0 == name {
                let ghost before = self.entries@;
                proof {
                    lemma_find_key(before, key0);
                }
                assert(before[i as int].0@ == key0);
                self.entries.set(i, (name, definition));
                proof {
                    let after = self.entries@;
                    assert(after == before.update(i as int, (name, definition)));
                    assert(after[i as int].1 == definition);
                    assert forall|j: int| 0 <= j < before.len() implies #[trigger] before[j].0@
                        == after[j].0@ by {
                        if j != i {
                            assert(after[j] == before[j]);
                        }
                    }
                    assert forall|key: Seq<char>| #[trigger] self.lookup(key) == if key == key0 {
                        Some(definition)
                    } else {
                        old(self).lookup(key)
                    } by {
                        lemma_find_key_same_names(before, after, key);
                        lemma_find_key(before, key);
                        if key == key0 {
                            assert(find_key(before, key) == Some(i as int));
                        }
                    }
                }
                return;
            }
            i = i + 1;
        }
        let ghost before = self.entries@;
        self.entries.push((name, definition));
        proof {
            let after = self.entries@;
            assert(after.drop_last() =~= before);
            assert forall|key: Seq<char>| #[trigger] self.lookup(key) == if key == key0 {
                Some(definition)
            } else {
                old(self).lookup(key)
            } by {
                lemma_find_key(before, key);
                lemma_find_key(after, key);
                assert(after[before.len() as int].0@ == key0);
                assert(after[before.len() as int].1 == definition);
                assert(forall|j: int| 0 <= j < before.len() ==> after[j] == before[j]);
                if key == key0 {
                    assert(find_key(before, key) is None);
                }
            }
        }
    }

    /// The definition stored under `key`.
    pub fn get(&self, key: &String) -> (r: Option<&Definition>)
        ensures
            match self.lookup(key@) {
                Some(d) => r matches Some(x) && *x == d,
                None => r is None,
            },
    {
        proof {
            lemma_find_key(self.entries@, key@);
        }
        let mut i: usize = 0;
        while i < self.entries.len()
            invariant
                i <= self.entries@.len(),
                forall|j: int| 0 <= j < i ==> #[trigger] self.entries@[j].0@ != key@,
                match find_key(self.entries@, key@) {
                    Some(k) => 0 <= k < self.entries@.len() && self.entries@[k].0@ == key@
                        && forall|j: int| 0 <= j < k ==> #[trigger] self.entries@[j].0@ != key@,
                    None => forall|j: int|
                        0 <= j < self.entries@.len() ==> #[trigger] self.entries@[j].0@ != key@,
                },
            decreases self.entries@.len() - i,
        {
            if self.entries[i].0 == *key {
                return Some(&self.entries[i].1);
            }
            i = i + 1;
        }
        None
    }
}

/// What the analysis knows of one file.
pub struct AnalysisSnapshot {
    pub definitions: Definitions,
    /// The local bindings, by binding id.
    pub bindings: HashMap<u32, BindingFact>,
    /// The ordinary comments, as byte offset and byte length.
    pub comments: Vec<(u32, u32)>,
    /// The doc comments, as byte offset and byte length.
    pub doc_comments: Vec<(u32, u32)>,
}

} // verus!
