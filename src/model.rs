//! The value-level model: typed values, value names, and keys mapping names
//! to values.

use vstd::prelude::*;
use crate::assoc::{assoc, has_key, unique_keys, lemma_assoc_index, lemma_assoc_empty,
    lemma_assoc_update, lemma_assoc_push, lemma_assoc_drop_last};

verus! {

/// A typed registry value.
#[derive(Debug, Clone, PartialEq, Eq)]
pub enum Value {
    /// A request to delete the value (`-`).
    Delete,
    /// A string (`"..."`).
    Sz(String),
    /// An expandable string (`hex(2):`).
    ExpandSz(String),
    /// A byte stream (`hex:`).
    Binary(Vec<u8>),
    /// A 32-bit unsigned integer (`dword:`).
    Dword(u32),
    /// A 32-bit unsigned integer stored big-endian (`hex(5):`).
    DwordBigEndian(u32),
    /// A sequence of strings (`hex(7):`).
    MultiSz(Vec<String>),
    /// A 64-bit unsigned integer (`hex(b):`).
    Qword(u64),
    /// Bytes of any other value kind, tagged with the kind number.
    Hex { kind: u8, bytes: Vec<u8> },
}

/// What a value holds, as plain mathematical data.
pub enum ValueView {
    Delete,
    Sz(Seq<char>),
    ExpandSz(Seq<char>),
    Binary(Seq<u8>),
    Dword(u32),
    DwordBigEndian(u32),
    MultiSz(Seq<Seq<char>>),
    Qword(u64),
    Hex(u8, Seq<u8>),
}

impl View for Value {
    type V = ValueView;

    open spec fn view(&self) -> ValueView {
        match self {
            Value::Delete => ValueView::Delete,
            Value::Sz(s) => ValueView::Sz(s@),
            Value::ExpandSz(s) => ValueView::ExpandSz(s@),
            Value::Binary(b) => ValueView::Binary(b@),
            Value::Dword(n) => ValueView::Dword(*n),
            Value::DwordBigEndian(n) => ValueView::DwordBigEndian(*n),
            Value::MultiSz(v) => ValueView::MultiSz(v@.map_values(|s: String| s@)),
            Value::Qword(n) => ValueView::Qword(*n),
            Value::Hex { kind, bytes } => ValueView::Hex(*kind, bytes@),
        }
    }
}

/// The name of a value within a key.
#[derive(Debug, Clone, PartialEq, Eq)]
pub enum ValueName {
    /// The key's unnamed default value (`@`).
    Default,
    /// A named value.
    Named(String),
}

/// What a key holds: value names (the default one is `None`) mapped to values.
pub type KeyView = Map<Option<Seq<char>>, ValueView>;

/// What a document holds: key paths mapped to what each key holds.
pub type DocView = Map<Seq<char>, KeyView>;

impl View for ValueName {
    type V = Option<Seq<char>>;

    open spec fn view(&self) -> Option<Seq<char>> {
        match self {
            ValueName::Default => None,
            ValueName::Named(s) => Some(s@),
        }
    }
}

impl ValueName {
    /// Whether two value names are the same name.
    pub fn same(&self, other: &ValueName) -> (r: bool)
        ensures
            r == (self@ == other@),
    {
        match self {
            ValueName::Default => match other {
                ValueName::Default => true,
                ValueName::Named(_) => false,
            },
            ValueName::Named(a) => match other {
                ValueName::Default => false,
                ValueName::Named(b) => a.eq(b),
            },
        }
    }
}

/// The value names of `v` read through their views.
pub open spec fn name_entries(v: Seq<(ValueName, Value)>) -> Seq<(Option<Seq<char>>, ValueView)> {
    v.map_values(|p: (ValueName, Value)| (p.0@, p.1@))
}

/// The values stored directly under one key path.
#[derive(Debug, Clone, PartialEq, Eq)]
pub struct Key {
    values: Vec<(ValueName, Value)>,
}

impl View for Key {
    type V = KeyView;

    closed spec fn view(&self) -> KeyView {
        assoc(name_entries(self.values@))
    }
}

impl Key {
    /// A key holds at most one entry per value name.
    pub closed spec fn wf(&self) -> bool {
        unique_keys(name_entries(self.values@))
    }

    /// An empty key.
    pub fn new() -> (r: Key)
        ensures
            r.wf(),
            r@ == Map::<Option<Seq<char>>, ValueView>::empty(),
    {
        let r = Key { values: Vec::new() };
        proof {
            lemma_assoc_empty(name_entries(r.values@));
        }
        r
    }

    /// The entries of the key, each name once, in no particular order.
    pub fn values(&self) -> (r: &Vec<(ValueName, Value)>)
        ensures
            assoc(name_entries(r@)) == self@,
            self.wf() ==> unique_keys(name_entries(r@)),
    {
        &self.values
    }

    /// Where `name` stands among the entries, if anywhere.
    fn position(&self, name: &ValueName) -> (r: Option<usize>)
        ensures
            match r {
                Some(i) => i < self.values@.len() && name_entries(self.values@)[i as int].0
                    == name@,
                None => !has_key(name_entries(self.values@), name@),
            },
    {
        let ghost e = name_entries(self.values@);
        let mut i: usize = 0;
        while i < self.values.len()
            invariant
                i <= self.values@.len(),
                e == name_entries(self.values@),
                forall|j: int| 0 <= j < i ==> #[trigger] e[j].0 != name@,
            decreases self.values@.len() - i,
        {
            if self.values[i].0.same(name) {
                return Some(i);
            }
            i = i + 1;
        }
        proof {
            if has_key(e, name@) {
                let j = choose|j: int| 0 <= j < e.len() && #[trigger] e[j].0 == name@;
                assert(e[j].0 != name@);
            }
        }
        None
    }

    /// The value stored under `name`, if any.
    pub fn get(&self, name: &ValueName) -> (r: Option<&Value>)
        requires
            self.wf(),
        ensures
            match r {
                Some(v) => self@.contains_key(name@) && self@[name@] == v@,
                None => !self@.contains_key(name@),
            },
    {
        match self.position(name) {
            Some(i) => {
                proof {
                    lemma_assoc_index(name_entries(self.values@), i as int);
                }
                Some(&self.values[i].1)
            },
            None => None,
        }
    }

    /// Stores `value` under `name`, replacing any value stored there.
    pub fn insert(&mut self, name: ValueName, value: Value)
        requires
            old(self).wf(),
        ensures
            final(self).wf(),
            final(self)@ == old(self)@.insert(name@, value@),
    {
        let ghost e = name_entries(self.values@);
        let ghost vv = value@;
        match self.position(&name) {
            Some(i) => {
                let _ = self.values.remove(i);
                self.values.insert(i, (name, value));
                proof {
                    assert(name_entries(self.values@) =~= e.update(i as int, (e[i as int].0, vv)));
                    lemma_assoc_update(e, i as int, vv);
                }
            },
            None => {
                let ghost n = name@;
                self.values.push((name, value));
                proof {
                    assert(name_entries(self.values@) =~= e.push((n, vv)));
                    lemma_assoc_push(e, n, vv);
                }
            },
        }
    }

    /// The key with `value` stored under `name`.
    pub fn with(self, name: ValueName, value: Value) -> (r: Key)
        requires
            self.wf(),
        ensures
            r.wf(),
            r@ == self@.insert(name@, value@),
    {
        let mut k = self;
        k.insert(name, value);
        k
    }

    /// Stores every entry of `frag`, each replacing any value of the same name.
    pub fn merge(&mut self, frag: Key)
        requires
            old(self).wf(),
            frag.wf(),
        ensures
            final(self).wf(),
            final(self)@ == old(self)@.union_prefer_right(frag@),
    {
        let mut rest = frag.values;
        while rest.len() > 0
            invariant
                self.wf(),
                unique_keys(name_entries(rest@)),
                self@.union_prefer_right(assoc(name_entries(rest@))) == old(self)@.union_prefer_right(
                    frag@,
                ),
            decreases rest@.len(),
        {
            let ghost e = name_entries(rest@);
            let ghost before = self@;
            let (n, v) = rest.pop().unwrap();
            proof {
                lemma_assoc_drop_last(e);
                assert(name_entries(rest@) =~= e.drop_last());
            }
            let ghost nv = n@;
            let ghost vv = v@;
            self.insert(n, v);
            proof {
                assert(before.insert(nv, vv).union_prefer_right(assoc(e.drop_last())) =~= before.union_prefer_right(
                    assoc(e.drop_last()).insert(nv, vv),
                ));
            }
        }
        proof {
            lemma_assoc_empty(name_entries(rest@));
            assert(self@.union_prefer_right(Map::empty()) =~= self@);
        }
    }
}

} // verus!
