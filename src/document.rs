//! Documents: key paths mapped to keys; the overlay engine and the typed accessor.

use vstd::prelude::*;
use crate::assoc::{assoc, has_key, unique_keys, lemma_assoc_index, lemma_assoc_empty,
    lemma_assoc_update, lemma_assoc_push};
use crate::error::Errors;
use crate::model::{DocView, Key, KeyView, Value, ValueName, ValueView};

verus! {

/// The key paths of `v` read through their views, with what each key holds.
pub open spec fn key_entries(v: Seq<(String, Key)>) -> Seq<(Seq<char>, KeyView)> {
    v.map_values(|p: (String, Key)| (p.0@, p.1@))
}

/// What the key at `k` holds in `d`; nothing if `d` has no such key.
pub open spec fn key_or_empty(d: DocView, k: Seq<char>) -> KeyView {
    if d.contains_key(k) {
        d[k]
    } else {
        Map::empty()
    }
}

/// `d` with the entries of `f` merged into the key at `k`, which is created
/// if absent; same-named entries take the value from `f`.
pub open spec fn overlay(d: DocView, k: Seq<char>, f: KeyView) -> DocView {
    d.insert(k, key_or_empty(d, k).union_prefer_right(f))
}

/// `d` with each overlay of `s` applied in order.
pub open spec fn overlay_all(d: DocView, s: Seq<(Seq<char>, KeyView)>) -> DocView
    decreases s.len(),
{
    if s.len() == 0 {
        d
    } else {
        overlay_all(overlay(d, s[0].0, s[0].1), s.drop_first())
    }
}

/// A whole registry document.
#[derive(Debug, Clone, PartialEq, Eq)]
pub struct Document {
    keys: Vec<(String, Key)>,
}

impl View for Document {
    type V = DocView;

    closed spec fn view(&self) -> DocView {
        assoc(key_entries(self.keys@))
    }
}

impl Document {
    /// Each key path occurs once, and every key is well formed.
    pub closed spec fn wf(&self) -> bool {
        &&& unique_keys(key_entries(self.keys@))
        &&& forall|i: int| 0 <= i < self.keys@.len() ==> #[trigger] self.keys@[i].1.wf()
    }

    /// A document without keys.
    pub fn new() -> (r: Document)
        ensures
            r.wf(),
            r@ == Map::<Seq<char>, KeyView>::empty(),
    {
        let r = Document { keys: Vec::new() };
        proof {
            lemma_assoc_empty(key_entries(r.keys@));
        }
        r
    }

    /// The keys of the document, each path once, in no particular order.
    pub fn keys(&self) -> (r: &Vec<(String, Key)>)
        ensures
            assoc(key_entries(r@)) == self@,
            self.wf() ==> unique_keys(key_entries(r@)),
            self.wf() ==> forall|i: int| 0 <= i < r@.len() ==> #[trigger] r@[i].1.wf(),
    {
        &self.keys
    }

    /// Where the key path `name` stands among the keys, if anywhere.
    fn position(&self, name: &String) -> (r: Option<usize>)
        ensures
            match r {
                Some(i) => i < self.keys@.len() && key_entries(self.keys@)[i as int].0 == name@,
                None => !has_key(key_entries(self.keys@), name@),
            },
    {
        let ghost e = key_entries(self.keys@);
        let mut i: usize = 0;
        while i < self.keys.len()
            invariant
                i <= self.keys@.len(),
                e == key_entries(self.keys@),
                forall|j: int| 0 <= j < i ==> #[trigger] e[j].0 != name@,
            decreases self.keys@.len() - i,
        {
            if self.keys[i].0.eq(name) {
                return Some(i);
            }
            i = i + 1;
        }
        proof {
            if has_key(e, name@) {
                let j = choose|j: int| 0 <= j < e.len() && #[trigger] e[j].0 == name@;
                assert(e[j].0 != name@);
            }
        }
        None
    }

    /// The key at path `name`, if any.
    pub fn get(&self, name: &str) -> (r: Option<&Key>)
        requires
            self.wf(),
        ensures
            match r {
                Some(k) => self@.contains_key(name@) && k@ == self@[name@] && k.wf(),
                None => !self@.contains_key(name@),
            },
    {
        let owned = name.to_owned();
        match self.position(&owned) {
            Some(i) => {
                proof {
                    lemma_assoc_index(key_entries(self.keys@), i as int);
                }
                Some(&self.keys[i].1)
            },
            None => None,
        }
    }

    /// The document with the entries of `frag` merged into the key at `name`,
    /// which is created if absent. Every other key, and every entry of that
    /// key that `frag` does not name, is kept as it was.
    pub fn with(self, name: String, frag: Key) -> (r: Document)
        requires
            self.wf(),
            frag.wf(),
        ensures
            r.wf(),
            r@ == overlay(self@, name@, frag@),
    {
        let ghost e = key_entries(self.keys@);
        let ghost fv = frag@;
        let ghost nv = name@;
        let pos = self.position(&name);
        let mut keys = self.keys;
        match pos {
            Some(i) => {
                let (stored, mut key) = keys.remove(i);
                key.merge(frag);
                let ghost kv = key@;
                keys.insert(i, (stored, key));
                proof {
                    assert(key_entries(keys@) =~= e.update(i as int, (e[i as int].0, kv)));
                    lemma_assoc_update(e, i as int, kv);
                    lemma_assoc_index(e, i as int);
                    assert(forall|j: int| 0 <= j < keys@.len() && j != i ==> keys@[j] == self.keys@[j]);
                }
            },
            None => {
                keys.push((name, frag));
                proof {
                    assert(key_entries(keys@) =~= e.push((nv, fv)));
                    lemma_assoc_push(e, nv, fv);
                    assert(key_or_empty(assoc(e), nv).union_prefer_right(fv) =~= fv);
                    assert(forall|j: int| 0 <= j < self.keys@.len() ==> keys@[j] == self.keys@[j]);
                }
            },
        }
        Document { keys }
    }
}

/// The document with each overlay of `overlays` applied in order: the entries
/// of each are merged into the key at its path, later overlays winning over
/// earlier ones on the same value name.
pub fn apply_overlays(doc: Document, overlays: Vec<(String, Key)>) -> (r: Document)
    requires
        doc.wf(),
        forall|i: int| 0 <= i < overlays@.len() ==> #[trigger] overlays@[i].1.wf(),
    ensures
        r.wf(),
        r@ == overlay_all(doc@, key_entries(overlays@)),
{
    let mut cur = doc;
    let mut rest = overlays;
    while rest.len() > 0
        invariant
            cur.wf(),
            forall|i: int| 0 <= i < rest@.len() ==> #[trigger] rest@[i].1.wf(),
            overlay_all(cur@, key_entries(rest@)) == overlay_all(doc@, key_entries(overlays@)),
        decreases rest@.len(),
    {
        let ghost e = key_entries(rest@);
        let (name, frag) = rest.remove(0);
        proof {
            assert(key_entries(rest@) =~= e.drop_first());
        }
        cur = cur.with(name, frag);
    }
    cur
}

/// Applying the same overlay twice gives what applying it once gives.
pub proof fn lemma_overlay_idempotent(d: DocView, k: Seq<char>, f: KeyView)
    ensures
        overlay(overlay(d, k, f), k, f) == overlay(d, k, f),
{
    let once = overlay(d, k, f);
    assert(key_or_empty(once, k) == key_or_empty(d, k).union_prefer_right(f));
    assert(key_or_empty(once, k).union_prefer_right(f) =~= key_or_empty(d, k).union_prefer_right(f));
    assert(overlay(once, k, f) =~= once);
}

/// An overlay of the key at `k` leaves every other key exactly as it was,
/// present or absent.
pub proof fn lemma_overlay_locality(d: DocView, k: Seq<char>, f: KeyView, k2: Seq<char>)
    requires
        k2 != k,
    ensures
        overlay(d, k, f).contains_key(k2) == d.contains_key(k2),
        d.contains_key(k2) ==> overlay(d, k, f)[k2] == d[k2],
{
}

/// Overlays of two different keys may be applied in either order.
pub proof fn lemma_overlay_commute_keys(d: DocView, k1: Seq<char>, f1: KeyView, k2: Seq<char>, f2: KeyView)
    requires
        k1 != k2,
    ensures
        overlay(overlay(d, k1, f1), k2, f2) == overlay(overlay(d, k2, f2), k1, f1),
{
    assert(overlay(overlay(d, k1, f1), k2, f2) =~= overlay(overlay(d, k2, f2), k1, f1));
}

/// Overlays of one key whose value names are disjoint may be applied in
/// either order.
pub proof fn lemma_overlay_commute_names(d: DocView, k: Seq<char>, f1: KeyView, f2: KeyView)
    requires
        f1.dom().disjoint(f2.dom()),
    ensures
        overlay(overlay(d, k, f1), k, f2) == overlay(overlay(d, k, f2), k, f1),
{
    let b = key_or_empty(d, k);
    assert(b.union_prefer_right(f1).union_prefer_right(f2) =~= b.union_prefer_right(f2).union_prefer_right(f1));
    assert(overlay(overlay(d, k, f1), k, f2) =~= overlay(overlay(d, k, f2), k, f1));
}

/// The value named `val` in the key at path `key`.
pub fn read_val<'a>(registry: &'a Document, key: &str, val: &str) -> (r: Result<&'a Value, Errors>)
    requires
        registry.wf(),
    ensures
        match r {
            Ok(v) => registry@.contains_key(key@) && registry@[key@].contains_key(Some(val@))
                && v@ == registry@[key@][Some(val@)],
            Err(e) => e == Errors::KeyMissing && !(registry@.contains_key(key@)
                && registry@[key@].contains_key(Some(val@))),
        },
        !registry@.contains_key(key@) ==> (r matches Err(Errors::KeyMissing)),
{
    match registry.get(key) {
        Some(k) => match k.get(&ValueName::Named(val.to_owned())) {
            Some(v) => Ok(v),
            None => Err(Errors::KeyMissing),
        },
        None => Err(Errors::KeyMissing),
    }
}

/// The value named `n` in the key at path `k` of `d`, if both exist.
pub open spec fn lookup(d: DocView, k: Seq<char>, n: Option<Seq<char>>) -> Option<ValueView> {
    if d.contains_key(k) && d[k].contains_key(n) {
        Some(d[k][n])
    } else {
        None
    }
}

/// Reading the value named `n` at path `k` as a 32-bit integer.
pub open spec fn dword_at(d: DocView, k: Seq<char>, n: Seq<char>) -> Result<u32, Errors> {
    match lookup(d, k, Some(n)) {
        None => Err(Errors::KeyMissing),
        Some(ValueView::Dword(x)) => Ok(x),
        Some(_) => Err(Errors::WrongFormat),
    }
}

/// Reading the value named `n` at path `k` as a string.
pub open spec fn sz_at(d: DocView, k: Seq<char>, n: Seq<char>) -> Result<Seq<char>, Errors> {
    match lookup(d, k, Some(n)) {
        None => Err(Errors::KeyMissing),
        Some(ValueView::Sz(s)) => Ok(s),
        Some(_) => Err(Errors::WrongFormat),
    }
}

/// The 32-bit integer named `val` in the key at path `key`; a value of any
/// other kind is `WrongFormat`, never converted.
pub fn read_dword(registry: &Document, key: &str, val: &str) -> (r: Result<u32, Errors>)
    requires
        registry.wf(),
    ensures
        r == dword_at(registry@, key@, val@),
        (lookup(registry@, key@, Some(val@)) matches Some(ValueView::Sz(_))) ==> r == Err::<
            u32,
            Errors,
        >(Errors::WrongFormat),
{
    match read_val(registry, key, val) {
        Ok(v) => match v {
            Value::Dword(n) => Ok(*n),
            _ => Err(Errors::WrongFormat),
        },
        Err(e) => Err(e),
    }
}

/// The string named `val` in the key at path `key`; a value of any other
/// kind is `WrongFormat`, never converted.
pub fn read_sz(registry: &Document, key: &str, val: &str) -> (r: Result<String, Errors>)
    requires
        registry.wf(),
    ensures
        match r {
            Ok(s) => sz_at(registry@, key@, val@) == Ok::<Seq<char>, Errors>(s@),
            Err(e) => sz_at(registry@, key@, val@) == Err::<Seq<char>, Errors>(e),
        },
{
    match read_val(registry, key, val) {
        Ok(v) => match v {
            Value::Sz(s) => Ok(s.clone()),
            _ => Err(Errors::WrongFormat),
        },
        Err(e) => Err(e),
    }
}

} // verus!
