//! Maps keyed by the 16-bit type codes of a schema.

use vstd::prelude::*;

verus! {

/// A finite map from type codes to values.
///
/// The entries are held in strictly increasing order of code, which makes
/// the order of a walk, and with it every encoding of the map, canonical.
#[derive(Clone, Debug, PartialEq, Eq)]
pub struct TypeMap<V> {
    pub entries: Vec<(u16, V)>,
}

/// Whether the codes of `s` strictly increase.
pub open spec fn increasing<V>(s: Seq<(u16, V)>) -> bool {
    forall|i: int, j: int| 0 <= i < j < s.len() ==> (#[trigger] s[i]).0 < (#[trigger] s[j]).0
}

/// Whether some entry of `s` has the code `code`.
pub open spec fn has_code<V>(s: Seq<(u16, V)>, code: u16) -> bool {
    exists|i: int| 0 <= i < s.len() && (#[trigger] s[i]).0 == code
}

/// A position of `s` that holds `code`, where there is one.
pub open spec fn position<V>(s: Seq<(u16, V)>, code: u16) -> int {
    choose|i: int| 0 <= i < s.len() && (#[trigger] s[i]).0 == code
}

/// The map that a sequence of entries stands for.
pub open spec fn as_map<V>(s: Seq<(u16, V)>) -> Map<u16, V> {
    Map::new(|c: u16| has_code(s, c), |c: u16| s[position(s, c)].1)
}

/// In an increasing sequence each entry is what the map holds for its code.
pub proof fn lemma_as_map_entry<V>(s: Seq<(u16, V)>, i: int)
    requires
        increasing(s),
        0 <= i < s.len(),
    ensures
        as_map(s).contains_key(s[i].0),
        as_map(s)[s[i].0] == s[i].1,
        position(s, s[i].0) == i,
{
    let c = s[i].0;
    assert(has_code(s, c));
    let p = position(s, c);
    assert(0 <= p < s.len() && s[p].0 == c);
    if p < i {
        assert(s[p].0 < s[i].0);
    } else if i < p {
        assert(s[i].0 < s[p].0);
    }
}

/// A code that the map holds sits at some position of the sequence.
pub proof fn lemma_as_map_position<V>(s: Seq<(u16, V)>, code: u16)
    requires
        as_map(s).contains_key(code),
    ensures
        0 <= position(s, code) < s.len(),
        s[position(s, code)].0 == code,
        as_map(s)[code] == s[position(s, code)].1,
{
    assert(has_code(s, code));
}

/// The entries with each value replaced by its model.
pub open spec fn view_entries<V: View>(s: Seq<(u16, V)>) -> Seq<(u16, V::V)> {
    s.map_values(|e: (u16, V)| (e.0, e.1@))
}

/// Taking the models of the values changes neither the codes nor their
/// order, and the map of the models holds the model of what the map holds.
pub proof fn lemma_view_entries<V: View>(s: Seq<(u16, V)>, code: u16)
    ensures
        view_entries(s).len() == s.len(),
        increasing(view_entries(s)) == increasing(s),
        has_code(view_entries(s), code) == has_code(s, code),
        increasing(s) && has_code(s, code) ==> as_map(view_entries(s))[code] == as_map(s)[code]@
            && position(view_entries(s), code) == position(s, code),
{
    let views = view_entries(s);
    assert forall|i: int| 0 <= i < s.len() implies (#[trigger] views[i]).0 == s[i].0 && views[i].1
        == s[i].1@ by {}
    if increasing(views) {
        assert forall|a: int, b: int| 0 <= a < b < s.len() implies (#[trigger] s[a]).0 < (
        #[trigger] s[b]).0 by {
            assert(views[a].0 < views[b].0);
        }
    }
    if increasing(s) {
        assert forall|a: int, b: int| 0 <= a < b < views.len() implies (#[trigger] views[a]).0 < (
        #[trigger] views[b]).0 by {
            assert(s[a].0 < s[b].0);
        }
    }
    if has_code(views, code) {
        let i = position(views, code);
        assert(s[i].0 == code);
    }
    if has_code(s, code) {
        let i = position(s, code);
        assert(views[i].0 == code);
        if increasing(s) {
            lemma_as_map_entry(s, i);
            lemma_as_map_entry(views, i);
        }
    }
}

impl<V> View for TypeMap<V> {
    type V = Map<u16, V>;

    open spec fn view(&self) -> Map<u16, V> {
        as_map(self.entries@)
    }
}

impl<V> TypeMap<V> {
    /// The entries are in strictly increasing order of code.
    pub open spec fn wf(&self) -> bool {
        increasing(self.entries@)
    }

    /// The empty map.
    pub fn new() -> (r: Self)
        ensures
            r.wf(),
            r.entries@.len() == 0,
            r@ == Map::<u16, V>::empty(),
    {
        let r = TypeMap { entries: Vec::new() };
        assert(r@ =~= Map::<u16, V>::empty());
        r
    }

    /// Number of entries.
    pub fn len(&self) -> (r: usize)
        ensures
            r == self.entries@.len(),
    {
        self.entries.len()
    }

    /// Position of the first entry whose code is not below `code`.
    fn lower_bound(&self, code: u16) -> (p: usize)
        requires
            self.wf(),
        ensures
            p <= self.entries@.len(),
            forall|i: int| 0 <= i < p ==> (#[trigger] self.entries@[i]).0 < code,
            forall|i: int| p <= i < self.entries@.len() ==> (#[trigger] self.entries@[i]).0 >= code,
    {
        let mut p: usize = 0;
        while p < self.entries.len() && self.entries[p].0 < code
            invariant
                self.wf(),
                p <= self.entries@.len(),
                forall|i: int| 0 <= i < p ==> (#[trigger] self.entries@[i]).0 < code,
            decreases self.entries@.len() - p,
        {
            p = p + 1;
        }
        assert forall|i: int| p <= i < self.entries@.len() implies (#[trigger] self.entries@[i]).0
            >= code by {
            if p < i {
                assert(self.entries@[p as int].0 < self.entries@[i].0);
            }
        }
        p
    }

    /// The value held for `code`, if any.
    pub fn get(&self, code: u16) -> (r: Option<&V>)
        requires
            self.wf(),
        ensures
            r is Some <==> self@.contains_key(code),
            r matches Some(v) ==> *v == self@[code],
    {
        let p = self.lower_bound(code);
        if p < self.entries.len() && self.entries[p].0 == code {
            proof {
                lemma_as_map_entry(self.entries@, p as int);
            }
            Some(&self.entries[p].1)
        } else {
            proof {
                if self@.contains_key(code) {
                    lemma_as_map_position(self.entries@, code);
                    let q = position(self.entries@, code);
                    assert(self.entries@[q].0 == code);
                }
            }
            None
        }
    }

    /// Whether the map holds a value for `code`.
    pub fn contains_key(&self, code: u16) -> (r: bool)
        requires
            self.wf(),
        ensures
            r == self@.contains_key(code),
    {
        self.get(code).is_some()
    }

    /// Sets the value held for `code` and returns the one it replaces, if any.
    pub fn insert(&mut self, code: u16, value: V) -> (r: Option<V>)
        requires
            old(self).wf(),
        ensures
            final(self).wf(),
            final(self)@ == old(self)@.insert(code, value),
            r is Some <==> old(self)@.contains_key(code),
            r matches Some(v) ==> v == old(self)@[code],
    {
        let p = self.lower_bound(code);
        let ghost before = self.entries@;
        let replaced = if p < self.entries.len() && self.entries[p].0 == code {
            proof {
                lemma_as_map_entry(before, p as int);
            }
            let (_, v) = self.entries.remove(p);
            Some(v)
        } else {
            proof {
                if as_map(before).contains_key(code) {
                    lemma_as_map_position(before, code);
                    let q = position(before, code);
                    assert(before[q].0 == code);
                }
            }
            None
        };
        let ghost middle = self.entries@;
        self.entries.insert(p, (code, value));
        proof {
            let after = self.entries@;
            assert(after == middle.insert(p as int, (code, value)));
            assert forall|i: int, j: int| 0 <= i < j < after.len() implies (#[trigger] after[i]).0
                < (#[trigger] after[j]).0 by {
                let bi = if i < p { i } else if replaced is Some { i } else { i - 1 };
                let bj = if j < p { j } else if replaced is Some { j } else { j - 1 };
                if i != p {
                    assert(after[i] == before[bi]);
                }
                if j != p {
                    assert(after[j] == before[bj]);
                }
                if i != p && j != p {
                    assert(before[bi].0 < before[bj].0);
                }
            }
            assert forall|c: u16| #[trigger]
                as_map(after).contains_key(c) <==> as_map(before).insert(code, value).contains_key(
                    c,
                ) by {
                if as_map(after).contains_key(c) && c != code {
                    lemma_as_map_position(after, c);
                    let q = position(after, c);
                    let bq = if q < p { q } else if replaced is Some { q } else { q - 1 };
                    assert(after[q] == before[bq]);
                    assert(has_code(before, c));
                }
                if as_map(before).contains_key(c) && c != code {
                    lemma_as_map_position(before, c);
                    let q = position(before, c);
                    let aq = if q < p { q } else if replaced is Some { q } else { q + 1 };
                    assert(after[aq] == before[q]);
                    assert(has_code(after, c));
                }
                if c == code {
                    assert(after[p as int].0 == code);
                    assert(has_code(after, c));
                }
            }
            assert forall|c: u16| #[trigger] as_map(after).contains_key(c) implies as_map(after)[c]
                == as_map(before).insert(code, value)[c] by {
                lemma_as_map_position(after, c);
                let q = position(after, c);
                lemma_as_map_entry(after, q);
                if c != code {
                    let bq = if q < p { q } else if replaced is Some { q } else { q - 1 };
                    assert(after[q] == before[bq]);
                    lemma_as_map_entry(before, bq);
                } else {
                    lemma_as_map_entry(after, p as int);
                }
            }
            assert(as_map(after) =~= as_map(before).insert(code, value));
        }
        replaced
    }
}

/// Whether the codes of the entries strictly increase.
pub fn entries_increase<V>(entries: &Vec<(u16, V)>) -> (r: bool)
    ensures
        r == increasing(entries@),
{
    let mut i: usize = 1;
    while i < entries.len()
        invariant
            1 <= i,
            forall|a: int, b: int|
                0 <= a < b < i && b < entries@.len() ==> (#[trigger] entries@[a]).0 < (
                #[trigger] entries@[b]).0,
        decreases entries@.len() - i,
    {
        if entries[i - 1].0 >= entries[i].0 {
            return false;
        }
        assert forall|a: int, b: int| 0 <= a < b < i + 1 && b < entries@.len() implies (
        #[trigger] entries@[a]).0 < (#[trigger] entries@[b]).0 by {
            if b == i {
                if a < i - 1 {
                    assert(entries@[a].0 < entries@[i - 1].0);
                }
            }
        }
        i = i + 1;
    }
    true
}

} // verus!
