//! The field model: a mapping from field names to scalar field values with
//! value-copy semantics, used for the required fields of a logger
//! configuration and for the per-call working set.

use vstd::prelude::*;

verus! {

/// The value attached to one log field: a 64-bit signed integer or a text
/// string.  The variant set is deliberately closed, so that serialization is
/// total and exhaustively checkable.
#[derive(Debug)]
pub enum FieldValue {
    Number(i64),
    String(String),
}

/// Mathematical model of a `FieldValue`: an unbounded integer or a character
/// sequence.
pub enum FieldV {
    N(int),
    S(Seq<char>),
}

impl View for FieldValue {
    type V = FieldV;

    open spec fn view(&self) -> FieldV {
        match self {
            FieldValue::Number(n) => FieldV::N(*n as int),
            FieldValue::String(s) => FieldV::S(s@),
        }
    }
}

impl Clone for FieldValue {
    /// The copy carries the same model value as the original.
    fn clone(&self) -> (r: Self)
        ensures
            r@ == self@,
    {
        match self {
            FieldValue::Number(n) => FieldValue::Number(*n),
            FieldValue::String(s) => FieldValue::String(s.clone()),
        }
    }
}

/// The entries of `s`, each reduced to its model: key characters and value
/// model.
pub open spec fn kv_seq(s: Seq<(String, FieldValue)>) -> Seq<(Seq<char>, FieldV)> {
    s.map_values(|p: (String, FieldValue)| (p.0@, p.1@))
}

/// The mapping that an entry sequence denotes; a later entry for a key
/// overrides an earlier one.
pub open spec fn map_of(s: Seq<(Seq<char>, FieldV)>) -> Map<Seq<char>, FieldV>
    decreases s.len(),
{
    if s.len() == 0 {
        Map::empty()
    } else {
        map_of(s.drop_last()).insert(s.last().0, s.last().1)
    }
}

/// `s` without the entries whose key is `k`, order otherwise kept.
pub open spec fn drop_key(s: Seq<(Seq<char>, FieldV)>, k: Seq<char>) -> Seq<(Seq<char>, FieldV)>
    decreases s.len(),
{
    if s.len() == 0 {
        s
    } else if s.last().0 == k {
        drop_key(s.drop_last(), k)
    } else {
        drop_key(s.drop_last(), k).push(s.last())
    }
}

/// Every key occurs in at most one entry.
pub open spec fn unique_keys(s: Seq<(Seq<char>, FieldV)>) -> bool {
    forall|i: int, j: int| 0 <= i < j < s.len() ==> (#[trigger] s[i]).0 != (#[trigger] s[j]).0
}

/// Appending one entry appends one insertion to the denoted mapping.
pub proof fn lemma_map_of_push(s: Seq<(Seq<char>, FieldV)>, p: (Seq<char>, FieldV))
    ensures
        map_of(s.push(p)) == map_of(s).insert(p.0, p.1),
{
    assert(s.push(p).drop_last() =~= s);
    assert(s.push(p).last() == p);
}

/// Every entry that `drop_key` keeps comes from `s` and does not carry `k`;
/// dropping a key preserves key uniqueness.
pub proof fn lemma_drop_key_facts(s: Seq<(Seq<char>, FieldV)>, k: Seq<char>)
    ensures
        forall|i: int| 0 <= i < drop_key(s, k).len() ==> (#[trigger] drop_key(s, k)[i]).0 != k,
        forall|i: int|
            0 <= i < drop_key(s, k).len() ==> exists|j: int|
                0 <= j < s.len() && #[trigger] drop_key(s, k)[i] == s[j],
        unique_keys(s) ==> unique_keys(drop_key(s, k)),
    decreases s.len(),
{
    if s.len() == 0 {
    } else {
        let bl = s.drop_last();
        lemma_drop_key_facts(bl, k);
        assert(forall|j: int| 0 <= j < bl.len() ==> bl[j] == s[j]);
        let d = drop_key(bl, k);
        assert(forall|i: int|
            0 <= i < d.len() ==> exists|j: int| 0 <= j < s.len() && #[trigger] d[i] == s[j]);
        if s.last().0 == k {
        } else {
            let e = d.push(s.last());
            assert(drop_key(s, k) == e);
            assert(e.last() == s[s.len() - 1]);
            assert(forall|i: int|
                0 <= i < e.len() ==> exists|j: int| 0 <= j < s.len() && #[trigger] e[i] == s[j]);
            if unique_keys(s) {
                assert(unique_keys(bl));
                assert forall|i: int, j: int| 0 <= i < j < e.len() implies (#[trigger] e[i]).0
                    != (#[trigger] e[j]).0 by {
                    if j < d.len() {
                        assert(e[i] == d[i] && e[j] == d[j]);
                    } else {
                        assert(e[j] == s.last());
                        assert(e[i] == d[i]);
                        let m = choose|m: int| 0 <= m < s.len() && d[i] == s[m];
                        assert(d[i].0 != k);
                        assert(s[m].0 != k);
                        assert(m < s.len() - 1 || s[m] == s.last());
                        assert(s[m].0 != s.last().0);
                    }
                }
            }
        }
    }
}

/// Dropping a key and then appending an entry for it denotes exactly one
/// insertion into the original mapping.
pub proof fn lemma_map_of_drop_push(s: Seq<(Seq<char>, FieldV)>, k: Seq<char>, v: FieldV)
    ensures
        map_of(drop_key(s, k).push((k, v))) == map_of(s).insert(k, v),
    decreases s.len(),
{
    if s.len() == 0 {
        lemma_map_of_push(drop_key(s, k), (k, v));
    } else {
        let bl = s.drop_last();
        let p = s.last();
        lemma_map_of_drop_push(bl, k, v);
        if p.0 == k {
            assert(drop_key(s, k) == drop_key(bl, k));
            assert(map_of(s) == map_of(bl).insert(k, p.1));
            assert(map_of(bl).insert(k, p.1).insert(k, v) =~= map_of(bl).insert(k, v));
        } else {
            let d = drop_key(bl, k);
            assert(drop_key(s, k) == d.push(p));
            lemma_map_of_push(d, p);
            lemma_map_of_push(d.push(p), (k, v));
            lemma_map_of_push(d, (k, v));
            // map_of(d).insert(k, v) == map_of(bl).insert(k, v), so the two
            // maps agree off k; inserting p and then (k, v) on either side
            // gives equal maps.
            assert(map_of(d).insert(k, v) == map_of(bl).insert(k, v));
            assert forall|q: Seq<char>|
                map_of(d).insert(p.0, p.1).insert(k, v).dom().contains(q)
                    == map_of(bl).insert(p.0, p.1).insert(k, v).dom().contains(q) by {
                assert(map_of(d).insert(k, v).dom().contains(q) == map_of(bl).insert(
                    k,
                    v,
                ).dom().contains(q));
            }
            assert forall|q: Seq<char>|
                #[trigger] map_of(d).insert(p.0, p.1).insert(k, v).dom().contains(q) implies map_of(
                d,
            ).insert(p.0, p.1).insert(k, v)[q] == map_of(bl).insert(p.0, p.1).insert(k, v)[q] by {
                if q != k && q != p.0 {
                    assert(map_of(d).insert(k, v)[q] == map_of(bl).insert(k, v)[q]);
                }
            }
            assert(map_of(d).insert(p.0, p.1).insert(k, v) =~= map_of(bl).insert(p.0, p.1).insert(
                k,
                v,
            ));
            assert(map_of(s) == map_of(bl).insert(p.0, p.1));
        }
    }
}

/// A mapping from field names to field values.  Keys are unique; `add`
/// overwrites.  Copies are independent: the type has value semantics, never
/// shared mutable state.
#[derive(Debug)]
pub struct RequiredFields {
    pub(crate) entries: Vec<(String, FieldValue)>,
}

impl View for RequiredFields {
    type V = Map<Seq<char>, FieldV>;

    open spec fn view(&self) -> Map<Seq<char>, FieldV> {
        map_of(self.entries_v())
    }
}

impl RequiredFields {
    /// The entry sequence, reduced to models; the JSON body of a rendered
    /// line is stated over this sequence.
    pub open(crate) spec fn entries_v(&self) -> Seq<(Seq<char>, FieldV)> {
        kv_seq(self.entries@)
    }

    /// Every key occurs in at most one entry.
    pub open spec fn wf(&self) -> bool {
        unique_keys(self.entries_v())
    }

    /// Creates an empty mapping.
    pub fn new() -> (r: Self)
        ensures
            r.wf(),
            r@ == Map::<Seq<char>, FieldV>::empty(),
            r.entries_v() == Seq::<(Seq<char>, FieldV)>::empty(),
    {
        let r = RequiredFields { entries: Vec::new() };
        proof {
            assert(r.entries_v() =~= Seq::<(Seq<char>, FieldV)>::empty());
        }
        r
    }

    /// Inserts or overwrites the entry for `key`; any key and any value are
    /// accepted.
    pub fn add(&mut self, key: &str, value: FieldValue)
        requires
            old(self).wf(),
        ensures
            final(self).wf(),
            final(self)@ == old(self)@.insert(key@, value@),
    {
        let key_owned: String = key.to_owned();
        let mut kept: Vec<(String, FieldValue)> = Vec::new();
        let n = self.entries.len();
        let mut i: usize = 0;
        while i < n
            invariant
                n == self.entries.len(),
                i <= n,
                key_owned@ == key@,
                kv_seq(kept@) == drop_key(kv_seq(self.entries@.take(i as int)), key@),
            decreases n - i,
        {
            let ghost pre_take = kv_seq(self.entries@.take(i as int));
            let same = self.entries[i].0 == key_owned;
            if !same {
                kept.push((self.entries[i].0.clone(), self.entries[i].1.clone()));
            }
            proof {
                let next_take = kv_seq(self.entries@.take(i as int + 1));
                assert(next_take.drop_last() =~= pre_take);
                assert(next_take.last() == (self.entries@[i as int].0@, self.entries@[i as int].1@));
                if same {
                    assert(drop_key(next_take, key@) == drop_key(pre_take, key@));
                } else {
                    assert(drop_key(next_take, key@) == drop_key(pre_take, key@).push(
                        next_take.last(),
                    ));
                    assert(kv_seq(kept@) =~= drop_key(pre_take, key@).push(next_take.last()));
                }
            }
            i += 1;
        }
        proof {
            assert(self.entries@.take(n as int) =~= self.entries@);
        }
        kept.push((key_owned, value));
        proof {
            let s = kv_seq(self.entries@);
            assert(kv_seq(kept@) =~= drop_key(s, key@).push((key@, value@)));
            lemma_drop_key_facts(s, key@);
            lemma_map_of_drop_push(s, key@, value@);
            let e = drop_key(s, key@).push((key@, value@));
            assert forall|a: int, b: int| 0 <= a < b < e.len() implies (#[trigger] e[a]).0
                != (#[trigger] e[b]).0 by {
                if b < e.len() - 1 {
                    assert(e[a] == drop_key(s, key@)[a] && e[b] == drop_key(s, key@)[b]);
                } else {
                    assert(e[a] == drop_key(s, key@)[a]);
                    assert(e[a].0 != key@);
                }
            }
        }
        self.entries = kept;
    }

    /// Returns an independent copy of the full mapping: a value copy, not a
    /// live view.
    pub fn data(&self) -> (r: RequiredFields)
        ensures
            r.entries_v() == self.entries_v(),
            r@ == self@,
            self.wf() ==> r.wf(),
    {
        let mut out: Vec<(String, FieldValue)> = Vec::new();
        let n = self.entries.len();
        let mut i: usize = 0;
        while i < n
            invariant
                n == self.entries.len(),
                i <= n,
                kv_seq(out@) == kv_seq(self.entries@.take(i as int)),
            decreases n - i,
        {
            out.push((self.entries[i].0.clone(), self.entries[i].1.clone()));
            proof {
                let p = (self.entries@[i as int].0@, self.entries@[i as int].1@);
                assert(kv_seq(out@) =~= kv_seq(self.entries@.take(i as int)).push(p));
                assert(kv_seq(self.entries@.take(i as int + 1)) =~= kv_seq(
                    self.entries@.take(i as int),
                ).push(p));
            }
            i += 1;
        }
        proof {
            assert(self.entries@.take(n as int) =~= self.entries@);
        }
        let r = RequiredFields { entries: out };
        proof {
            assert(r.entries_v() == self.entries_v());
        }
        r
    }

    /// Copies every entry of `other` into `self`; on a shared key the entry
    /// of `other` wins.
    pub fn merge(&mut self, other: &RequiredFields)
        requires
            old(self).wf(),
        ensures
            final(self).wf(),
            final(self)@ == old(self)@.union_prefer_right(other@),
    {
        let n = other.entries.len();
        let mut i: usize = 0;
        proof {
            assert(kv_seq(other.entries@.take(0)) =~= Seq::<(Seq<char>, FieldV)>::empty());
            assert(self@ =~= old(self)@.union_prefer_right(
                map_of(kv_seq(other.entries@.take(0))),
            ));
        }
        while i < n
            invariant
                n == other.entries.len(),
                i <= n,
                self.wf(),
                self@ == old(self)@.union_prefer_right(map_of(kv_seq(other.entries@.take(i as int)))),
            decreases n - i,
        {
            let ghost pre_take = kv_seq(other.entries@.take(i as int));
            let v = other.entries[i].1.clone();
            self.add(other.entries[i].0.as_str(), v);
            proof {
                let next_take = kv_seq(other.entries@.take(i as int + 1));
                assert(next_take.drop_last() =~= pre_take);
                assert(next_take.last() == (other.entries@[i as int].0@, other.entries@[i as int].1@));
                lemma_map_of_push(pre_take, next_take.last());
                assert(next_take =~= pre_take.push(next_take.last()));
                assert(self@ =~= old(self)@.union_prefer_right(map_of(next_take)));
            }
            i += 1;
        }
        proof {
            assert(other.entries@.take(n as int) =~= other.entries@);
        }
    }
}

impl Clone for RequiredFields {
    /// The copy denotes the same mapping and shares nothing with the
    /// original.
    fn clone(&self) -> (r: Self)
        ensures
            r.entries_v() == self.entries_v(),
            r@ == self@,
            self.wf() ==> r.wf(),
    {
        self.data()
    }
}

impl Default for RequiredFields {
    /// Same as `RequiredFields::new`: an empty mapping.
    fn default() -> (r: Self)
        ensures
            r.wf(),
            r@ == Map::<Seq<char>, FieldV>::empty(),
    {
        RequiredFields::new()
    }
}

} // verus!
