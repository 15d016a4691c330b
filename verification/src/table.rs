//! The metadata mapping attached to a request or response: keys are
//! unique and case-sensitive, insertion order is not observable, and
//! duplicate keys at the wire level collapse to the last write.

use vstd::prelude::*;
use crate::fmt::str_eq;
use crate::metadata;
use crate::metadata::{text_or_empty, EntryView};
use crate::envelope::readers_view;

verus! {

/// The mapping a pair sequence folds to, later pairs overwriting
/// earlier ones.
pub open spec fn table_map(s: Seq<(Seq<char>, Seq<char>)>) -> Map<Seq<char>, Seq<char>>
    decreases s.len(),
{
    if s.len() == 0 {
        Map::empty()
    } else {
        table_map(s.drop_last()).insert(s.last().0, s.last().1)
    }
}

/// The key/value texts of decoded entries, absent fields reading as
/// empty.
pub open spec fn entries_kv(s: Seq<EntryView>) -> Seq<(Seq<char>, Seq<char>)> {
    Seq::new(s.len(), |i: int| (text_or_empty(s[i].key), text_or_empty(s[i].val)))
}

/// A key is in the folded mapping exactly when some pair carries it.
pub proof fn lemma_table_map_contains(s: Seq<(Seq<char>, Seq<char>)>, k: Seq<char>)
    ensures
        table_map(s).contains_key(k) <==> exists|i: int| 0 <= i < s.len() && (#[trigger] s[i]).0
            == k,
    decreases s.len(),
{
    if s.len() > 0 {
        lemma_table_map_contains(s.drop_last(), k);
        if table_map(s).contains_key(k) {
            if s.last().0 == k {
                assert((s[s.len() - 1]).0 == k);
            } else {
                let i = choose|i: int| 0 <= i < s.drop_last().len() && (#[trigger] s.drop_last()[i]).0
                    == k;
                assert((s[i]).0 == k);
            }
        }
        if exists|i: int| 0 <= i < s.len() && (#[trigger] s[i]).0 == k {
            let i = choose|i: int| 0 <= i < s.len() && (#[trigger] s[i]).0 == k;
            if i < s.len() - 1 {
                assert((s.drop_last()[i]).0 == k);
            }
        }
    }
}

/// Under unique keys, the folded mapping sends a key to the value of
/// its (single) pair.
pub proof fn lemma_table_map_at(s: Seq<(Seq<char>, Seq<char>)>, i: int)
    requires
        0 <= i < s.len(),
        forall|p: int, q: int| 0 <= p < q < s.len() ==> (#[trigger] s[p]).0 != (#[trigger] s[q]).0,
    ensures
        table_map(s).contains_key(s[i].0),
        table_map(s)[s[i].0] == s[i].1,
    decreases s.len(),
{
    if i == s.len() - 1 {
    } else {
        assert(forall|p: int, q: int| 0 <= p < q < s.drop_last().len() ==> (#[trigger] s.drop_last()[p]).0
            != (#[trigger] s.drop_last()[q]).0);
        lemma_table_map_at(s.drop_last(), i);
        assert((s[i]).0 != (s[s.len() - 1]).0);
    }
}

/// The metadata mapping: an association list whose keys are unique.
#[derive(Debug)]
pub struct MetadataTable {
    entries: Vec<(String, String)>,
}

impl View for MetadataTable {
    type V = Map<Seq<char>, Seq<char>>;

    closed spec fn view(&self) -> Map<Seq<char>, Seq<char>> {
        table_map(self.pairs())
    }
}

impl MetadataTable {
    /// The key/value pairs held, in storage order.
    pub closed spec fn pairs(&self) -> Seq<(Seq<char>, Seq<char>)> {
        Seq::new(self.entries@.len(), |i: int| (self.entries@[i].0@, self.entries@[i].1@))
    }

    /// Keys are unique in the representation.
    pub open spec fn inv(&self) -> bool {
        forall|p: int, q: int| 0 <= p < q < self.pairs().len() ==> (#[trigger] self.pairs()[p]).0
            != (#[trigger] self.pairs()[q]).0
    }

    /// The mapping is the fold of the pairs.
    pub proof fn lemma_view_is_pairs(&self)
        ensures
            self@ == table_map(self.pairs()),
    {
    }

    /// An empty mapping.
    pub fn new() -> (r: MetadataTable)
        ensures
            r.inv(),
            r@ == Map::<Seq<char>, Seq<char>>::empty(),
            r.pairs().len() == 0,
    {
        let r = MetadataTable { entries: Vec::new() };
        proof {
            assert(r.pairs() =~= Seq::<(Seq<char>, Seq<char>)>::empty());
        }
        r
    }

    /// How many distinct keys the mapping holds.
    pub fn len(&self) -> (r: usize)
        ensures
            r == self.pairs().len(),
    {
        self.entries.len()
    }

    /// The pair at a storage index; order carries no meaning.
    pub fn entry_at(&self, i: usize) -> (r: (&String, &String))
        requires
            i < self.pairs().len(),
        ensures
            r.0@ == self.pairs()[i as int].0,
            r.1@ == self.pairs()[i as int].1,
    {
        let p = &self.entries[i];
        (&p.0, &p.1)
    }

    /// Look a key up.
    pub fn get(&self, key: &str) -> (r: Option<&String>)
        requires
            self.inv(),
        ensures
            match r {
                Option::Some(v) => self@.contains_key(key@) && self@[key@] == v@,
                Option::None => !self@.contains_key(key@),
            },
    {
        let n = self.entries.len();
        let mut i: usize = 0;
        while i < n
            invariant
                self.inv(),
                n == self.pairs().len(),
                i <= n,
                forall|k: int| 0 <= k < i ==> (#[trigger] self.pairs()[k]).0 != key@,
            decreases n - i,
        {
            if str_eq(self.entries[i].0.as_str(), key) {
                proof {
                    lemma_table_map_at(self.pairs(), i as int);
                }
                return Option::Some(&self.entries[i].1);
            }
            i = i + 1;
        }
        proof {
            lemma_table_map_contains(self.pairs(), key@);
        }
        Option::None
    }

    /// Insert a pair, overwriting any earlier value of the key.
    pub fn insert(&mut self, key: String, val: String)
        requires
            old(self).inv(),
        ensures
            final(self).inv(),
            final(self)@ == old(self)@.insert(key@, val@),
    {
        let ghost s0 = self.pairs();
        let n = self.entries.len();
        let mut i: usize = 0;
        while i < n
            invariant
                self.inv(),
                self.pairs() == s0,
                s0 == old(self).pairs(),
                old(self).inv(),
                n == self.pairs().len(),
                i <= n,
                forall|k: int| 0 <= k < i ==> (#[trigger] self.pairs()[k]).0 != key@,
            decreases n - i,
        {
            if str_eq(self.entries[i].0.as_str(), key.as_str()) {
                proof {
                    lemma_table_map_update(s0, i as int, key@, val@);
                }
                vstd::pervasive::VecAdditionalExecFns::set(&mut self.entries, i, (key, val));
                proof {
                    assert(self.pairs() =~= s0.update(i as int, (key@, val@)));
                    assert forall|p: int| 0 <= p < self.pairs().len() implies (
                    #[trigger] self.pairs()[p]).0 == (s0[p]).0 by {}
                }
                return ;
            }
            i = i + 1;
        }
        proof {
            lemma_table_map_contains(s0, key@);
        }
        self.entries.push((key, val));
        proof {
            assert(self.pairs() =~= s0.push((key@, val@)));
            assert(self.pairs().drop_last() =~= s0);
            assert(table_map(self.pairs()) == table_map(s0).insert(key@, val@));
            lemma_table_map_contains(s0, key@);
        }
    }

    /// Collapse decoded entries into a mapping: one entry per key,
    /// last write wins, absent texts reading as empty.
    pub fn from_entries(entries: &Vec<metadata::Reader>) -> (r: MetadataTable)
        ensures
            r.inv(),
            r@ == table_map(entries_kv(readers_view(entries@))),
    {
        let ghost kv = entries_kv(readers_view(entries@));
        let mut t = MetadataTable::new();
        proof {
            assert(kv.take(0) =~= Seq::<(Seq<char>, Seq<char>)>::empty());
        }
        let mut i: usize = 0;
        while i < entries.len()
            invariant
                kv == entries_kv(readers_view(entries@)),
                i <= entries@.len(),
                kv.len() == entries@.len(),
                t.inv(),
                t@ == table_map(kv.take(i as int)),
            decreases entries@.len() - i,
        {
            let key = entries[i].get_key();
            let val = entries[i].get_val();
            proof {
                assert(kv[i as int] == (key@, val@));
            }
            t.insert(key, val);
            i = i + 1;
            proof {
                assert(kv.take(i as int).drop_last() =~= kv.take(i as int - 1));
                assert(kv.take(i as int).last() == kv[i as int - 1]);
            }
        }
        proof {
            assert(kv.take(entries@.len() as int) =~= kv);
        }
        t
    }

    /// The entry builders for this mapping, both texts set, one entry
    /// per key in storage order.
    pub fn to_entry_builders(&self) -> (r: Vec<metadata::Builder>)
        ensures
            r@.len() == self.pairs().len(),
            forall|i: int| 0 <= i < r@.len() ==> #[trigger] r@[i]@ == (EntryView {
                key: Option::Some(self.pairs()[i].0),
                val: Option::Some(self.pairs()[i].1),
            }),
    {
        let mut out: Vec<metadata::Builder> = Vec::new();
        let n = self.entries.len();
        let mut i: usize = 0;
        while i < n
            invariant
                n == self.pairs().len(),
                n == self.entries@.len(),
                i <= n,
                out@.len() == i,
                forall|k: int| 0 <= k < i ==> #[trigger] out@[k]@ == (EntryView {
                    key: Option::Some(self.pairs()[k].0),
                    val: Option::Some(self.pairs()[k].1),
                }),
            decreases n - i,
        {
            let b = metadata::Builder::with_texts(
                self.entries[i].0.as_str(),
                self.entries[i].1.as_str(),
            );
            out.push(b);
            i = i + 1;
        }
        out
    }
}

/// Updating the pair that holds a key folds to inserting over the old
/// mapping, as long as keys are unique.
proof fn lemma_table_map_update(s: Seq<(Seq<char>, Seq<char>)>, i: int, k: Seq<char>, v: Seq<char>)
    requires
        0 <= i < s.len(),
        s[i].0 == k,
        forall|p: int, q: int| 0 <= p < q < s.len() ==> (#[trigger] s[p]).0 != (#[trigger] s[q]).0,
    ensures
        table_map(s.update(i, (k, v))) == table_map(s).insert(k, v),
    decreases s.len(),
{
    let s2 = s.update(i, (k, v));
    if i == s.len() - 1 {
        assert(s2.drop_last() =~= s.drop_last());
        assert(table_map(s2) == table_map(s.drop_last()).insert(k, v));
        assert(table_map(s.drop_last()).insert(k, s[i].1).insert(k, v) =~= table_map(
            s.drop_last(),
        ).insert(k, v));
    } else {
        assert(s2.drop_last() =~= s.drop_last().update(i, (k, v)));
        assert(forall|p: int, q: int| 0 <= p < q < s.drop_last().len() ==> (#[trigger] s.drop_last()[p]).0
            != (#[trigger] s.drop_last()[q]).0);
        assert((s.drop_last()[i]).0 == k);
        lemma_table_map_update(s.drop_last(), i, k, v);
        assert(s2.last() == s.last());
        assert((s[i]).0 != (s[s.len() - 1]).0);
        assert(table_map(s.drop_last()).insert(k, v).insert(s.last().0, s.last().1) =~= table_map(
            s.drop_last(),
        ).insert(s.last().0, s.last().1).insert(k, v));
    }
}

} // verus!
