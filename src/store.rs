//! The entry store: every seen entry, keyed by a unique guid.
use vstd::prelude::*;

verus! {

/// What the store records of an entry.
pub struct StoredRecord {
    pub guid: String,
    pub published: i64,
}

/// The result of an insert that reached the store.
#[derive(PartialEq, Eq, Structural, Clone, Copy, Debug)]
pub enum InsertOutcome {
    /// A new record was written.
    Inserted,
    /// A record with that guid exists already; nothing was written.
    DuplicateGuid,
    /// The storage failed; nothing is known to be written.
    Failed,
}

/// Seen entries in insertion order, no two with the same guid.
pub struct EntryStore {
    records: Vec<StoredRecord>,
}

/// Some record of `v` has guid `g`.
pub open spec fn has_guid(v: Seq<(Seq<char>, int)>, g: Seq<char>) -> bool {
    exists|i: int| 0 <= i < v.len() && v[i].0 == g
}

/// What the store holds after inserting `g` published at `t`: unchanged
/// when `g` is recorded already.
pub open spec fn inserted(v: Seq<(Seq<char>, int)>, g: Seq<char>, t: int) -> Seq<(Seq<char>, int)> {
    if has_guid(v, g) {
        v
    } else {
        v.push((g, t))
    }
}

/// What an insert of `g` reports.
pub open spec fn insert_outcome(v: Seq<(Seq<char>, int)>, g: Seq<char>) -> InsertOutcome {
    if has_guid(v, g) {
        InsertOutcome::DuplicateGuid
    } else {
        InsertOutcome::Inserted
    }
}

/// No two records of `v` share a guid.
pub open spec fn unique_guids(v: Seq<(Seq<char>, int)>) -> bool {
    forall|i: int, j: int| 0 <= i < j < v.len() ==> #[trigger] v[i].0 != #[trigger] v[j].0
}

/// The watermark: the publication time of the latest record, if any.
pub open spec fn watermark_of(v: Seq<(Seq<char>, int)>) -> Option<int> {
    if v.len() == 0 {
        None
    } else {
        Some(v[choose|i: int| is_latest(v, i)].1)
    }
}

/// Position `i` holds the latest record of `v`: none is published later,
/// and none inserted after it is published as late.
pub open spec fn is_latest(v: Seq<(Seq<char>, int)>, i: int) -> bool {
    &&& 0 <= i < v.len()
    &&& forall|j: int| 0 <= j < v.len() ==> v[j].1 <= v[i].1
    &&& forall|j: int| i < j < v.len() ==> v[j].1 < v[i].1
}

/// Two latest positions hold the same time.
pub proof fn lemma_latest_time(v: Seq<(Seq<char>, int)>, i: int, j: int)
    requires
        is_latest(v, i),
        is_latest(v, j),
    ensures
        v[i].1 == v[j].1,
{
}

/// A non-empty store has a latest record.
pub proof fn lemma_latest_exists(v: Seq<(Seq<char>, int)>)
    requires
        v.len() > 0,
    ensures
        exists|i: int| is_latest(v, i),
    decreases v.len(),
{
    if v.len() == 1 {
        assert(is_latest(v, 0));
    } else {
        let u = v.drop_last();
        lemma_latest_exists(u);
        let i = choose|i: int| is_latest(u, i);
        let last = v.len() - 1;
        assert(forall|k: int| 0 <= k < u.len() ==> u[k] == v[k]);
        if v[last].1 >= u[i].1 {
            assert(is_latest(v, last));
        } else {
            assert(is_latest(v, i));
        }
    }
}

/// The watermark is the greatest publication time of the store, and it
/// does not depend on the order in which the records were inserted: two
/// stores with the same records have the same watermark.
pub proof fn law_watermark_is_greatest(v: Seq<(Seq<char>, int)>, u: Seq<(Seq<char>, int)>)
    requires
        v.len() > 0,
        forall|x: (Seq<char>, int)| v.contains(x) <==> u.contains(x),
    ensures
        watermark_of(v) is Some,
        forall|i: int| 0 <= i < v.len() ==> v[i].1 <= watermark_of(v)->0,
        exists|i: int| 0 <= i < v.len() && v[i].1 == watermark_of(v)->0,
        watermark_of(u) == watermark_of(v),
{
    lemma_latest_exists(v);
    let i = choose|i: int| is_latest(v, i);
    assert(v.contains(v[i]));
    assert(u.len() > 0);
    lemma_latest_exists(u);
    let j = choose|j: int| is_latest(u, j);
    assert(u.contains(u[j]));
    let a = choose|a: int| 0 <= a < u.len() && u[a] == v[i];
    let b = choose|b: int| 0 <= b < v.len() && v[b] == u[j];
    assert(u[a].1 <= u[j].1);
    assert(v[b].1 <= v[i].1);
}

impl View for EntryStore {
    type V = Seq<(Seq<char>, int)>;

    /// Guid and publication time of each record, in insertion order.
    closed spec fn view(&self) -> Seq<(Seq<char>, int)> {
        self.records@.map_values(|r: StoredRecord| (r.guid@, r.published as int))
    }
}

impl EntryStore {
    /// No two records share a guid.
    pub open spec fn wf(&self) -> bool {
        unique_guids(self@)
    }

    /// An empty store.
    pub fn new() -> (r: EntryStore)
        ensures
            r.wf(),
            r@.len() == 0,
    {
        let r = EntryStore { records: Vec::new() };
        assert(r@ =~= Seq::empty());
        r
    }

    /// The number of records.
    pub fn len(&self) -> (r: usize)
        ensures
            r == self@.len(),
    {
        self.records.len()
    }

    /// Whether a record has guid `guid`.
    pub fn contains(&self, guid: &String) -> (r: bool)
        ensures
            r == has_guid(self@, guid@),
    {
        let mut i: usize = 0;
        while i < self.records.len()
            invariant
                i <= self@.len(),
                self@.len() == self.records@.len(),
                forall|j: int| 0 <= j < i ==> self@[j].0 != guid@,
            decreases self.records@.len() - i,
        {
            if self.records[i].guid == *guid {
                assert(self@[i as int].0 == guid@);
                return true;
            }
            i = i + 1;
        }
        false
    }

    /// Records a new entry; a guid that is recorded already is refused and
    /// the store stays as it was.
    pub fn insert(&mut self, guid: &String, published: i64) -> (r: InsertOutcome)
        requires
            old(self).wf(),
        ensures
            final(self).wf(),
            r == insert_outcome(old(self)@, guid@),
            final(self)@ == inserted(old(self)@, guid@, published as int),
    {
        if self.contains(guid) {
            return InsertOutcome::DuplicateGuid;
        }
        let ghost before = self@;
        self.records.push(StoredRecord { guid: guid.clone(), published });
        assert(self@ =~= before.push((guid@, published as int)));
        assert forall|i: int, j: int| 0 <= i < j < self@.len() implies #[trigger] self@[i].0
            != #[trigger] self@[j].0 by {
            if j == before.len() {
                assert(before[i].0 != guid@);
            }
        }
        InsertOutcome::Inserted
    }

    /// Guid and publication time of the latest record: the greatest time,
    /// and of records with that time the one inserted last. `None` when empty.
    pub fn latest(&self) -> (r: Option<(String, i64)>)
        ensures
            self@.len() == 0 <==> r is None,
            r matches Some(p) ==> exists|i: int|
                is_latest(self@, i) && #[trigger] self@[i] == (p.0@, p.1 as int),
            r matches Some(p) ==> watermark_of(self@) == Some(p.1 as int),
    {
        if self.records.len() == 0 {
            return None;
        }
        let mut best: usize = 0;
        let mut i: usize = 1;
        while i < self.records.len()
            invariant
                self@.len() == self.records@.len(),
                0 < i <= self@.len(),
                best < i,
                forall|j: int| 0 <= j < i ==> self@[j].1 <= self@[best as int].1,
                forall|j: int| best < j < i ==> self@[j].1 < self@[best as int].1,
            decreases self.records@.len() - i,
        {
            if self.records[i].published >= self.records[best].published {
                best = i;
            }
            i = i + 1;
        }
        let g = self.records[best].guid.clone();
        let t = self.records[best].published;
        assert(is_latest(self@, best as int));
        assert(self@[best as int] == (g@, t as int));
        proof {
            lemma_latest_time(self@, best as int, choose|i: int| is_latest(self@, i));
        }
        Some((g, t))
    }
}

} // verus!
