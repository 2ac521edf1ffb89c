//! The decisions of one poll tick: which fetched entries are new, and
//! which of them are announced once they are stored.
use vstd::prelude::*;
use crate::entry::FeedEntry;
use crate::store::{
    EntryStore, InsertOutcome, has_guid, inserted, insert_outcome, law_watermark_is_greatest,
    unique_guids, watermark_of,
};

verus! {

/// An entry published at `t` is new against watermark `w`: strictly later
/// than it, or any entry when there is no watermark.
pub open spec fn is_new(t: int, w: Option<int>) -> bool {
    match w {
        None => true,
        Some(x) => t > x,
    }
}

/// Positions among the first `n` entries of `es` that are new against `w`,
/// in feed order.
pub open spec fn new_positions(es: Seq<FeedEntry>, w: Option<int>, n: int) -> Seq<int>
    decreases n,
{
    if n <= 0 {
        Seq::empty()
    } else if is_new(es[n - 1].published as int, w) {
        new_positions(es, w, n - 1).push(n - 1)
    } else {
        new_positions(es, w, n - 1)
    }
}

/// The positions that `new_positions` picks lie below `n`, in increasing order.
pub proof fn lemma_new_positions_bounds(es: Seq<FeedEntry>, w: Option<int>, n: int)
    ensures
        forall|k: int|
            0 <= k < new_positions(es, w, n).len() ==> 0 <= #[trigger] new_positions(es, w, n)[k]
                < n,
        forall|a: int, b: int|
            0 <= a < b < new_positions(es, w, n).len() ==> #[trigger] new_positions(es, w, n)[a]
                < #[trigger] new_positions(es, w, n)[b],
        new_positions(es, w, n).len() <= if n < 0 { 0 } else { n },
    decreases n,
{
    if n > 0 {
        lemma_new_positions_bounds(es, w, n - 1);
    }
}

/// Whether an entry is announced after its insert: only outside the
/// initial backfill, and only when the insert wrote a new record.
pub open spec fn announces(w: Option<int>, o: InsertOutcome) -> bool {
    w is Some && o == InsertOutcome::Inserted
}

/// The store after inserting the entries of `es` at positions `ps`, in order.
pub open spec fn after_inserts(
    v: Seq<(Seq<char>, int)>,
    es: Seq<FeedEntry>,
    ps: Seq<int>,
) -> Seq<(Seq<char>, int)>
    decreases ps.len(),
{
    if ps.len() == 0 {
        v
    } else {
        let e = es[ps.last()];
        inserted(after_inserts(v, es, ps.drop_last()), e.guid@, e.published as int)
    }
}

/// Positions among `ps` that are announced when inserted in order into `v`.
pub open spec fn announced(
    v: Seq<(Seq<char>, int)>,
    es: Seq<FeedEntry>,
    ps: Seq<int>,
    w: Option<int>,
) -> Seq<int>
    decreases ps.len(),
{
    if ps.len() == 0 {
        Seq::empty()
    } else {
        let e = es[ps.last()];
        let before = announced(v, es, ps.drop_last(), w);
        if announces(w, insert_outcome(after_inserts(v, es, ps.drop_last()), e.guid@)) {
            before.push(ps.last())
        } else {
            before
        }
    }
}

/// Records for the entries of `es` at positions `ps`, in that order.
pub open spec fn records_of(es: Seq<FeedEntry>, ps: Seq<int>) -> Seq<(Seq<char>, int)> {
    ps.map_values(|p: int| (es[p].guid@, es[p].published as int))
}

/// No two entries of `es` share a guid.
pub open spec fn distinct_guids(es: Seq<FeedEntry>) -> bool {
    forall|i: int, j: int| 0 <= i < j < es.len() ==> #[trigger] es[i].guid@ != #[trigger] es[j].guid@
}

/// Without a watermark every entry is new.
pub proof fn lemma_all_new(es: Seq<FeedEntry>, n: int)
    requires
        0 <= n,
    ensures
        new_positions(es, None, n).len() == n,
    decreases n,
{
    if n > 0 {
        lemma_all_new(es, n - 1);
    }
}

/// Inserting entries whose guids are distinct and not yet stored writes one
/// record for each, in order, and announces each outside the backfill.
pub proof fn lemma_fresh_inserts(
    v: Seq<(Seq<char>, int)>,
    es: Seq<FeedEntry>,
    ps: Seq<int>,
    w: Option<int>,
)
    requires
        distinct_guids(es),
        forall|k: int| 0 <= k < es.len() ==> !has_guid(v, #[trigger] es[k].guid@),
        forall|k: int| 0 <= k < ps.len() ==> 0 <= #[trigger] ps[k] < es.len(),
        forall|a: int, b: int| 0 <= a < b < ps.len() ==> #[trigger] ps[a] < #[trigger] ps[b],
    ensures
        after_inserts(v, es, ps) == v + records_of(es, ps),
        announced(v, es, ps, w) == (if w is Some { ps } else { Seq::<int>::empty() }),
    decreases ps.len(),
{
    if ps.len() == 0 {
        assert(v + records_of(es, ps) =~= v);
    } else {
        let qs = ps.drop_last();
        lemma_fresh_inserts(v, es, qs, w);
        let p = ps.last();
        let g = es[p].guid@;
        let before = v + records_of(es, qs);
        assert(!has_guid(before, g)) by {
            if has_guid(before, g) {
                let i = choose|i: int| 0 <= i < before.len() && before[i].0 == g;
                if i >= v.len() {
                    let k = i - v.len();
                    assert(qs[k] < p);
                    assert(es[qs[k]].guid@ == g);
                } else {
                    assert(v[i].0 == g);
                }
            }
        }
        assert(before.push((g, es[p].published as int)) =~= v + records_of(es, ps));
        if w is Some {
            assert(qs.push(p) =~= ps);
        }
    }
}

/// A guid that is stored already is refused on a second insert: the store
/// keeps exactly one record with it, and the refused entry is not announced.
pub proof fn law_insert_idempotent(
    v: Seq<(Seq<char>, int)>,
    g: Seq<char>,
    t1: int,
    t2: int,
    w: Option<int>,
)
    requires
        unique_guids(v),
    ensures
        insert_outcome(inserted(v, g, t1), g) == InsertOutcome::DuplicateGuid,
        inserted(inserted(v, g, t1), g, t2) == inserted(v, g, t1),
        unique_guids(inserted(v, g, t1)),
        exists|i: int|
            0 <= i < inserted(v, g, t1).len() && #[trigger] inserted(v, g, t1)[i].0 == g && forall|
                j: int,
            |
                0 <= j < inserted(v, g, t1).len() && #[trigger] inserted(v, g, t1)[j].0 == g ==> j
                    == i,
        !announces(w, insert_outcome(inserted(v, g, t1), g)),
{
    let v1 = inserted(v, g, t1);
    if has_guid(v, g) {
        let i = choose|i: int| 0 <= i < v.len() && v[i].0 == g;
        assert(v1[i].0 == g);
    } else {
        let i = v.len() as int;
        assert(v1[i].0 == g);
        assert forall|a: int, b: int| 0 <= a < b < v1.len() implies #[trigger] v1[a].0
            != #[trigger] v1[b].0 by {
            if b == i {
                assert(v[a].0 != g);
            } else {
                assert(v1[a] == v[a] && v1[b] == v[b]);
            }
        }
        assert(forall|j: int| 0 <= j < v.len() ==> v1[j] == v[j]);
    }
    assert(has_guid(v1, g));
}

/// On an empty store a tick stores every fetched entry and announces none,
/// when the fetched guids are distinct.
pub proof fn law_backfill_is_silent(es: Seq<FeedEntry>)
    requires
        distinct_guids(es),
    ensures
        after_inserts(
            Seq::empty(),
            es,
            new_positions(es, watermark_of(Seq::empty()), es.len() as int),
        ).len() == es.len(),
        announced(
            Seq::empty(),
            es,
            new_positions(es, watermark_of(Seq::empty()), es.len() as int),
            watermark_of(Seq::empty()),
        ) == Seq::<int>::empty(),
{
    let v = Seq::<(Seq<char>, int)>::empty();
    let ps = new_positions(es, None, es.len() as int);
    lemma_all_new(es, es.len() as int);
    lemma_new_positions_bounds(es, None, es.len() as int);
    lemma_fresh_inserts(v, es, ps, None);
}

/// With a watermark, a tick inserts and announces exactly the entries
/// published after it, in feed order, when their guids are distinct and
/// not yet stored.
pub proof fn law_incremental_detection(v: Seq<(Seq<char>, int)>, es: Seq<FeedEntry>)
    requires
        v.len() > 0,
        distinct_guids(es),
        forall|k: int| 0 <= k < es.len() ==> !has_guid(v, #[trigger] es[k].guid@),
    ensures
        watermark_of(v) is Some,
        ({
            let w = watermark_of(v);
            let ps = new_positions(es, w, es.len() as int);
            &&& announced(v, es, ps, w) == ps
            &&& after_inserts(v, es, ps) == v + records_of(es, ps)
        }),
{
    let w = watermark_of(v);
    let ps = new_positions(es, w, es.len() as int);
    lemma_new_positions_bounds(es, w, es.len() as int);
    lemma_fresh_inserts(v, es, ps, w);
}

/// Positions picked against watermark `w` are exactly the new ones.
pub proof fn lemma_new_positions_exact(es: Seq<FeedEntry>, w: Option<int>, n: int, p: int)
    requires
        0 <= p < n <= es.len(),
    ensures
        new_positions(es, w, n).contains(p) <==> is_new(es[p].published as int, w),
    decreases n,
{
    lemma_new_positions_bounds(es, w, n - 1);
    if p < n - 1 {
        lemma_new_positions_exact(es, w, n - 1, p);
        let prev = new_positions(es, w, n - 1);
        if is_new(es[n - 1].published as int, w) {
            let q = prev.push(n - 1);
            if prev.contains(p) {
                let k = choose|k: int| 0 <= k < prev.len() && prev[k] == p;
                assert(q[k] == p);
            }
            if q.contains(p) {
                let k = choose|k: int| 0 <= k < q.len() && q[k] == p;
                assert(k < prev.len());
                assert(prev[k] == p);
            }
        }
    } else {
        let prev = new_positions(es, w, n - 1);
        if is_new(es[n - 1].published as int, w) {
            assert(prev.push(n - 1)[prev.len() as int] == p);
        } else {
            assert(!prev.contains(p));
        }
    }
}

/// Positions among `ps` that a tick announces when the insert of `ps[k]`
/// reports `outs[k]`.
pub open spec fn announced_for(w: Option<int>, ps: Seq<int>, outs: Seq<InsertOutcome>) -> Seq<int>
    decreases ps.len(),
{
    if ps.len() == 0 || outs.len() != ps.len() {
        Seq::empty()
    } else {
        let before = announced_for(w, ps.drop_last(), outs.drop_last());
        if announces(w, outs.last()) {
            before.push(ps.last())
        } else {
            before
        }
    }
}

/// A failed insert keeps no other entry of the tick from being handled:
/// each entry is announced exactly when its own insert wrote a record
/// outside the backfill, whatever the other inserts report.
pub proof fn law_failure_is_isolated(
    w: Option<int>,
    ps: Seq<int>,
    outs: Seq<InsertOutcome>,
    j: int,
)
    requires
        outs.len() == ps.len(),
        forall|a: int, b: int| 0 <= a < b < ps.len() ==> #[trigger] ps[a] < #[trigger] ps[b],
        0 <= j < ps.len(),
    ensures
        announced_for(w, ps, outs).contains(ps[j]) <==> announces(w, outs[j]),
    decreases ps.len(),
{
    let qs = ps.drop_last();
    let os = outs.drop_last();
    let before = announced_for(w, qs, os);
    lemma_announced_for_within(w, qs, os);
    let last = ps.len() - 1;
    if j < last {
        law_failure_is_isolated(w, qs, os, j);
        assert(qs[j] == ps[j] && os[j] == outs[j]);
        if announces(w, outs.last()) {
            let q = before.push(ps.last());
            if before.contains(ps[j]) {
                let k = choose|k: int| 0 <= k < before.len() && before[k] == ps[j];
                assert(q[k] == ps[j]);
            }
            if q.contains(ps[j]) {
                let k = choose|k: int| 0 <= k < q.len() && q[k] == ps[j];
                if k == before.len() {
                    assert(ps[j] < ps[last]);
                } else {
                    assert(before[k] == ps[j]);
                }
            }
        }
    } else {
        if announces(w, outs.last()) {
            assert(before.push(ps.last())[before.len() as int] == ps[j]);
        } else if before.contains(ps[j]) {
            let k = choose|k: int| 0 <= k < before.len() && before[k] == ps[j];
            assert(qs.contains(before[k]));
            let i = choose|i: int| 0 <= i < qs.len() && qs[i] == before[k];
            assert(ps[i] < ps[last]);
        }
    }
}

/// Every announced position is one of `ps`.
pub proof fn lemma_announced_for_within(w: Option<int>, ps: Seq<int>, outs: Seq<InsertOutcome>)
    ensures
        forall|k: int|
            0 <= k < announced_for(w, ps, outs).len() ==> ps.contains(
                #[trigger] announced_for(w, ps, outs)[k],
            ),
    decreases ps.len(),
{
    if ps.len() > 0 && outs.len() == ps.len() {
        let qs = ps.drop_last();
        lemma_announced_for_within(w, qs, outs.drop_last());
        let before = announced_for(w, qs, outs.drop_last());
        assert forall|k: int| 0 <= k < announced_for(w, ps, outs).len() implies ps.contains(
            #[trigger] announced_for(w, ps, outs)[k],
        ) by {
            if k < before.len() {
                let i = choose|i: int| 0 <= i < qs.len() && qs[i] == before[k];
                assert(ps[i] == qs[i]);
            } else {
                assert(ps[ps.len() - 1] == ps.last());
            }
        }
    }
}

/// Inserting keeps every record already stored, and afterwards each
/// inserted entry's guid is stored.
pub proof fn lemma_after_inserts_keeps(v: Seq<(Seq<char>, int)>, es: Seq<FeedEntry>, ps: Seq<int>)
    ensures
        after_inserts(v, es, ps).len() >= v.len(),
        forall|i: int| 0 <= i < v.len() ==> #[trigger] after_inserts(v, es, ps)[i] == v[i],
        forall|k: int| 0 <= k < ps.len() ==> has_guid(after_inserts(v, es, ps), #[trigger] es[ps[k]].guid@),
    decreases ps.len(),
{
    if ps.len() > 0 {
        let qs = ps.drop_last();
        lemma_after_inserts_keeps(v, es, qs);
        let u = after_inserts(v, es, qs);
        let e = es[ps.last()];
        let u1 = inserted(u, e.guid@, e.published as int);
        assert(forall|i: int| 0 <= i < u.len() ==> u1[i] == u[i]);
        if !has_guid(u, e.guid@) {
            assert(u1[u.len() as int].0 == e.guid@);
        }
        assert forall|k: int| 0 <= k < ps.len() implies has_guid(u1, #[trigger] es[ps[k]].guid@) by {
            if k < qs.len() {
                assert(qs[k] == ps[k]);
                let i = choose|i: int| 0 <= i < u.len() && u[i].0 == es[qs[k]].guid@;
                assert(u1[i] == u[i]);
            }
        }
    }
}

/// A store whose records are all kept in a longer one has a watermark no
/// later than the longer one's.
pub proof fn lemma_watermark_grows(v: Seq<(Seq<char>, int)>, u: Seq<(Seq<char>, int)>)
    requires
        v.len() > 0,
        u.len() >= v.len(),
        forall|i: int| 0 <= i < v.len() ==> u[i] == v[i],
    ensures
        watermark_of(u) is Some,
        watermark_of(v)->0 <= watermark_of(u)->0,
{
    law_watermark_is_greatest(v, v);
    law_watermark_is_greatest(u, u);
    let i = choose|i: int| 0 <= i < v.len() && v[i].1 == watermark_of(v)->0;
    assert(u[i] == v[i]);
}

/// Inserting entries whose guids are all stored changes nothing and
/// announces nothing.
pub proof fn lemma_stored_inserts_idle(
    v: Seq<(Seq<char>, int)>,
    es: Seq<FeedEntry>,
    ps: Seq<int>,
    w: Option<int>,
)
    requires
        forall|k: int| 0 <= k < ps.len() ==> has_guid(v, #[trigger] es[ps[k]].guid@),
    ensures
        after_inserts(v, es, ps) == v,
        announced(v, es, ps, w) == Seq::<int>::empty(),
    decreases ps.len(),
{
    if ps.len() > 0 {
        let qs = ps.drop_last();
        assert forall|k: int| 0 <= k < qs.len() implies has_guid(v, #[trigger] es[qs[k]].guid@) by {
            assert(qs[k] == ps[k]);
        }
        lemma_stored_inserts_idle(v, es, qs, w);
        assert(has_guid(v, es[ps[ps.len() - 1]].guid@));
    }
}

/// A second tick over the same fetched entries stores nothing and
/// announces nothing.
pub proof fn law_repeat_tick_is_idle(v: Seq<(Seq<char>, int)>, es: Seq<FeedEntry>)
    ensures
        ({
            let n = es.len() as int;
            let v1 = after_inserts(v, es, new_positions(es, watermark_of(v), n));
            let ps2 = new_positions(es, watermark_of(v1), n);
            &&& after_inserts(v1, es, ps2) == v1
            &&& announced(v1, es, ps2, watermark_of(v1)) == Seq::<int>::empty()
        }),
{
    let n = es.len() as int;
    let w = watermark_of(v);
    let ps = new_positions(es, w, n);
    let v1 = after_inserts(v, es, ps);
    let w1 = watermark_of(v1);
    let ps2 = new_positions(es, w1, n);
    lemma_after_inserts_keeps(v, es, ps);
    if v.len() > 0 {
        lemma_watermark_grows(v, v1);
    }
    lemma_new_positions_bounds(es, w1, n);
    assert forall|k: int| 0 <= k < ps2.len() implies has_guid(v1, #[trigger] es[ps2[k]].guid@) by {
        let p = ps2[k];
        assert(ps2.contains(p));
        lemma_new_positions_exact(es, w1, n, p);
        lemma_new_positions_exact(es, w, n, p);
        assert(ps.contains(p));
        let j = choose|j: int| 0 <= j < ps.len() && ps[j] == p;
        assert(has_guid(v1, es[ps[j]].guid@));
    }
    lemma_stored_inserts_idle(v1, es, ps2, w1);
}

/// What a tick does next.
#[derive(PartialEq, Eq, Structural, Clone, Copy, Debug)]
pub enum Step {
    /// Insert the fetched entry at this position.
    Insert(usize),
    /// Every new entry has been handled.
    Done,
}

/// The state of one tick: the watermark read at its start, the positions
/// of the new entries, and how many of them have been handed out.
pub struct Tick {
    watermark: Option<i64>,
    pending: Vec<usize>,
    next: usize,
}

impl Tick {
    pub closed spec fn watermark(&self) -> Option<int> {
        match self.watermark {
            None => None,
            Some(x) => Some(x as int),
        }
    }

    pub closed spec fn pending(&self) -> Seq<int> {
        self.pending@.map_values(|p: usize| p as int)
    }

    pub closed spec fn next(&self) -> int {
        self.next as int
    }

    pub closed spec fn wf(&self) -> bool {
        self.next <= self.pending@.len()
    }

    /// A tick over `entries` against the watermark read from the store.
    pub fn start(entries: &Vec<FeedEntry>, watermark: Option<i64>) -> (r: Tick)
        ensures
            r.wf(),
            r.watermark() == (match watermark {
                None => None,
                Some(x) => Some(x as int),
            }),
            r.pending() == new_positions(
                entries@,
                match watermark {
                    None => None,
                    Some(x) => Some(x as int),
                },
                entries@.len() as int,
            ),
            r.next() == 0,
    {
        let ghost w = match watermark {
            None => None,
            Some(x) => Some(x as int),
        };
        let mut pending: Vec<usize> = Vec::new();
        let mut i: usize = 0;
        while i < entries.len()
            invariant
                i <= entries@.len(),
                w == (match watermark {
                    None => None,
                    Some(x) => Some(x as int),
                }),
                pending@.map_values(|p: usize| p as int) == new_positions(entries@, w, i as int),
            decreases entries@.len() - i,
        {
            let fresh = match watermark {
                None => true,
                Some(x) => entries[i].published > x,
            };
            let ghost before = pending@;
            if fresh {
                pending.push(i);
                assert(pending@.map_values(|p: usize| p as int) =~= before.map_values(
                    |p: usize| p as int,
                ).push(i as int));
            }
            i = i + 1;
        }
        Tick { watermark, pending, next: 0 }
    }

    /// Whether this tick is the initial backfill: no watermark, so nothing
    /// is announced.
    pub fn is_backfill(&self) -> (r: bool)
        ensures
            r == (self.watermark() is None),
    {
        self.watermark.is_none()
    }

    /// Hands out the next new entry to insert, in feed order.
    pub fn next_step(&mut self) -> (r: Step)
        requires
            old(self).wf(),
        ensures
            final(self).wf(),
            final(self).watermark() == old(self).watermark(),
            final(self).pending() == old(self).pending(),
            old(self).next() < old(self).pending().len() ==> r == Step::Insert(
                old(self).pending()[old(self).next()] as usize,
            ) && final(self).next() == old(self).next() + 1,
            old(self).next() >= old(self).pending().len() ==> r == Step::Done && final(self).next()
                == old(self).next(),
    {
        if self.next < self.pending.len() {
            let p = self.pending[self.next];
            self.next = self.next + 1;
            Step::Insert(p)
        } else {
            Step::Done
        }
    }

    /// Whether the entry whose insert reported `outcome` is announced. The
    /// outcome decides for that entry alone: the tick goes on either way.
    pub fn should_notify(&self, outcome: InsertOutcome) -> (r: bool)
        ensures
            r == announces(self.watermark(), outcome),
    {
        self.watermark.is_some() && outcome == InsertOutcome::Inserted
    }
}

/// Runs one tick against an in-memory store: reads the watermark, inserts
/// each new entry in feed order, and returns the positions to announce.
pub fn run_tick(store: &mut EntryStore, entries: &Vec<FeedEntry>) -> (r: Vec<usize>)
    requires
        old(store).wf(),
    ensures
        final(store).wf(),
        final(store)@ == after_inserts(
            old(store)@,
            entries@,
            new_positions(entries@, watermark_of(old(store)@), entries@.len() as int),
        ),
        r@.map_values(|p: usize| p as int) == announced(
            old(store)@,
            entries@,
            new_positions(entries@, watermark_of(old(store)@), entries@.len() as int),
            watermark_of(old(store)@),
        ),
{
    let ghost v0 = store@;
    let watermark = match store.latest() {
        None => None,
        Some(p) => Some(p.1),
    };
    let mut tick = Tick::start(entries, watermark);
    let ghost w = watermark_of(v0);
    let ghost ps = tick.pending();
    let mut out: Vec<usize> = Vec::new();
    proof {
        lemma_new_positions_bounds(entries@, w, entries@.len() as int);
        assert(ps.take(0) =~= Seq::<int>::empty());
    }
    loop
        invariant
            tick.wf(),
            tick.watermark() == w,
            tick.pending() == ps,
            ps == new_positions(entries@, w, entries@.len() as int),
            store.wf(),
            store@ == after_inserts(v0, entries@, ps.take(tick.next())),
            out@.map_values(|p: usize| p as int) == announced(v0, entries@, ps.take(tick.next()), w),
            forall|k: int| 0 <= k < ps.len() ==> 0 <= #[trigger] ps[k] < entries@.len(),
        ensures
            store.wf(),
            store@ == after_inserts(v0, entries@, ps),
            out@.map_values(|p: usize| p as int) == announced(v0, entries@, ps, w),
        decreases ps.len() - tick.next(),
    {
        let ghost k = tick.next();
        match tick.next_step() {
            Step::Done => {
                assert(ps.take(k) =~= ps);
                break;
            },
            Step::Insert(p) => {
                assert(ps.take(k + 1).drop_last() =~= ps.take(k));
                let o = store.insert(&entries[p].guid, entries[p].published);
                let ghost before = out@;
                if tick.should_notify(o) {
                    out.push(p);
                    assert(out@.map_values(|q: usize| q as int) =~= before.map_values(
                        |q: usize| q as int,
                    ).push(p as int));
                }
            },
        }
    }
    out
}

} // verus!
