use vstd::prelude::*;
use crate::appservice::str_eq;
use crate::error::Error;
use crate::globals::Globals;

verus! {

/// A position in a room's timeline: backfilled events count down from the
/// earliest known one, appended events count up.
#[derive(Clone, Copy, Debug, PartialEq, Eq, Structural)]
pub enum PduCount {
    Backfilled(u64),
    Normal(u64),
}

/// `a` comes before `b`: every backfilled count precedes every appended
/// one.
pub open spec fn precedes(a: PduCount, b: PduCount) -> bool {
    match (a, b) {
        (PduCount::Backfilled(x), PduCount::Backfilled(y)) => x > y,
        (PduCount::Backfilled(_), PduCount::Normal(_)) => true,
        (PduCount::Normal(_), PduCount::Backfilled(_)) => false,
        (PduCount::Normal(x), PduCount::Normal(y)) => x < y,
    }
}

impl PduCount {
    /// The latest possible count.
    pub fn max() -> (r: PduCount)
        ensures
            r == PduCount::Normal(u64::MAX),
    {
        PduCount::Normal(u64::MAX)
    }

    /// The earliest possible count.
    pub fn min() -> (r: PduCount)
        ensures
            r == PduCount::Backfilled(u64::MAX),
    {
        PduCount::Backfilled(u64::MAX)
    }

    /// Whether `self` comes before `other` in the timeline.
    pub fn is_before(&self, other: &PduCount) -> (r: bool)
        ensures
            r == precedes(*self, *other),
    {
        match (self, other) {
            (PduCount::Backfilled(a), PduCount::Backfilled(b)) => a > b,
            (PduCount::Backfilled(_), PduCount::Normal(_)) => true,
            (PduCount::Normal(_), PduCount::Backfilled(_)) => false,
            (PduCount::Normal(a), PduCount::Normal(b)) => a < b,
        }
    }
}

/// Counts of a log: positive and strictly increasing.
pub open spec fn counts_increasing(log: Seq<(u64, Seq<char>)>) -> bool {
    &&& forall|i: int| 0 <= i < log.len() ==> (#[trigger] log[i]).0 > 0
    &&& forall|i: int, j: int| 0 <= i < j < log.len() ==> (#[trigger] log[i]).0 < (#[trigger] log[j]).0
}

/// The view of a log of entries.
pub open spec fn log_view(v: Seq<(u64, String)>) -> Seq<(u64, Seq<char>)> {
    v.map_values(|e: (u64, String)| (e.0, e.1@))
}

/// A room's timeline: event ids under the counts they were appended with.
pub struct Timeline {
    entries: Vec<(u64, String)>,
}

impl Timeline {
    pub closed spec fn log(&self) -> Seq<(u64, Seq<char>)> {
        log_view(self.entries@)
    }

    /// Counts are positive, strictly increasing, and none is beyond the
    /// global counter.
    pub open spec fn wf(&self, g: &Globals) -> bool {
        &&& g.wf()
        &&& counts_increasing(self.log())
        &&& forall|i: int| 0 <= i < self.log().len() ==> (#[trigger] self.log()[i]).0 <= g.count()
    }

    pub fn new() -> (r: Timeline)
        ensures
            r.log() == Seq::<(u64, Seq<char>)>::empty(),
            forall|g: &Globals| g.wf() ==> r.wf(g),
    {
        let r = Timeline { entries: Vec::new() };
        assert(r.log() =~= Seq::<(u64, Seq<char>)>::empty());
        r
    }

    /// The entries, in timeline order.
    pub fn entries(&self) -> (r: &Vec<(u64, String)>)
        ensures
            log_view(r@) == self.log(),
    {
        &self.entries
    }

    /// Appends an event under a fresh count from the global counter.
    pub fn append(&mut self, g: &mut Globals, event_id: String) -> (r: Result<u64, Error>)
        requires
            old(self).wf(old(g)),
        ensures
            final(self).wf(final(g)),
            r is Err <==> old(g).count() == u64::MAX,
            r is Ok ==> r->Ok_0 == old(g).count() + 1,
            r is Ok ==> final(self).log() == old(self).log().push((r->Ok_0, event_id@)),
            r is Err ==> final(self).log() == old(self).log(),
            final(g).count() >= old(g).count(),
    {
        let c = match g.next_count() {
            Ok(c) => c,
            Err(e) => return Err(e),
        };
        let ghost before = self.entries@;
        self.entries.push((c, event_id));
        assert(self.log() =~= log_view(before).push((c, event_id@)));
        Ok(c)
    }
}

/// Every timeline entry has a positive count, and counts within a room
/// strictly increase along the timeline.
pub proof fn lemma_timeline_counts(t: &Timeline, g: &Globals)
    requires
        t.wf(g),
    ensures
        forall|i: int| 0 <= i < t.log().len() ==> (#[trigger] t.log()[i]).0 > 0,
        forall|i: int, j: int| 0 <= i < j < t.log().len() ==> (#[trigger] t.log()[i]).0 < (#[trigger] t.log()[j]).0,
{
}

/// The entries of a log whose count lies in `(since, upto]`, in order.
pub open spec fn between(log: Seq<(u64, Seq<char>)>, since: u64, upto: u64) -> Seq<(u64, Seq<char>)> {
    log.filter(|e: (u64, Seq<char>)| since < e.0 && e.0 <= upto)
}

proof fn lemma_filter_none<A>(s: Seq<A>, pred: spec_fn(A) -> bool)
    requires
        forall|k: int| 0 <= k < s.len() ==> !pred(#[trigger] s[k]),
    ensures
        s.filter(pred) == Seq::<A>::empty(),
    decreases s.len(),
{
    reveal(Seq::filter);
    if s.len() > 0 {
        lemma_filter_none(s.drop_last(), pred);
    }
}

/// Syncing from `since` up to a first batch, then from that batch up to a
/// second one, hands out each event at most once and, together, exactly the
/// events of one sync from `since` up to the second batch.
pub proof fn lemma_sync_monotonic(log: Seq<(u64, Seq<char>)>, since: u64, first: u64, second: u64)
    requires
        counts_increasing(log),
        since <= first <= second,
    ensures
        between(log, since, first) + between(log, first, second) == between(log, since, second),
        forall|i: int, j: int|
            0 <= i < between(log, since, first).len() && 0 <= j < between(log, first, second).len() ==> (
            #[trigger] between(log, since, first)[i]).0 != (#[trigger] between(log, first, second)[j]).0,
    decreases log.len(),
{
    reveal(Seq::filter);
    broadcast use Seq::lemma_filter_pred;

    if log.len() > 0 {
        let rest = log.drop_last();
        assert forall|i: int, j: int| 0 <= i < j < rest.len() implies (#[trigger] rest[i]).0 < (
        #[trigger] rest[j]).0 by {
            assert(log[i].0 < log[j].0);
        }
        lemma_sync_monotonic(rest, since, first, second);
        let e = log.last();
        if e.0 <= first {
            assert forall|k: int| 0 <= k < rest.len() implies !(first < (#[trigger] rest[k]).0) by {
                assert(log[k].0 < log[log.len() - 1].0);
            }
            lemma_filter_none(rest, |e: (u64, Seq<char>)| first < e.0 && e.0 <= second);
        }
        if since < e.0 && e.0 <= first {
            assert(between(log, since, first) + between(log, first, second) =~= between(rest, since, first).push(e));
        } else if first < e.0 && e.0 <= second {
            assert(between(log, since, first) + between(log, first, second) =~= (between(rest, since, first)
                + between(rest, first, second)).push(e));
        } else {
            assert(between(log, since, first) + between(log, first, second) =~= between(rest, since, first)
                + between(rest, first, second));
        }
    }
}

/// The entries before `first` have a count of at most `since`, those from
/// it on a larger one.
pub open spec fn splits_at(log: Seq<(u64, Seq<char>)>, since: u64, first: int) -> bool {
    &&& 0 <= first <= log.len()
    &&& forall|i: int| 0 <= i < first ==> (#[trigger] log[i]).0 <= since
    &&& forall|i: int| first <= i < log.len() ==> (#[trigger] log[i]).0 > since
}

/// The window of a sync: the last `limit` entries with a count above
/// `since` (all of them if fewer), in timeline order, and whether older
/// ones were left out.
pub fn load_timeline(entries: &Vec<(u64, String)>, since: u64, limit: usize) -> (r: (Vec<(u64, String)>, bool))
    requires
        counts_increasing(log_view(entries@)),
    ensures
        ({
            let log = log_view(entries@);
            let n = log.len() as int;
            exists|first: int|
                #[trigger] splits_at(log, since, first) && log_view(r.0@) == log.subrange(
                    if n - first > limit { n - limit } else { first },
                    n,
                ) && r.1 == (n - first > limit)
        }),
{
    let ghost log = log_view(entries@);
    let n = entries.len();
    let mut first: usize = n;
    while first > 0 && entries[first - 1].0 > since
        invariant
            first <= n,
            n == log.len(),
            log == log_view(entries@),
            forall|i: int| first <= i < n ==> (#[trigger] log[i]).0 > since,
        decreases first,
    {
        first -= 1;
    }
    proof {
        if first > 0 {
            assert(log[first - 1].0 <= since);
            assert forall|i: int| 0 <= i < first implies (#[trigger] log[i]).0 <= since by {
                if i < first - 1 {
                    assert(log[i].0 < log[first - 1].0);
                }
            }
        }
    }
    let limited = n - first > limit;
    let start = if limited {
        n - limit
    } else {
        first
    };
    let mut r: Vec<(u64, String)> = Vec::new();
    let mut i: usize = start;
    while i < n
        invariant
            start <= i <= n,
            n == log.len(),
            log == log_view(entries@),
            log_view(r@) == log.subrange(start as int, i as int),
        decreases n - i,
    {
        let ghost before = r@;
        r.push((entries[i].0, entries[i].1.clone()));
        assert(log_view(r@) =~= log_view(before).push(log[i as int]));
        i += 1;
        assert(log_view(r@) =~= log.subrange(start as int, i as int));
    }
    assert(splits_at(log, since, first as int));
    (r, limited)
}

/// The ids of a list of event ids.
pub open spec fn id_set(v: Seq<String>) -> Set<Seq<char>> {
    Set::new(|x: Seq<char>| exists|i: int| 0 <= i < v.len() && v[i]@ == x)
}

/// Whether `v` holds the id `x`.
pub fn holds_id(v: &Vec<String>, x: &str) -> (r: bool)
    ensures
        r == id_set(v@).contains(x@),
{
    let mut i: usize = 0;
    while i < v.len()
        invariant
            i <= v@.len(),
            forall|j: int| 0 <= j < i ==> v@[j]@ != x@,
        decreases v@.len() - i,
    {
        if str_eq(v[i].as_str(), x) {
            return true;
        }
        i += 1;
    }
    false
}

/// The forward extremities after an event joins the timeline.
pub open spec fn extremities_after(
    extremities: Set<Seq<char>>,
    prev: Set<Seq<char>>,
    new_id: Seq<char>,
    referenced: bool,
) -> Set<Seq<char>> {
    if referenced {
        extremities.difference(prev)
    } else {
        extremities.difference(prev).insert(new_id)
    }
}

/// The forward extremities after an event is appended to the timeline:
/// those it names as previous events are covered, and it becomes one itself
/// unless a stored event already names it as previous. Outliers never come
/// here.
pub fn update_forward_extremities(
    extremities: &Vec<String>,
    prev_events: &Vec<String>,
    new_event: &str,
    already_referenced: bool,
) -> (r: Vec<String>)
    ensures
        id_set(r@) == extremities_after(id_set(extremities@), id_set(prev_events@), new_event@, already_referenced),
{
    let mut r: Vec<String> = Vec::new();
    let mut i: usize = 0;
    while i < extremities.len()
        invariant
            i <= extremities@.len(),
            id_set(r@) == Set::new(
                |x: Seq<char>|
                    exists|j: int| 0 <= j < i && extremities@[j]@ == x && !id_set(prev_events@).contains(x),
            ),
        decreases extremities@.len() - i,
    {
        let ghost before = r@;
        if !holds_id(prev_events, extremities[i].as_str()) {
            r.push(extremities[i].clone());
            proof {
                assert forall|x: Seq<char>| id_set(r@).contains(x) implies exists|j: int|
                    0 <= j < i + 1 && extremities@[j]@ == x && !id_set(prev_events@).contains(x) by {
                    let k = choose|k: int| 0 <= k < r@.len() && r@[k]@ == x;
                    if k < before.len() {
                        assert(id_set(before).contains(x));
                    }
                }
                assert forall|x: Seq<char>| (exists|j: int|
                    0 <= j < i + 1 && extremities@[j]@ == x && !id_set(prev_events@).contains(x)) implies id_set(
                    r@,
                ).contains(x) by {
                    let j = choose|j: int|
                        0 <= j < i + 1 && extremities@[j]@ == x && !id_set(prev_events@).contains(x);
                    if j < i {
                        assert(id_set(before).contains(x));
                        let k = choose|k: int| 0 <= k < before.len() && before[k]@ == x;
                        assert(r@[k]@ == x);
                    } else {
                        assert(r@[before.len() as int]@ == x);
                    }
                }
            }
        } else {
            proof {
                assert forall|x: Seq<char>| (exists|j: int|
                    0 <= j < i + 1 && extremities@[j]@ == x && !id_set(prev_events@).contains(x)) implies id_set(
                    r@,
                ).contains(x) by {
                    let j = choose|j: int|
                        0 <= j < i + 1 && extremities@[j]@ == x && !id_set(prev_events@).contains(x);
                    assert(j < i);
                }
            }
        }
        assert(id_set(r@) =~= Set::new(
            |x: Seq<char>|
                exists|j: int| 0 <= j < i + 1 && extremities@[j]@ == x && !id_set(prev_events@).contains(x),
        ));
        i += 1;
    }
    if already_referenced {
        proof {
            assert forall|x: Seq<char>| id_set(r@).contains(x) <==> id_set(extremities@).difference(
                id_set(prev_events@),
            ).contains(x) by {
                if id_set(extremities@).difference(id_set(prev_events@)).contains(x) {
                    let j = choose|j: int| 0 <= j < extremities@.len() && extremities@[j]@ == x;
                }
            }
            assert(id_set(r@) =~= id_set(extremities@).difference(id_set(prev_events@)));
        }
        return r;
    }
    let ghost before = r@;
    r.push(String::from_str(new_event));
    proof {
        assert forall|x: Seq<char>| id_set(r@).contains(x) <==> id_set(extremities@).difference(
            id_set(prev_events@),
        ).insert(new_event@).contains(x) by {
            if id_set(r@).contains(x) && x != new_event@ {
                let k = choose|k: int| 0 <= k < r@.len() && r@[k]@ == x;
                assert(k < before.len());
                assert(id_set(before).contains(x));
            }
            if x == new_event@ {
                assert(r@[before.len() as int]@ == x);
            } else if id_set(extremities@).difference(id_set(prev_events@)).contains(x) {
                let j = choose|j: int| 0 <= j < extremities@.len() && extremities@[j]@ == x;
                assert(id_set(before).contains(x));
                let k = choose|k: int| 0 <= k < before.len() && before[k]@ == x;
                assert(r@[k]@ == x);
            }
        }
        assert(id_set(r@) =~= id_set(extremities@).difference(id_set(prev_events@)).insert(new_event@));
    }
    r
}

/// An event of a room's graph, as its id and the ids it names as previous
/// events.
pub type GraphEvent = (Seq<char>, Set<Seq<char>>);

/// The events of a graph that no event of it names as a previous event.
pub open spec fn extremities_of(graph: Seq<GraphEvent>) -> Set<Seq<char>> {
    Set::new(
        |x: Seq<char>|
            (exists|i: int| 0 <= i < graph.len() && graph[i].0 == x) && !(exists|j: int|
                0 <= j < graph.len() && #[trigger] graph[j].1.contains(x)),
    )
}

/// When the forward extremities of a room are exactly its events that no
/// event names as previous, they stay so after a new event joins its
/// timeline, whether or not a stored event already named it as previous: no
/// event of the room then names a forward extremity as previous.
pub proof fn lemma_forward_extremities(
    graph: Seq<GraphEvent>,
    extremities: Set<Seq<char>>,
    new_id: Seq<char>,
    prev: Set<Seq<char>>,
)
    requires
        extremities == extremities_of(graph),
        !(exists|i: int| 0 <= i < graph.len() && graph[i].0 == new_id),
        !prev.contains(new_id),
    ensures
        extremities_after(
            extremities,
            prev,
            new_id,
            exists|j: int| 0 <= j < graph.len() && (#[trigger] graph[j].1).contains(new_id),
        ) == extremities_of(graph.push((new_id, prev))),
{
    let g2 = graph.push((new_id, prev));
    let referenced = exists|j: int| 0 <= j < graph.len() && (#[trigger] graph[j].1).contains(new_id);
    let lhs = extremities_after(extremities, prev, new_id, referenced);
    assert forall|x: Seq<char>| lhs.contains(x) <==> extremities_of(g2).contains(x) by {
        if x == new_id {
            assert(g2[graph.len() as int].0 == x);
            if referenced {
                let j = choose|j: int| 0 <= j < graph.len() && (#[trigger] graph[j].1).contains(new_id);
                assert(g2[j] == graph[j]);
                assert(!extremities.contains(x));
            } else {
                assert forall|j: int| 0 <= j < g2.len() implies !(#[trigger] g2[j].1).contains(x) by {
                    if j < graph.len() {
                        assert(g2[j] == graph[j]);
                    }
                }
            }
        } else {
            if extremities_of(g2).contains(x) {
                let i = choose|i: int| 0 <= i < g2.len() && g2[i].0 == x;
                assert(i < graph.len());
                assert(graph[i].0 == x);
                assert(!g2[graph.len() as int].1.contains(x));
                assert forall|j: int| 0 <= j < graph.len() implies !(#[trigger] graph[j].1).contains(x) by {
                    assert(g2[j] == graph[j]);
                }
            }
            if lhs.contains(x) {
                let i = choose|i: int| 0 <= i < graph.len() && graph[i].0 == x;
                assert(g2[i].0 == x);
                assert forall|j: int| 0 <= j < g2.len() implies !(#[trigger] g2[j].1).contains(x) by {
                    if j < graph.len() {
                        assert(g2[j] == graph[j]);
                    }
                }
            }
        }
    }
    assert(lhs =~= extremities_of(g2));
}

} // verus!

verus! {

/// The timeline window of a sync that sampled `next_batch` and resumes from
/// `since`: the last `limit` events with a count in `(since, next_batch]`,
/// in timeline order, and whether older ones in that range were left out.
pub fn sync_window(entries: &Vec<(u64, String)>, since: u64, next_batch: u64, limit: usize) -> (r: (
    Vec<(u64, String)>,
    bool,
))
    ensures
        ({
            let w = between(log_view(entries@), since, next_batch);
            &&& r.1 == (w.len() > limit)
            &&& log_view(r.0@) == (if w.len() > limit { w.skip(w.len() - limit) } else { w })
        }),
{
    let ghost log = log_view(entries@);
    let ghost pred = |e: (u64, Seq<char>)| since < e.0 && e.0 <= next_batch;
    let mut all: Vec<(u64, String)> = Vec::new();
    let mut i: usize = 0;
    while i < entries.len()
        invariant
            i <= entries@.len(),
            log == log_view(entries@),
            pred == (|e: (u64, Seq<char>)| since < e.0 && e.0 <= next_batch),
            log_view(all@) == log.take(i as int).filter(pred),
        decreases entries@.len() - i,
    {
        proof {
            crate::tree::lemma_filter_take_step(log, i as int, pred);
        }
        let ghost before = all@;
        let c = entries[i].0;
        if since < c && c <= next_batch {
            all.push((c, entries[i].1.clone()));
            assert(log_view(all@) =~= log_view(before).push(log[i as int]));
        }
        i += 1;
    }
    assert(log.take(i as int) =~= log);
    let n = all.len();
    let limited = n > limit;
    let start = if limited { n - limit } else { 0 };
    let mut r: Vec<(u64, String)> = Vec::new();
    let mut k: usize = start;
    let ghost w = log_view(all@);
    while k < n
        invariant
            start <= k <= n,
            n == all@.len(),
            w == log_view(all@),
            log_view(r@) == w.subrange(start as int, k as int),
        decreases n - k,
    {
        let ghost before = r@;
        r.push((all[k].0, all[k].1.clone()));
        assert(log_view(r@) =~= log_view(before).push(w[k as int]));
        k += 1;
        assert(log_view(r@) =~= w.subrange(start as int, k as int));
    }
    assert(w.subrange(start as int, n as int) =~= (if limited { w.skip(n - limit) } else { w }));
    (r, limited)
}

} // verus!
