use vstd::prelude::*;
use crate::text::chars_of;

verus! {

/// `a` sorts before `b` by Unicode scalar values, a proper prefix first.
pub open spec fn lex_lt(a: Seq<char>, b: Seq<char>) -> bool
    decreases a.len(),
{
    if b.len() == 0 {
        false
    } else if a.len() == 0 {
        true
    } else if (a[0] as u32) < (b[0] as u32) {
        true
    } else if (a[0] as u32) > (b[0] as u32) {
        false
    } else {
        lex_lt(a.drop_first(), b.drop_first())
    }
}

/// Whether `a` sorts before `b`.
pub fn str_less(a: &str, b: &str) -> (r: bool)
    ensures
        r == lex_lt(a@, b@),
{
    let ac = chars_of(a);
    let bc = chars_of(b);
    let mut i: usize = 0;
    assert(a@.skip(0) =~= a@);
    assert(b@.skip(0) =~= b@);
    while i < ac.len() && i < bc.len()
        invariant
            ac@ == a@,
            bc@ == b@,
            i <= ac@.len(),
            i <= bc@.len(),
            lex_lt(a@, b@) == lex_lt(a@.skip(i as int), b@.skip(i as int)),
        decreases ac@.len() - i,
    {
        let (x, y) = (ac[i] as u32, bc[i] as u32);
        if x < y {
            return true;
        }
        if x > y {
            return false;
        }
        assert(a@.skip(i as int).drop_first() =~= a@.skip(i + 1));
        assert(b@.skip(i as int).drop_first() =~= b@.skip(i + 1));
        i += 1;
    }
    i < bc.len()
}

/// One of several concurrent power events (none is an ancestor of another,
/// so their auth edges do not order them), as the resolver orders it: by
/// origin timestamp, then by id.
#[derive(Clone, Debug)]
pub struct PowerEvent {
    pub origin_server_ts: u64,
    pub event_id: String,
}

/// `a` comes before `b`: the earlier timestamp first, then the smaller
/// event id.
pub open spec fn sorts_before(a: PowerEvent, b: PowerEvent) -> bool {
    a.origin_server_ts < b.origin_server_ts || (a.origin_server_ts == b.origin_server_ts && lex_lt(
        a.event_id@,
        b.event_id@,
    ))
}

/// The view of a power event.
pub open spec fn power_view(e: PowerEvent) -> (u64, Seq<char>) {
    (e.origin_server_ts, e.event_id@)
}

/// The position of the first of a list of concurrent power events in the
/// resolver's order; of two that tie, the earlier in the list.
pub open spec fn first_in_order(s: Seq<PowerEvent>) -> Option<int>
    decreases s.len(),
{
    if s.len() == 0 {
        None
    } else {
        match first_in_order(s.drop_last()) {
            None => Some(s.len() - 1),
            Some(w) => if sorts_before(s.last(), s[w]) {
                Some(s.len() - 1)
            } else {
                Some(w)
            },
        }
    }
}

proof fn lemma_first_in_order_bounds(s: Seq<PowerEvent>)
    ensures
        s.len() == 0 <==> first_in_order(s) is None,
        first_in_order(s) is Some ==> 0 <= first_in_order(s)->Some_0 < s.len(),
    decreases s.len(),
{
    if s.len() > 0 {
        lemma_first_in_order_bounds(s.drop_last());
    }
}

/// The concurrent power event that wins: the first in the resolver's order.
pub fn resolve_power_event(candidates: &Vec<PowerEvent>) -> (r: Option<usize>)
    ensures
        r is None <==> candidates@.len() == 0,
        r is Some ==> r->Some_0 < candidates@.len() && first_in_order(candidates@) == Some(r->Some_0 as int),
{
    let mut best: Option<usize> = None;
    let mut i: usize = 0;
    while i < candidates.len()
        invariant
            i <= candidates@.len(),
            first_in_order(candidates@.take(i as int)) == match best {
                Some(b) => Some(b as int),
                None => None::<int>,
            },
            best is Some ==> best->Some_0 < i,
            best is None <==> i == 0,
        decreases candidates@.len() - i,
    {
        let ghost prefix = candidates@.take(i + 1);
        assert(prefix.drop_last() =~= candidates@.take(i as int));
        assert(prefix.last() == candidates@[i as int]);
        best = match best {
            None => Some(i),
            Some(b) => {
                assert(prefix[b as int] == candidates@[b as int]);
                let c = &candidates[i];
                let w = &candidates[b];
                let before = c.origin_server_ts < w.origin_server_ts || (c.origin_server_ts == w.origin_server_ts
                    && str_less(c.event_id.as_str(), w.event_id.as_str()));
                if before {
                    Some(i)
                } else {
                    Some(b)
                }
            },
        };
        i += 1;
    }
    assert(candidates@.take(candidates@.len() as int) =~= candidates@);
    best
}

/// Of two concurrent power events with the same timestamp, the one with the
/// lexicographically smaller id wins, in whichever order they arrived.
pub proof fn lemma_tie_break(a: PowerEvent, b: PowerEvent)
    requires
        a.origin_server_ts == b.origin_server_ts,
        lex_lt(a.event_id@, b.event_id@),
    ensures
        first_in_order(seq![a, b]) == Some(0int),
        first_in_order(seq![b, a]) == Some(1int),
{
    reveal_with_fuel(first_in_order, 3);
    assert(seq![a, b].drop_last() =~= seq![a]);
    assert(seq![b, a].drop_last() =~= seq![b]);
    assert(seq![a].drop_last() =~= Seq::<PowerEvent>::empty());
    assert(seq![b].drop_last() =~= Seq::<PowerEvent>::empty());
    lemma_lex_lt_asym(a.event_id@, b.event_id@);
}

proof fn lemma_lex_lt_asym(a: Seq<char>, b: Seq<char>)
    requires
        lex_lt(a, b),
    ensures
        !lex_lt(b, a),
    decreases a.len(),
{
    if a.len() > 0 && b.len() > 0 && (a[0] as u32) == (b[0] as u32) {
        lemma_lex_lt_asym(a.drop_first(), b.drop_first());
    }
}

/// Resolution is deterministic: candidates that agree on timestamp and id
/// give the same winner.
pub proof fn lemma_resolution_deterministic(a: Seq<PowerEvent>, b: Seq<PowerEvent>)
    requires
        a.len() == b.len(),
        forall|i: int| 0 <= i < a.len() ==> power_view(#[trigger] a[i]) == power_view(b[i]),
    ensures
        first_in_order(a) == first_in_order(b),
    decreases a.len(),
{
    if a.len() > 0 {
        lemma_resolution_deterministic(a.drop_last(), b.drop_last());
        lemma_first_in_order_bounds(a.drop_last());
        assert(power_view(a.last()) == power_view(b.last()));
        match first_in_order(a.drop_last()) {
            Some(w) => {
                assert(power_view(a[w]) == power_view(b[w]));
            },
            None => {},
        }
    }
}

} // verus!
