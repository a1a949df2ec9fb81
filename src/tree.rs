use vstd::prelude::*;

verus! {

/// A key-value record as the contracts see it.
pub type Pair = (Seq<u8>, Seq<u8>);

/// No key occurs twice.
pub open spec fn distinct_keys(s: Seq<Pair>) -> bool {
    forall|i: int, j: int| 0 <= i < j < s.len() ==> #[trigger] s[i].0 != #[trigger] s[j].0
}

/// The map that a sequence of records with distinct keys stands for.
pub open spec fn pairs_map(s: Seq<Pair>) -> Map<Seq<u8>, Seq<u8>> {
    Map::new(
        |k: Seq<u8>| exists|i: int| 0 <= i < s.len() && s[i].0 == k,
        |k: Seq<u8>| s[choose|i: int| 0 <= i < s.len() && s[i].0 == k].1,
    )
}

/// `p` is a prefix of `k`.
pub open spec fn has_prefix(k: Seq<u8>, p: Seq<u8>) -> bool {
    p.len() <= k.len() && k.subrange(0, p.len() as int) == p
}

/// The records of `s` whose key starts with `p`, in their order.
pub open spec fn with_prefix(s: Seq<Pair>, p: Seq<u8>) -> Seq<Pair> {
    s.filter(|e: Pair| has_prefix(e.0, p))
}

pub proof fn lemma_map_at(s: Seq<Pair>, i: int)
    requires
        distinct_keys(s),
        0 <= i < s.len(),
    ensures
        pairs_map(s).contains_key(s[i].0),
        pairs_map(s)[s[i].0] == s[i].1,
{
    let k = s[i].0;
    assert(exists|j: int| 0 <= j < s.len() && s[j].0 == k);
    let j = choose|j: int| 0 <= j < s.len() && s[j].0 == k;
    if j != i {
        if j < i {
            assert(s[j].0 != s[i].0);
        } else {
            assert(s[i].0 != s[j].0);
        }
    }
}

proof fn lemma_map_push(s: Seq<Pair>, e: Pair)
    requires
        distinct_keys(s),
        !pairs_map(s).contains_key(e.0),
    ensures
        distinct_keys(s.push(e)),
        pairs_map(s.push(e)) == pairs_map(s).insert(e.0, e.1),
{
    let t = s.push(e);
    assert forall|i: int, j: int| 0 <= i < j < t.len() implies #[trigger] t[i].0 != #[trigger] t[j].0 by {
        if j == s.len() {
            if t[i].0 == e.0 {
                assert(s[i].0 == e.0);
            }
        } else {
            assert(s[i].0 != s[j].0);
        }
    }
    assert forall|i: int| 0 <= i < t.len() implies pairs_map(t).contains_key(t[i].0) && pairs_map(
        t,
    )[t[i].0] == t[i].1 by {
        lemma_map_at(t, i);
    }
    assert forall|i: int| 0 <= i < s.len() implies pairs_map(s).contains_key(s[i].0) && pairs_map(
        s,
    )[s[i].0] == s[i].1 by {
        lemma_map_at(s, i);
    }
    assert forall|k: Seq<u8>| #[trigger] pairs_map(t).contains_key(k) implies pairs_map(
        s,
    ).insert(e.0, e.1).contains_key(k) && pairs_map(t)[k] == pairs_map(s).insert(e.0, e.1)[k] by {
        let i = choose|i: int| 0 <= i < t.len() && t[i].0 == k;
        assert(t[i].0 == k);
    }
    assert forall|k: Seq<u8>| #[trigger] pairs_map(s).insert(e.0, e.1).contains_key(
        k,
    ) implies pairs_map(t).contains_key(k) by {
        if k != e.0 {
            let i = choose|i: int| 0 <= i < s.len() && s[i].0 == k;
            assert(t[i].0 == k);
        } else {
            assert(t[s.len() as int].0 == k);
        }
    }
    assert(pairs_map(t) =~= pairs_map(s).insert(e.0, e.1));
}

proof fn lemma_map_update(s: Seq<Pair>, i: int, v: Seq<u8>)
    requires
        distinct_keys(s),
        0 <= i < s.len(),
    ensures
        distinct_keys(s.update(i, (s[i].0, v))),
        pairs_map(s.update(i, (s[i].0, v))) == pairs_map(s).insert(s[i].0, v),
{
    let k0 = s[i].0;
    let t = s.update(i, (k0, v));
    assert forall|a: int, b: int| 0 <= a < b < t.len() implies #[trigger] t[a].0 != #[trigger] t[b].0 by {
        assert(s[a].0 != s[b].0);
    }
    assert forall|j: int| 0 <= j < t.len() implies pairs_map(t).contains_key(t[j].0) && pairs_map(
        t,
    )[t[j].0] == t[j].1 by {
        lemma_map_at(t, j);
    }
    assert forall|j: int| 0 <= j < s.len() implies pairs_map(s).contains_key(s[j].0) && pairs_map(
        s,
    )[s[j].0] == s[j].1 by {
        lemma_map_at(s, j);
    }
    assert forall|k: Seq<u8>| #[trigger] pairs_map(t).contains_key(k) implies pairs_map(
        s,
    ).insert(k0, v).contains_key(k) && pairs_map(t)[k] == pairs_map(s).insert(k0, v)[k] by {
        let j = choose|j: int| 0 <= j < t.len() && t[j].0 == k;
        assert(s[j].0 == k);
    }
    assert forall|k: Seq<u8>| #[trigger] pairs_map(s).insert(k0, v).contains_key(
        k,
    ) implies pairs_map(t).contains_key(k) by {
        if k != k0 {
            let j = choose|j: int| 0 <= j < s.len() && s[j].0 == k;
            assert(t[j].0 == k);
        } else {
            assert(t[i].0 == k);
        }
    }
    assert(pairs_map(t) =~= pairs_map(s).insert(k0, v));
}

pub proof fn lemma_filter_all<A>(s: Seq<A>, pred: spec_fn(A) -> bool)
    requires
        forall|j: int| 0 <= j < s.len() ==> pred(#[trigger] s[j]),
    ensures
        s.filter(pred) == s,
    decreases s.len(),
{
    reveal(Seq::filter);
    if s.len() > 0 {
        lemma_filter_all(s.drop_last(), pred);
        assert(s.drop_last().push(s.last()) =~= s);
    }
}

proof fn lemma_filter_one<A>(x: A, pred: spec_fn(A) -> bool)
    ensures
        seq![x].filter(pred) == (if pred(x) { seq![x] } else { Seq::<A>::empty() }),
{
    reveal_with_fuel(Seq::filter, 2);
    assert(seq![x].drop_last() =~= Seq::<A>::empty());
}

pub proof fn lemma_filter_take_step<A>(s: Seq<A>, i: int, pred: spec_fn(A) -> bool)
    requires
        0 <= i < s.len(),
    ensures
        s.take(i + 1).filter(pred) == (if pred(s[i]) {
            s.take(i).filter(pred).push(s[i])
        } else {
            s.take(i).filter(pred)
        }),
{
    assert(s.take(i + 1) =~= s.take(i) + seq![s[i]]);
    Seq::filter_distributes_over_add(s.take(i), seq![s[i]], pred);
    lemma_filter_one(s[i], pred);
    assert(s.take(i).filter(pred) + seq![s[i]] =~= s.take(i).filter(pred).push(s[i]));
    assert(s.take(i).filter(pred) + Seq::<A>::empty() =~= s.take(i).filter(pred));
}

proof fn lemma_map_remove(s: Seq<Pair>, i: int)
    requires
        distinct_keys(s),
        0 <= i < s.len(),
    ensures
        distinct_keys(s.remove(i)),
        pairs_map(s.remove(i)) == pairs_map(s).remove(s[i].0),
        s.remove(i) == s.filter(|e: Pair| e.0 != s[i].0),
{
    let k0 = s[i].0;
    let t = s.remove(i);
    assert forall|a: int, b: int| 0 <= a < b < t.len() implies #[trigger] t[a].0 != #[trigger] t[b].0 by {
        if b < i {
            assert(s[a].0 != s[b].0);
        } else if a < i {
            assert(t[b] == s[b + 1]);
            assert(s[a].0 != s[b + 1].0);
        } else {
            assert(s[a + 1].0 != s[b + 1].0);
        }
    }
    assert forall|j: int| 0 <= j < t.len() implies t[j].0 != k0 by {
        if j < i {
            assert(s[j].0 != s[i].0);
        } else {
            assert(s[i].0 != s[j + 1].0);
        }
    }
    assert forall|j: int| 0 <= j < t.len() implies pairs_map(t).contains_key(t[j].0) && pairs_map(
        t,
    )[t[j].0] == t[j].1 by {
        lemma_map_at(t, j);
    }
    assert forall|j: int| 0 <= j < s.len() implies pairs_map(s).contains_key(s[j].0) && pairs_map(
        s,
    )[s[j].0] == s[j].1 by {
        lemma_map_at(s, j);
    }
    assert forall|k: Seq<u8>| #[trigger] pairs_map(t).contains_key(k) implies pairs_map(
        s,
    ).remove(k0).contains_key(k) && pairs_map(t)[k] == pairs_map(s).remove(k0)[k] by {
        let j = choose|j: int| 0 <= j < t.len() && t[j].0 == k;
        if j < i {
            assert(s[j].0 == k);
        } else {
            assert(s[j + 1].0 == k);
        }
    }
    assert forall|k: Seq<u8>| #[trigger] pairs_map(s).remove(k0).contains_key(k) implies pairs_map(
        t,
    ).contains_key(k) by {
        let j = choose|j: int| 0 <= j < s.len() && s[j].0 == k;
        if j < i {
            assert(t[j].0 == k);
        } else {
            assert(j != i);
            assert(t[j - 1].0 == k);
        }
    }
    assert(pairs_map(t) =~= pairs_map(s).remove(k0));
    let pred = |e: Pair| e.0 != k0;
    assert(s =~= s.take(i) + seq![s[i]] + s.skip(i + 1));
    assert forall|j: int| 0 <= j < s.take(i).len() implies pred(#[trigger] s.take(i)[j]) by {
        assert(s[j].0 != s[i].0);
    }
    assert forall|j: int| 0 <= j < s.skip(i + 1).len() implies pred(#[trigger] s.skip(i + 1)[j]) by {
        assert(s[i].0 != s[i + 1 + j].0);
    }
    lemma_filter_all(s.take(i), pred);
    lemma_filter_all(s.skip(i + 1), pred);
    lemma_filter_one(s[i], pred);
    Seq::filter_distributes_over_add(s.take(i) + seq![s[i]], s.skip(i + 1), pred);
    Seq::filter_distributes_over_add(s.take(i), seq![s[i]], pred);
    assert(t =~= s.take(i) + Seq::<Pair>::empty() + s.skip(i + 1));
    assert(s.filter(pred) =~= t);
    assert(pred =~= (|e: Pair| e.0 != s[i].0));
}

/// An ordered key-value map over bytes: records keep the order in which their
/// keys were first written, and no key occurs twice.
pub struct Tree {
    entries: Vec<(Vec<u8>, Vec<u8>)>,
}

impl Tree {
    /// The records, in order.
    pub closed spec fn pairs(&self) -> Seq<Pair> {
        self.entries@.map_values(|e: (Vec<u8>, Vec<u8>)| (e.0@, e.1@))
    }

    pub open spec fn wf(&self) -> bool {
        distinct_keys(self.pairs())
    }

    pub open spec fn view(&self) -> Map<Seq<u8>, Seq<u8>> {
        pairs_map(self.pairs())
    }

    pub fn new() -> (r: Tree)
        ensures
            r.wf(),
            r.pairs() == Seq::<Pair>::empty(),
            r@ == Map::<Seq<u8>, Seq<u8>>::empty(),
    {
        let r = Tree { entries: Vec::new() };
        assert(r.pairs() =~= Seq::<Pair>::empty());
        assert(r@ =~= Map::<Seq<u8>, Seq<u8>>::empty());
        r
    }

    /// Where `key` stands, if anywhere.
    fn position(&self, key: &[u8]) -> (r: Option<usize>)
        requires
            self.wf(),
        ensures
            r is None ==> !self@.contains_key(key@),
            r is None ==> forall|j: int| 0 <= j < self.pairs().len() ==> self.pairs()[j].0 != key@,
            r is Some ==> r->Some_0 < self.pairs().len() && self.pairs()[r->Some_0 as int].0
                == key@,
    {
        let mut i: usize = 0;
        while i < self.entries.len()
            invariant
                i <= self.entries.len(),
                forall|j: int| 0 <= j < i ==> self.pairs()[j].0 != key@,
            decreases self.entries.len() - i,
        {
            if bytes_eq(self.entries[i].0.as_slice(), key) {
                return Some(i);
            }
            i += 1;
        }
        proof {
            if self@.contains_key(key@) {
                let j = choose|j: int| 0 <= j < self.pairs().len() && self.pairs()[j].0 == key@;
                assert(self.pairs()[j].0 == key@);
            }
        }
        None
    }

    pub fn get(&self, key: &[u8]) -> (r: Option<Vec<u8>>)
        requires
            self.wf(),
        ensures
            r is Some <==> self@.contains_key(key@),
            r is Some ==> r->Some_0@ == self@[key@],
    {
        match self.position(key) {
            None => None,
            Some(i) => {
                proof {
                    lemma_map_at(self.pairs(), i as int);
                }
                Some(copy_bytes(self.entries[i].1.as_slice()))
            },
        }
    }

    pub fn contains_key(&self, key: &[u8]) -> (r: bool)
        requires
            self.wf(),
        ensures
            r == self@.contains_key(key@),
    {
        match self.position(key) {
            None => false,
            Some(i) => {
                proof {
                    lemma_map_at(self.pairs(), i as int);
                }
                true
            },
        }
    }

    /// Writes `value` under `key`. A key already present keeps its place; a
    /// new one goes last.
    pub fn insert(&mut self, key: &[u8], value: &[u8])
        requires
            old(self).wf(),
        ensures
            final(self).wf(),
            final(self)@ == old(self)@.insert(key@, value@),
            !old(self)@.contains_key(key@) ==> final(self).pairs() == old(self).pairs().push(
                (key@, value@),
            ),
            old(self)@.contains_key(key@) ==> final(self).pairs().len() == old(self).pairs().len(),
    {
        match self.position(key) {
            None => {
                proof {
                    lemma_map_push(self.pairs(), (key@, value@));
                }
                let e = (copy_bytes(key), copy_bytes(value));
                self.entries.push(e);
                assert(self.pairs() =~= old(self).pairs().push((key@, value@)));
            },
            Some(i) => {
                proof {
                    lemma_map_update(self.pairs(), i as int, value@);
                    lemma_map_at(self.pairs(), i as int);
                }
                let e = (copy_bytes(key), copy_bytes(value));
                self.entries.set(i, e);
                assert(self.pairs() =~= old(self).pairs().update(i as int, (key@, value@)));
            },
        }
    }

    /// Deletes the record under `key`, if there is one; the others keep
    /// their order.
    pub fn remove(&mut self, key: &[u8])
        requires
            old(self).wf(),
        ensures
            final(self).wf(),
            final(self)@ == old(self)@.remove(key@),
            final(self).pairs() == old(self).pairs().filter(|e: Pair| e.0 != key@),
    {
        match self.position(key) {
            None => {
                proof {
                    let s = self.pairs();
                    assert(self@ =~= self@.remove(key@));
                    lemma_filter_all(s, |e: Pair| e.0 != key@);
                }
            },
            Some(i) => {
                proof {
                    lemma_map_remove(self.pairs(), i as int);
                }
                self.entries.remove(i);
                assert(self.pairs() =~= old(self).pairs().remove(i as int));
            },
        }
    }

    /// The records whose key starts with `prefix`, in order.
    pub fn scan_prefix(&self, prefix: &[u8]) -> (r: Vec<(Vec<u8>, Vec<u8>)>)
        ensures
            r@.map_values(|e: (Vec<u8>, Vec<u8>)| (e.0@, e.1@)) == with_prefix(
                self.pairs(),
                prefix@,
            ),
    {
        let mut r: Vec<(Vec<u8>, Vec<u8>)> = Vec::new();
        let mut i: usize = 0;
        let ghost pred = |e: Pair| has_prefix(e.0, prefix@);
        while i < self.entries.len()
            invariant
                i <= self.entries.len(),
                pred == (|e: Pair| has_prefix(e.0, prefix@)),
                r@.map_values(|e: (Vec<u8>, Vec<u8>)| (e.0@, e.1@)) == self.pairs().take(
                    i as int,
                ).filter(pred),
            decreases self.entries.len() - i,
        {
            proof {
                lemma_filter_take_step(self.pairs(), i as int, pred);
            }
            let ghost before = r@;
            if starts_with(self.entries[i].0.as_slice(), prefix) {
                let e = (copy_bytes(self.entries[i].0.as_slice()), copy_bytes(self.entries[i].1.as_slice()));
                r.push(e);
                assert(r@.map_values(|e: (Vec<u8>, Vec<u8>)| (e.0@, e.1@)) =~= before.map_values(
                    |e: (Vec<u8>, Vec<u8>)| (e.0@, e.1@),
                ).push(self.pairs()[i as int]));
            }
            i += 1;
        }
        assert(self.pairs().take(self.entries.len() as int) =~= self.pairs());
        r
    }
}

/// Removes from `t` every record whose key starts with `prefix`.
pub fn remove_prefixed(t: &mut Tree, prefix: &[u8])
    requires
        old(t).wf(),
    ensures
        final(t).wf(),
        forall|k: Seq<u8>| #[trigger]
            final(t)@.contains_key(k) <==> old(t)@.contains_key(k) && !has_prefix(k, prefix@),
        forall|k: Seq<u8>| #[trigger] final(t)@.contains_key(k) ==> final(t)@[k] == old(t)@[k],
{
    let scan = t.scan_prefix(prefix);
    let ghost sv = scan@.map_values(|e: (Vec<u8>, Vec<u8>)| (e.0@, e.1@));
    let ghost pred = |e: Pair| has_prefix(e.0, prefix@);
    proof {
        broadcast use Seq::lemma_filter_pred, Seq::lemma_filter_contains;

        assert forall|k: Seq<u8>| old(t)@.contains_key(k) && has_prefix(k, prefix@) implies exists|j: int|
            0 <= j < sv.len() && sv[j].0 == k by {
            let s = old(t).pairs();
            let i = choose|i: int| 0 <= i < s.len() && s[i].0 == k;
            assert(pred(s[i]));
            assert(s.filter(pred).contains(s[i]));
        }
        assert forall|j: int| 0 <= j < sv.len() implies has_prefix(#[trigger] sv[j].0, prefix@) by {
            assert(pred(old(t).pairs().filter(pred)[j]));
        }
    }
    let mut i: usize = 0;
    while i < scan.len()
        invariant
            t.wf(),
            i <= scan@.len(),
            sv == scan@.map_values(|e: (Vec<u8>, Vec<u8>)| (e.0@, e.1@)),
            forall|k: Seq<u8>| #[trigger]
                t@.contains_key(k) <==> old(t)@.contains_key(k) && !(exists|j: int|
                    0 <= j < i && sv[j].0 == k),
            forall|k: Seq<u8>| #[trigger] t@.contains_key(k) ==> t@[k] == old(t)@[k],
            forall|j: int| 0 <= j < sv.len() ==> has_prefix(#[trigger] sv[j].0, prefix@),
            forall|k: Seq<u8>|
                old(t)@.contains_key(k) && has_prefix(k, prefix@) ==> exists|j: int|
                    0 <= j < sv.len() && sv[j].0 == k,
        decreases scan@.len() - i,
    {
        let ghost prev = t@;
        assert(sv[i as int].0 == scan@[i as int].0@);
        t.remove(scan[i].0.as_slice());
        proof {
            assert(t@ == prev.remove(sv[i as int].0));
            assert forall|k: Seq<u8>| #[trigger] t@.contains_key(k) <==> old(t)@.contains_key(k) && !(
            exists|j: int| 0 <= j < i + 1 && sv[j].0 == k) by {
                if exists|j: int| 0 <= j < i + 1 && sv[j].0 == k {
                    let j = choose|j: int| 0 <= j < i + 1 && sv[j].0 == k;
                    if j < i {
                        assert(exists|j: int| 0 <= j < i && sv[j].0 == k);
                    }
                }
                if k != sv[i as int].0 && (exists|j: int| 0 <= j < i && sv[j].0 == k) {
                    let j = choose|j: int| 0 <= j < i && sv[j].0 == k;
                    assert(exists|j: int| 0 <= j < i + 1 && sv[j].0 == k);
                }
            }
        }
        i += 1;
    }
    proof {
        assert forall|k: Seq<u8>| #[trigger]
            t@.contains_key(k) <==> old(t)@.contains_key(k) && !has_prefix(k, prefix@) by {
            if old(t)@.contains_key(k) && has_prefix(k, prefix@) {
                let j = choose|j: int| 0 <= j < sv.len() && sv[j].0 == k;
                assert(exists|j2: int| 0 <= j2 < i && sv[j2].0 == k);
            }
            if exists|j: int| 0 <= j < i && sv[j].0 == k {
                let j = choose|j: int| 0 <= j < i && sv[j].0 == k;
                assert(has_prefix(sv[j].0, prefix@));
            }
        }
    }
}

/// Byte-wise equality.
pub fn bytes_eq(a: &[u8], b: &[u8]) -> (r: bool)
    ensures
        r == (a@ == b@),
{
    if a.len() != b.len() {
        return false;
    }
    let mut i: usize = 0;
    while i < a.len()
        invariant
            i <= a.len(),
            a@.len() == b@.len(),
            forall|j: int| 0 <= j < i ==> a@[j] == b@[j],
        decreases a.len() - i,
    {
        if a[i] != b[i] {
            return false;
        }
        i += 1;
    }
    assert(a@ =~= b@);
    true
}

/// Whether `k` starts with `p`.
pub fn starts_with(k: &[u8], p: &[u8]) -> (r: bool)
    ensures
        r == has_prefix(k@, p@),
{
    if p.len() > k.len() {
        return false;
    }
    let mut i: usize = 0;
    while i < p.len()
        invariant
            i <= p.len() <= k.len(),
            forall|j: int| 0 <= j < i ==> k@[j] == p@[j],
        decreases p.len() - i,
    {
        if k[i] != p[i] {
            assert(k@.subrange(0, p@.len() as int)[i as int] != p@[i as int]);
            return false;
        }
        i += 1;
    }
    assert(k@.subrange(0, p@.len() as int) =~= p@);
    true
}

/// The index of the first 0xFF byte of `s` at or after `i`.
pub open spec fn ff_from(s: Seq<u8>, i: int) -> Option<int>
    decreases s.len() - i,
{
    if i < 0 || i >= s.len() {
        None
    } else if s[i] == 0xFFu8 {
        Some(i)
    } else {
        ff_from(s, i + 1)
    }
}

/// The index of the first 0xFF byte, if any.
pub fn first_ff(b: &[u8]) -> (r: Option<usize>)
    ensures
        r is None ==> forall|j: int| 0 <= j < b@.len() ==> b@[j] != 0xFFu8,
        r is Some ==> r->Some_0 < b@.len() && b@[r->Some_0 as int] == 0xFFu8 && forall|j: int|
            0 <= j < r->Some_0 ==> b@[j] != 0xFFu8,
        r is None ==> ff_from(b@, 0) is None,
        r is Some ==> ff_from(b@, 0) == Some(r->Some_0 as int),
{
    let mut i: usize = 0;
    while i < b.len()
        invariant
            i <= b@.len(),
            forall|j: int| 0 <= j < i ==> b@[j] != 0xFFu8,
            ff_from(b@, 0) == ff_from(b@, i as int),
        decreases b@.len() - i,
    {
        if b[i] == 0xFFu8 {
            return Some(i);
        }
        i += 1;
    }
    None
}

/// The index of the first 0xFF byte at or after `start`, if any.
pub fn first_ff_from(b: &[u8], start: usize) -> (r: Option<usize>)
    ensures
        r is None ==> ff_from(b@, start as int) is None,
        r is Some ==> ff_from(b@, start as int) == Some(r->Some_0 as int),
{
    let mut i: usize = start;
    while i < b.len()
        invariant
            start <= i,
            ff_from(b@, start as int) == ff_from(b@, i as int),
        decreases b@.len() - i,
    {
        if b[i] == 0xFFu8 {
            return Some(i);
        }
        i += 1;
    }
    None
}

/// The index `ff_from` gives lies at or after where it starts and holds 0xFF.
pub proof fn lemma_ff_from(s: Seq<u8>, i: int)
    ensures
        ff_from(s, i) is Some ==> i <= ff_from(s, i)->Some_0 < s.len() && s[ff_from(s, i)->Some_0]
            == 0xFFu8,
        ff_from(s, i) is Some ==> forall|j: int| i <= j < ff_from(s, i)->Some_0 ==> s[j] != 0xFFu8,
        ff_from(s, i) is None && 0 <= i ==> forall|j: int| i <= j < s.len() ==> s[j] != 0xFFu8,
    decreases s.len() - i,
{
    if 0 <= i < s.len() && s[i] != 0xFFu8 {
        lemma_ff_from(s, i + 1);
    }
}

/// Appends the bytes of `b` to `v`.
pub fn append_bytes(v: &mut Vec<u8>, b: &[u8])
    ensures
        final(v)@ == old(v)@ + b@,
{
    let mut i: usize = 0;
    while i < b.len()
        invariant
            i <= b@.len(),
            v@ == old(v)@ + b@.take(i as int),
        decreases b@.len() - i,
    {
        v.push(b[i]);
        i += 1;
        assert(v@ =~= old(v)@ + b@.take(i as int));
    }
    assert(b@.take(b@.len() as int) =~= b@);
}

/// A fresh vector holding the bytes of `b`.
pub fn copy_bytes(b: &[u8]) -> (r: Vec<u8>)
    ensures
        r@ == b@,
{
    let mut r: Vec<u8> = Vec::with_capacity(b.len());
    let mut i: usize = 0;
    while i < b.len()
        invariant
            i <= b.len(),
            r@ == b@.take(i as int),
        decreases b.len() - i,
    {
        r.push(b[i]);
        i += 1;
        assert(r@ =~= b@.take(i as int));
    }
    assert(b@.take(b@.len() as int) =~= b@);
    r
}

} // verus!
