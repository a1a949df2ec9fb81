use vstd::prelude::*;
use crate::appservice::str_eq;
use crate::timeline::{id_set, PduCount};
use vstd::string::StringExecFns;

verus! {

/// A device's view of a room: user, device and room id.
pub type DeviceRoom = (Seq<char>, Seq<char>, Seq<char>);

/// The member events already delivered to each device, per room, and those
/// sent in a sync response whose delivery is not yet confirmed.
pub struct LazyLoading {
    sent: Vec<(String, String, String, String)>,
    waiting: Vec<(String, String, String, PduCount, Vec<String>)>,
}

pub open spec fn sent_view(e: (String, String, String, String)) -> (DeviceRoom, Seq<char>) {
    ((e.0@, e.1@, e.2@), e.3@)
}

pub open spec fn waiting_key(e: (String, String, String, PduCount, Vec<String>)) -> (DeviceRoom, PduCount) {
    ((e.0@, e.1@, e.2@), e.3)
}

/// Some of the first `n` records is `p`.
pub open spec fn listed(s: Seq<(String, String, String, String)>, n: int, p: (DeviceRoom, Seq<char>)) -> bool {
    exists|j: int| 0 <= j < n && sent_view(s[j]) == p
}

impl LazyLoading {
    /// The pairs of a device room and a user whose member event it has
    /// received.
    pub closed spec fn delivered(&self) -> Set<(DeviceRoom, Seq<char>)> {
        Set::new(
            |p: (DeviceRoom, Seq<char>)| exists|i: int| 0 <= i < self.sent@.len() && sent_view(self.sent@[i]) == p,
        )
    }

    /// The users whose member events were sent to a device room in the
    /// response that ends at a count, if that response awaits confirmation.
    pub closed spec fn pending(&self, key: (DeviceRoom, PduCount)) -> Option<Set<Seq<char>>> {
        if exists|i: int| 0 <= i < self.waiting@.len() && waiting_key(self.waiting@[i]) == key {
            Some(
                id_set(
                    self.waiting@[choose|i: int|
                        0 <= i < self.waiting@.len() && waiting_key(self.waiting@[i]) == key].4@,
                ),
            )
        } else {
            None
        }
    }

    pub closed spec fn wf(&self) -> bool {
        forall|i: int, j: int|
            0 <= i < j < self.waiting@.len() ==> waiting_key(#[trigger] self.waiting@[i]) != waiting_key(
                #[trigger] self.waiting@[j],
            )
    }

    proof fn lemma_pending_at(&self, i: int)
        requires
            self.wf(),
            0 <= i < self.waiting@.len(),
        ensures
            self.pending(waiting_key(self.waiting@[i])) == Some(id_set(self.waiting@[i].4@)),
    {
        let key = waiting_key(self.waiting@[i]);
        assert(exists|j: int| 0 <= j < self.waiting@.len() && waiting_key(self.waiting@[j]) == key);
        let j = choose|j: int| 0 <= j < self.waiting@.len() && waiting_key(self.waiting@[j]) == key;
        if j != i {
            if j < i {
                assert(waiting_key(self.waiting@[j]) != waiting_key(self.waiting@[i]));
            } else {
                assert(waiting_key(self.waiting@[i]) != waiting_key(self.waiting@[j]));
            }
        }
    }

    pub fn new() -> (r: LazyLoading)
        ensures
            r.wf(),
            r.delivered() == Set::<(DeviceRoom, Seq<char>)>::empty(),
            forall|k: (DeviceRoom, PduCount)| #[trigger] r.pending(k) is None,
    {
        let r = LazyLoading { sent: Vec::new(), waiting: Vec::new() };
        assert(r.delivered() =~= Set::<(DeviceRoom, Seq<char>)>::empty());
        r
    }

    /// Whether the member event of `ll_user` was delivered to the device in
    /// the room.
    pub fn lazy_load_was_sent_before(&self, user_id: &str, device_id: &str, room_id: &str, ll_user: &str) -> (r:
        bool)
        ensures
            r == self.delivered().contains(((user_id@, device_id@, room_id@), ll_user@)),
    {
        let mut i: usize = 0;
        while i < self.sent.len()
            invariant
                i <= self.sent@.len(),
                forall|j: int|
                    0 <= j < i ==> sent_view(#[trigger] self.sent@[j]) != ((user_id@, device_id@, room_id@), ll_user@),
            decreases self.sent@.len() - i,
        {
            let e = &self.sent[i];
            if str_eq(e.0.as_str(), user_id) && str_eq(e.1.as_str(), device_id) && str_eq(e.2.as_str(), room_id)
                && str_eq(e.3.as_str(), ll_user) {
                assert(sent_view(self.sent@[i as int]) == ((user_id@, device_id@, room_id@), ll_user@));
                return true;
            }
            i += 1;
        }
        false
    }

    /// Where the response of a device room that ends at `count` waits, if it
    /// does.
    fn waiting_position(&self, user_id: &str, device_id: &str, room_id: &str, count: PduCount) -> (r: Option<
        usize,
    >)
        ensures
            r is None ==> forall|j: int|
                0 <= j < self.waiting@.len() ==> waiting_key(#[trigger] self.waiting@[j]) != (
                    (user_id@, device_id@, room_id@),
                    count,
                ),
            r is Some ==> r->Some_0 < self.waiting@.len() && waiting_key(self.waiting@[r->Some_0 as int]) == (
                (user_id@, device_id@, room_id@),
                count,
            ),
    {
        let mut i: usize = 0;
        while i < self.waiting.len()
            invariant
                i <= self.waiting@.len(),
                forall|j: int|
                    0 <= j < i ==> waiting_key(#[trigger] self.waiting@[j]) != ((user_id@, device_id@, room_id@), count),
            decreases self.waiting@.len() - i,
        {
            let e = &self.waiting[i];
            if str_eq(e.0.as_str(), user_id) && str_eq(e.1.as_str(), device_id) && str_eq(e.2.as_str(), room_id)
                && e.3 == count {
                return Some(i);
            }
            i += 1;
        }
        None
    }

    /// Records the member events sent to a device room in the response that
    /// ends at `count`, to be confirmed by the next sync.
    pub fn lazy_load_mark_sent(
        &mut self,
        user_id: &str,
        device_id: &str,
        room_id: &str,
        lazy_load: Vec<String>,
        count: PduCount,
    )
        requires
            old(self).wf(),
        ensures
            final(self).wf(),
            final(self).delivered() == old(self).delivered(),
            final(self).pending(((user_id@, device_id@, room_id@), count)) == Some(id_set(lazy_load@)),
            forall|k: (DeviceRoom, PduCount)|
                k != ((user_id@, device_id@, room_id@), count) ==> #[trigger] final(self).pending(k) == old(
                    self,
                ).pending(k),
    {
        let ghost key = ((user_id@, device_id@, room_id@), count);
        let entry = (user_id.to_owned(), device_id.to_owned(), room_id.to_owned(), count, lazy_load);
        match self.waiting_position(user_id, device_id, room_id, count) {
            Some(i) => {
                let ghost before = self.waiting@;
                self.waiting.set(i, entry);
                proof {
                    assert forall|a: int, b: int| 0 <= a < b < self.waiting@.len() implies waiting_key(
                        #[trigger] self.waiting@[a],
                    ) != waiting_key(#[trigger] self.waiting@[b]) by {
                        assert(waiting_key(before[a]) != waiting_key(before[b]));
                    }
                    self.lemma_pending_at(i as int);
                    assert forall|k: (DeviceRoom, PduCount)| k != key implies #[trigger] self.pending(k) == old(
                        self,
                    ).pending(k) by {
                        if exists|j: int| 0 <= j < before.len() && waiting_key(before[j]) == k {
                            let j = choose|j: int| 0 <= j < before.len() && waiting_key(before[j]) == k;
                            old(self).lemma_pending_at(j);
                            self.lemma_pending_at(j);
                        }
                        if exists|j: int| 0 <= j < self.waiting@.len() && waiting_key(self.waiting@[j]) == k {
                            let j = choose|j: int| 0 <= j < self.waiting@.len() && waiting_key(self.waiting@[j]) == k;
                            assert(waiting_key(before[j]) == k);
                        }
                    }
                }
            },
            None => {
                let ghost before = self.waiting@;
                self.waiting.push(entry);
                proof {
                    assert forall|a: int, b: int| 0 <= a < b < self.waiting@.len() implies waiting_key(
                        #[trigger] self.waiting@[a],
                    ) != waiting_key(#[trigger] self.waiting@[b]) by {
                        if b < before.len() {
                            assert(waiting_key(before[a]) != waiting_key(before[b]));
                        }
                    }
                    self.lemma_pending_at(before.len() as int);
                    assert forall|k: (DeviceRoom, PduCount)| k != key implies #[trigger] self.pending(k) == old(
                        self,
                    ).pending(k) by {
                        if exists|j: int| 0 <= j < before.len() && waiting_key(before[j]) == k {
                            let j = choose|j: int| 0 <= j < before.len() && waiting_key(before[j]) == k;
                            old(self).lemma_pending_at(j);
                            self.lemma_pending_at(j);
                        }
                        if exists|j: int| 0 <= j < self.waiting@.len() && waiting_key(self.waiting@[j]) == k {
                            let j = choose|j: int| 0 <= j < self.waiting@.len() && waiting_key(self.waiting@[j]) == k;
                            assert(j < before.len());
                            assert(waiting_key(before[j]) == k);
                        }
                    }
                }
            },
        }
        assert(self.delivered() =~= old(self).delivered());
    }

    /// Confirms that the response of a device room that ended at `since` was
    /// received: the member events it carried count as delivered from now on.
    pub fn lazy_load_confirm_delivery(&mut self, user_id: &str, device_id: &str, room_id: &str, since: PduCount)
        requires
            old(self).wf(),
        ensures
            final(self).wf(),
            final(self).delivered() == match old(self).pending(((user_id@, device_id@, room_id@), since)) {
                Some(users) => old(self).delivered().union(
                    Set::new(
                        |p: (DeviceRoom, Seq<char>)|
                            p.0 == (user_id@, device_id@, room_id@) && users.contains(p.1),
                    ),
                ),
                None => old(self).delivered(),
            },
            final(self).pending(((user_id@, device_id@, room_id@), since)) is None,
    {
        let ghost dr = (user_id@, device_id@, room_id@);
        match self.waiting_position(user_id, device_id, room_id, since) {
            None => {
                assert(self.pending((dr, since)) is None);
            },
            Some(i) => {
                proof {
                    self.lemma_pending_at(i as int);
                }
                let ghost before = self.waiting@;
                let (_, _, _, _, users) = self.waiting.remove(i);
                proof {
                    assert forall|a: int, b: int| 0 <= a < b < self.waiting@.len() implies waiting_key(
                        #[trigger] self.waiting@[a],
                    ) != waiting_key(#[trigger] self.waiting@[b]) by {
                        if a < i {
                            if b < i {
                                assert(waiting_key(before[a]) != waiting_key(before[b]));
                            } else {
                                assert(waiting_key(before[a]) != waiting_key(before[b + 1]));
                            }
                        } else {
                            assert(waiting_key(before[a + 1]) != waiting_key(before[b + 1]));
                        }
                    }
                    assert forall|j: int| 0 <= j < self.waiting@.len() implies waiting_key(
                        #[trigger] self.waiting@[j],
                    ) != (dr, since) by {
                        if j < i {
                            assert(waiting_key(before[j]) != waiting_key(before[i as int]));
                        } else {
                            assert(waiting_key(before[i as int]) != waiting_key(before[j + 1]));
                        }
                    }
                }
                let ghost old_sent = self.sent@;
                let ghost w = self.waiting@;
                let mut k: usize = 0;
                while k < users.len()
                    invariant
                        dr == (user_id@, device_id@, room_id@),
                        self.waiting@ == w,
                        forall|a: int, b: int| 0 <= a < b < w.len() ==> waiting_key(#[trigger] w[a]) != waiting_key(
                            #[trigger] w[b],
                        ),
                        forall|j: int| 0 <= j < w.len() ==> waiting_key(#[trigger] w[j]) != (dr, since),
                        k <= users@.len(),
                        self.sent@.len() == old_sent.len() + k,
                        forall|j: int| 0 <= j < old_sent.len() ==> #[trigger] self.sent@[j] == old_sent[j],
                        forall|j: int|
                            0 <= j < k ==> sent_view(#[trigger] self.sent@[old_sent.len() + j]) == (dr, users@[j]@),
                    decreases users@.len() - k,
                {
                    let entry = (
                        String::from_str(user_id),
                        String::from_str(device_id),
                        String::from_str(room_id),
                        users[k].clone(),
                    );
                    assert(sent_view(entry) == (dr, users@[k as int]@));
                    self.sent.push(entry);
                    assert(self.sent@[old_sent.len() + k] == entry);
                    k += 1;
                }
                proof {
                    let expect = old(self).delivered().union(
                        Set::new(|p: (DeviceRoom, Seq<char>)| p.0 == dr && id_set(users@).contains(p.1)),
                    );
                    assert forall|p: (DeviceRoom, Seq<char>)| self.delivered().contains(p) <==> expect.contains(p) by {
                        if self.delivered().contains(p) {
                            let j = choose|j: int| 0 <= j < self.sent@.len() && sent_view(self.sent@[j]) == p;
                            if j < old_sent.len() {
                                assert(sent_view(old_sent[j]) == p);
                            } else {
                                assert(sent_view(self.sent@[old_sent.len() + (j - old_sent.len())]) == p);
                                assert(users@[j - old_sent.len()]@ == p.1);
                            }
                        }
                        if old(self).delivered().contains(p) {
                            let j = choose|j: int| 0 <= j < old_sent.len() && sent_view(old_sent[j]) == p;
                            assert(sent_view(self.sent@[j]) == p);
                        }
                        if p.0 == dr && id_set(users@).contains(p.1) {
                            let m = choose|m: int| 0 <= m < users@.len() && users@[m]@ == p.1;
                            assert(sent_view(self.sent@[old_sent.len() + m]) == p);
                        }
                    }
                    assert(self.delivered() =~= expect);
                }
            },
        }
    }

    /// Forgets every member event delivered to the device in the room.
    pub fn lazy_load_reset(&mut self, user_id: &str, device_id: &str, room_id: &str)
        requires
            old(self).wf(),
        ensures
            final(self).wf(),
            final(self).delivered() == old(self).delivered().filter(
                |p: (DeviceRoom, Seq<char>)| p.0 != (user_id@, device_id@, room_id@),
            ),
            forall|k: (DeviceRoom, PduCount)| #[trigger] final(self).pending(k) == old(self).pending(k),
    {
        let ghost dr = (user_id@, device_id@, room_id@);
        let mut kept: Vec<(String, String, String, String)> = Vec::new();
        let mut i: usize = 0;
        while i < self.sent.len()
            invariant
                dr == (user_id@, device_id@, room_id@),
                i <= self.sent@.len(),
                self.sent@ == old(self).sent@,
                self.waiting@ == old(self).waiting@,
                forall|p: (DeviceRoom, Seq<char>)|
                    #[trigger] listed(kept@, kept@.len() as int, p) <==> (listed(self.sent@, i as int, p) && p.0 != dr),
            decreases self.sent@.len() - i,
        {
            let e = &self.sent[i];
            let s0 = str_eq(e.0.as_str(), user_id);
            let s1 = str_eq(e.1.as_str(), device_id);
            let s2 = str_eq(e.2.as_str(), room_id);
            let same = s0 && s1 && s2;
            let ghost before = kept@;
            assert(same == (sent_view(self.sent@[i as int]).0 == dr));
            if !same {
                kept.push((e.0.clone(), e.1.clone(), e.2.clone(), e.3.clone()));
            }
            proof {
                assert forall|p: (DeviceRoom, Seq<char>)|
                    #[trigger] listed(kept@, kept@.len() as int, p) <==> (listed(self.sent@, i + 1, p) && p.0 != dr) by {
                    if listed(kept@, kept@.len() as int, p) {
                        let j = choose|j: int| 0 <= j < kept@.len() && sent_view(kept@[j]) == p;
                        if j < before.len() {
                            assert(listed(before, before.len() as int, p));
                            let j2 = choose|j2: int| 0 <= j2 < i && sent_view(self.sent@[j2]) == p;
                            assert(listed(self.sent@, i + 1, p));
                        } else {
                            assert(sent_view(self.sent@[i as int]) == p);
                        }
                    }
                    if listed(self.sent@, i + 1, p) && p.0 != dr {
                        let j = choose|j: int| 0 <= j < i + 1 && sent_view(self.sent@[j]) == p;
                        if j < i {
                            assert(listed(self.sent@, i as int, p));
                            assert(listed(before, before.len() as int, p));
                            let j2 = choose|j2: int| 0 <= j2 < before.len() && sent_view(before[j2]) == p;
                            assert(sent_view(kept@[j2]) == p);
                        } else {
                            assert(sent_view(kept@[before.len() as int]) == p);
                        }
                    }
                }
            }
            i += 1;
        }
        self.sent = kept;
        proof {
            assert forall|p: (DeviceRoom, Seq<char>)| self.delivered().contains(p) <==> old(self).delivered().contains(p)
                && p.0 != dr by {
                assert(listed(self.sent@, self.sent@.len() as int, p) == self.delivered().contains(p));
                assert(listed(old(self).sent@, old(self).sent@.len() as int, p) == old(self).delivered().contains(p));
            }
            assert(self.delivered() =~= old(self).delivered().filter(
                |p: (DeviceRoom, Seq<char>)| p.0 != dr,
            ));
            assert(self.waiting@ == old(self).waiting@);
            assert forall|k: (DeviceRoom, PduCount)| #[trigger] self.pending(k) == old(self).pending(k) by {}
        }
    }
}

} // verus!
