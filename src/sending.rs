use vstd::prelude::*;
use crate::bytes::{be_bytes, be_value, lemma_be_value_of_bytes, string_from_bytes, u64_from_bytes, u64_to_bytes};
use crate::error::Error;
use crate::globals::Globals;
use crate::tree::{
    append_bytes, copy_bytes, ff_from, first_ff_from, has_prefix, lemma_ff_from, pairs_map, with_prefix,
    Pair, Tree,
};
use vstd::utf8::{decode_utf8, encode_utf8, valid_utf8};

verus! {

broadcast use vstd::utf8::encode_utf8_valid_utf8, vstd::utf8::encode_utf8_decode_utf8;

/// Where an outbound entry goes.
#[derive(Clone, Debug, PartialEq, Eq)]
pub enum Destination {
    /// Another homeserver, by server name.
    Normal(String),
    /// An application service, by registration id.
    Appservice(String),
    /// A push gateway, by user id and push key.
    Push(String, String),
}

/// What is sent.
#[derive(Clone, Debug, PartialEq, Eq)]
pub enum SendingEvent {
    /// A persistent event, by its pdu id.
    Pdu(Vec<u8>),
    /// An ephemeral event, as its serialised bytes.
    Edu(Vec<u8>),
    /// A request to send what is queued now.
    Flush,
}

pub enum DestinationView {
    Normal(Seq<char>),
    Appservice(Seq<char>),
    Push(Seq<char>, Seq<char>),
}

pub enum SendingEventView {
    Pdu(Seq<u8>),
    Edu(Seq<u8>),
    Flush,
}

impl View for Destination {
    type V = DestinationView;

    open spec fn view(&self) -> DestinationView {
        match self {
            Destination::Normal(s) => DestinationView::Normal(s@),
            Destination::Appservice(s) => DestinationView::Appservice(s@),
            Destination::Push(u, k) => DestinationView::Push(u@, k@),
        }
    }
}

impl View for SendingEvent {
    type V = SendingEventView;

    open spec fn view(&self) -> SendingEventView {
        match self {
            SendingEvent::Pdu(b) => SendingEventView::Pdu(b@),
            SendingEvent::Edu(b) => SendingEventView::Edu(b@),
            SendingEvent::Flush => SendingEventView::Flush,
        }
    }
}

/// The key prefix under which a destination's entries are stored:
/// `server 0xFF`, `+ id 0xFF`, or `$ user 0xFF pushkey 0xFF`.
pub open spec fn prefix_of(d: DestinationView) -> Seq<u8> {
    match d {
        DestinationView::Normal(s) => encode_utf8(s).push(0xFFu8),
        DestinationView::Appservice(s) => seq![43u8] + encode_utf8(s).push(0xFFu8),
        DestinationView::Push(u, k) => seq![36u8] + encode_utf8(u).push(0xFFu8) + encode_utf8(k).push(
            0xFFu8,
        ),
    }
}

/// The stored value of an entry: the bytes of an EDU, empty otherwise.
pub open spec fn value_of(e: SendingEventView) -> Seq<u8> {
    match e {
        SendingEventView::Edu(b) => b,
        _ => Seq::empty(),
    }
}

/// An entry read back: an empty value marks a PDU, whose id ends the key.
pub open spec fn event_from(tail: Seq<u8>, value: Seq<u8>) -> SendingEventView {
    if value.len() == 0 {
        SendingEventView::Pdu(tail)
    } else {
        SendingEventView::Edu(value)
    }
}

/// The destination and event that a stored key and value stand for, or
/// `None` when they are malformed.
pub open spec fn parse_entry(key: Seq<u8>, value: Seq<u8>) -> Option<(DestinationView, SendingEventView)> {
    if key.len() > 0 && key[0] == 43u8 {
        let rest = key.drop_first();
        match ff_from(rest, 0) {
            None => None,
            Some(i) => if valid_utf8(rest.take(i)) {
                Some(
                    (
                        DestinationView::Appservice(decode_utf8(rest.take(i))),
                        event_from(rest.skip(i + 1), value),
                    ),
                )
            } else {
                None
            },
        }
    } else if key.len() > 0 && key[0] == 36u8 {
        let rest = key.drop_first();
        match ff_from(rest, 0) {
            None => None,
            Some(i) => match ff_from(rest, i + 1) {
                None => None,
                Some(j) => if valid_utf8(rest.take(i)) && valid_utf8(rest.subrange(i + 1, j)) {
                    Some(
                        (
                            DestinationView::Push(
                                decode_utf8(rest.take(i)),
                                decode_utf8(rest.subrange(i + 1, j)),
                            ),
                            event_from(rest.skip(j + 1), value),
                        ),
                    )
                } else {
                    None
                },
            },
        }
    } else {
        match ff_from(key, 0) {
            None => None,
            Some(i) => if valid_utf8(key.take(i)) {
                Some((DestinationView::Normal(decode_utf8(key.take(i))), event_from(key.skip(i + 1), value)))
            } else {
                None
            },
        }
    }
}

/// The tail of a queued entry's key: the pdu id, or a fresh count.
pub open spec fn tail_ok(e: SendingEventView, tail: Seq<u8>) -> bool {
    match e {
        SendingEventView::Pdu(id) => tail == id,
        _ => tail.len() == 8,
    }
}

/// Applies a batch of writes in order.
pub open spec fn insert_all(m: Map<Seq<u8>, Seq<u8>>, batch: Seq<Pair>) -> Map<Seq<u8>, Seq<u8>> {
    batch.fold_left(m, |acc: Map<Seq<u8>, Seq<u8>>, p: Pair| acc.insert(p.0, p.1))
}

/// Moves one sent entry from the queue to the in-flight table.
pub open spec fn activate(
    maps: (Map<Seq<u8>, Seq<u8>>, Map<Seq<u8>, Seq<u8>>),
    e: (SendingEventView, Seq<u8>),
) -> (Map<Seq<u8>, Seq<u8>>, Map<Seq<u8>, Seq<u8>>) {
    if e.1.len() == 0 {
        maps
    } else {
        (maps.0.insert(e.1, value_of(e.0)), maps.1.remove(e.1))
    }
}

impl Destination {
    /// The key prefix of this destination's entries.
    pub fn get_prefix(&self) -> (r: Vec<u8>)
        ensures
            r@ == prefix_of(self@),
    {
        match self {
            Destination::Normal(s) => {
                let mut p = copy_bytes(s.as_str().as_bytes());
                p.push(0xFFu8);
                p
            },
            Destination::Appservice(s) => {
                let mut p: Vec<u8> = vec![43u8];
                append_bytes(&mut p, s.as_str().as_bytes());
                p.push(0xFFu8);
                assert(p@ =~= seq![43u8] + encode_utf8(s@).push(0xFFu8));
                p
            },
            Destination::Push(u, k) => {
                let mut p: Vec<u8> = vec![36u8];
                append_bytes(&mut p, u.as_str().as_bytes());
                p.push(0xFFu8);
                append_bytes(&mut p, k.as_str().as_bytes());
                p.push(0xFFu8);
                assert(p@ =~= seq![36u8] + encode_utf8(u@).push(0xFFu8) + encode_utf8(k@).push(0xFFu8));
                p
            },
        }
    }
}

/// The event that a stored entry holds.
fn event_of(tail: &[u8], value: Vec<u8>) -> (r: SendingEvent)
    ensures
        r@ == event_from(tail@, value@),
{
    if value.len() == 0 {
        SendingEvent::Pdu(copy_bytes(tail))
    } else {
        SendingEvent::Edu(value)
    }
}

/// Reads the destination and event of a stored entry.
pub fn parse_servercurrentevent(key: &[u8], value: Vec<u8>) -> (r: Result<(Destination, SendingEvent), Error>)
    ensures
        r is Ok <==> parse_entry(key@, value@) is Some,
        r is Ok ==> (r->Ok_0.0@, r->Ok_0.1@) == parse_entry(key@, value@)->Some_0,
        r is Err ==> r->Err_0 == Error::BadDatabase,
{
    let n = key.len();
    if n > 0 && key[0] == 43u8 {
        let rest = &key[1..n];
        assert(rest@ =~= key@.drop_first());
        let i = match first_ff_from(rest, 0) {
            None => return Err(Error::BadDatabase),
            Some(i) => i,
        };
        proof {
            lemma_ff_from(rest@, 0);
        }
        let server = match string_from_bytes(&rest[0..i]) {
            Ok(s) => s,
            Err(()) => {
                assert(rest@.subrange(0, i as int) =~= rest@.take(i as int));
                return Err(Error::BadDatabase);
            },
        };
        assert(rest@.subrange(0, i as int) =~= rest@.take(i as int));
        let tail = &rest[i + 1..rest.len()];
        assert(tail@ =~= rest@.skip(i + 1));
        Ok((Destination::Appservice(server), event_of(tail, value)))
    } else if n > 0 && key[0] == 36u8 {
        let rest = &key[1..n];
        assert(rest@ =~= key@.drop_first());
        let i = match first_ff_from(rest, 0) {
            None => return Err(Error::BadDatabase),
            Some(i) => i,
        };
        proof {
            lemma_ff_from(rest@, 0);
        }
        let j = match first_ff_from(rest, i + 1) {
            None => return Err(Error::BadDatabase),
            Some(j) => j,
        };
        proof {
            lemma_ff_from(rest@, i + 1);
        }
        assert(rest@.subrange(0, i as int) =~= rest@.take(i as int));
        let user = match string_from_bytes(&rest[0..i]) {
            Ok(s) => s,
            Err(()) => return Err(Error::BadDatabase),
        };
        let pushkey = match string_from_bytes(&rest[i + 1..j]) {
            Ok(s) => s,
            Err(()) => return Err(Error::BadDatabase),
        };
        let tail = &rest[j + 1..rest.len()];
        assert(tail@ =~= rest@.skip(j + 1));
        Ok((Destination::Push(user, pushkey), event_of(tail, value)))
    } else {
        let i = match first_ff_from(key, 0) {
            None => return Err(Error::BadDatabase),
            Some(i) => i,
        };
        proof {
            lemma_ff_from(key@, 0);
        }
        assert(key@.subrange(0, i as int) =~= key@.take(i as int));
        let server = match string_from_bytes(&key[0..i]) {
            Ok(s) => s,
            Err(()) => return Err(Error::BadDatabase),
        };
        let tail = &key[i + 1..n];
        assert(tail@ =~= key@.skip(i + 1));
        Ok((Destination::Normal(server), event_of(tail, value)))
    }
}

} // verus!

verus! {

/// The outbound queue: entries waiting per destination, entries in flight,
/// and the last EDU count sent to each server.
pub struct Sending {
    pub servercurrentevent_data: Tree,
    pub servernameevent_data: Tree,
    pub servername_educount: Tree,
}

/// The records of `t` as a sequence of byte pairs.
pub open spec fn entries_view(r: Seq<(Vec<u8>, Vec<u8>)>) -> Seq<Pair> {
    r.map_values(|e: (Vec<u8>, Vec<u8>)| (e.0@, e.1@))
}

/// Reads back every record of a scan.
fn parse_all(scan: Vec<(Vec<u8>, Vec<u8>)>) -> (r: Vec<Result<(Vec<u8>, Destination, SendingEvent), Error>>)
    ensures
        r@.len() == scan@.len(),
        forall|i: int|
            0 <= i < r@.len() ==> (#[trigger] r@[i] is Ok <==> parse_entry(scan@[i].0@, scan@[i].1@) is Some),
        forall|i: int|
            0 <= i < r@.len() && #[trigger] r@[i] is Ok ==> r@[i]->Ok_0.0@ == scan@[i].0@ && (
            r@[i]->Ok_0.1@, r@[i]->Ok_0.2@) == parse_entry(scan@[i].0@, scan@[i].1@)->Some_0,
{
    let mut r: Vec<Result<(Vec<u8>, Destination, SendingEvent), Error>> = Vec::new();
    let mut i: usize = 0;
    while i < scan.len()
        invariant
            i <= scan@.len(),
            r@.len() == i,
            forall|j: int|
                0 <= j < i ==> (#[trigger] r@[j] is Ok <==> parse_entry(scan@[j].0@, scan@[j].1@) is Some),
            forall|j: int|
                0 <= j < i && #[trigger] r@[j] is Ok ==> r@[j]->Ok_0.0@ == scan@[j].0@ && (
                r@[j]->Ok_0.1@, r@[j]->Ok_0.2@) == parse_entry(scan@[j].0@, scan@[j].1@)->Some_0,
        decreases scan@.len() - i,
    {
        let key = copy_bytes(scan[i].0.as_slice());
        let value = copy_bytes(scan[i].1.as_slice());
        let e = match parse_servercurrentevent(key.as_slice(), value) {
            Ok((d, ev)) => Ok((key, d, ev)),
            Err(e) => Err(e),
        };
        r.push(e);
        i += 1;
    }
    r
}

impl Sending {
    pub open spec fn wf(&self) -> bool {
        &&& self.servercurrentevent_data.wf()
        &&& self.servernameevent_data.wf()
        &&& self.servername_educount.wf()
    }

    pub fn new() -> (r: Sending)
        ensures
            r.wf(),
            r.servercurrentevent_data@ == Map::<Seq<u8>, Seq<u8>>::empty(),
            r.servernameevent_data@ == Map::<Seq<u8>, Seq<u8>>::empty(),
            r.servername_educount@ == Map::<Seq<u8>, Seq<u8>>::empty(),
    {
        Sending {
            servercurrentevent_data: Tree::new(),
            servernameevent_data: Tree::new(),
            servername_educount: Tree::new(),
        }
    }

    /// Every entry in flight, with its key.
    pub fn active_requests(&self) -> (r: Vec<Result<(Vec<u8>, Destination, SendingEvent), Error>>)
        requires
            self.wf(),
        ensures
            r@.len() == self.servercurrentevent_data.pairs().len(),
            forall|i: int|
                0 <= i < r@.len() ==> (#[trigger] r@[i] is Ok <==> parse_entry(
                    self.servercurrentevent_data.pairs()[i].0,
                    self.servercurrentevent_data.pairs()[i].1,
                ) is Some),
            forall|i: int|
                0 <= i < r@.len() && #[trigger] r@[i] is Ok ==> r@[i]->Ok_0.0@
                    == self.servercurrentevent_data.pairs()[i].0 && (r@[i]->Ok_0.1@, r@[i]->Ok_0.2@)
                    == parse_entry(
                    self.servercurrentevent_data.pairs()[i].0,
                    self.servercurrentevent_data.pairs()[i].1,
                )->Some_0,
    {
        let empty: Vec<u8> = Vec::new();
        let scan = self.servercurrentevent_data.scan_prefix(empty.as_slice());
        proof {
            let s = self.servercurrentevent_data.pairs();
            let pred = |e: Pair| has_prefix(e.0, empty@);
            assert forall|j: int| 0 <= j < s.len() implies pred(#[trigger] s[j]) by {
                assert(s[j].0.subrange(0, 0) =~= empty@);
            }
            crate::tree::lemma_filter_all(s, pred);
            assert(entries_view(scan@) == s);
            assert forall|i: int| 0 <= i < scan@.len() implies #[trigger] scan@[i].0@ == s[i].0
                && scan@[i].1@ == s[i].1 by {
                assert(entries_view(scan@)[i] == s[i]);
            }
        }
        parse_all(scan)
    }

    /// The entries in flight to `destination`, in order, with their keys.
    pub fn active_requests_for(&self, destination: &Destination) -> (r: Vec<
        Result<(Vec<u8>, Destination, SendingEvent), Error>,
    >)
        requires
            self.wf(),
        ensures
            r@.len() == with_prefix(self.servercurrentevent_data.pairs(), prefix_of(destination@)).len(),
            forall|i: int|
                0 <= i < r@.len() ==> (#[trigger] r@[i] is Ok <==> parse_entry(
                    with_prefix(self.servercurrentevent_data.pairs(), prefix_of(destination@))[i].0,
                    with_prefix(self.servercurrentevent_data.pairs(), prefix_of(destination@))[i].1,
                ) is Some),
            forall|i: int|
                0 <= i < r@.len() && #[trigger] r@[i] is Ok ==> r@[i]->Ok_0.0@ == with_prefix(
                    self.servercurrentevent_data.pairs(),
                    prefix_of(destination@),
                )[i].0 && (r@[i]->Ok_0.1@, r@[i]->Ok_0.2@) == parse_entry(
                    with_prefix(self.servercurrentevent_data.pairs(), prefix_of(destination@))[i].0,
                    with_prefix(self.servercurrentevent_data.pairs(), prefix_of(destination@))[i].1,
                )->Some_0,
    {
        let prefix = destination.get_prefix();
        let scan = self.servercurrentevent_data.scan_prefix(prefix.as_slice());
        proof {
            let w = with_prefix(self.servercurrentevent_data.pairs(), prefix@);
            assert forall|i: int| 0 <= i < scan@.len() implies #[trigger] scan@[i].0@ == w[i].0
                && scan@[i].1@ == w[i].1 by {
                assert(entries_view(scan@)[i] == w[i]);
            }
        }
        parse_all(scan)
    }

    /// The entries waiting for `destination`, in the order they were queued,
    /// with their keys.
    pub fn queued_requests(&self, destination: &Destination) -> (r: Vec<
        Result<(Vec<u8>, Destination, SendingEvent), Error>,
    >)
        requires
            self.wf(),
        ensures
            r@.len() == with_prefix(self.servernameevent_data.pairs(), prefix_of(destination@)).len(),
            forall|i: int|
                0 <= i < r@.len() ==> (#[trigger] r@[i] is Ok <==> parse_entry(
                    with_prefix(self.servernameevent_data.pairs(), prefix_of(destination@))[i].0,
                    with_prefix(self.servernameevent_data.pairs(), prefix_of(destination@))[i].1,
                ) is Some),
            forall|i: int|
                0 <= i < r@.len() && #[trigger] r@[i] is Ok ==> r@[i]->Ok_0.0@ == with_prefix(
                    self.servernameevent_data.pairs(),
                    prefix_of(destination@),
                )[i].0 && (r@[i]->Ok_0.1@, r@[i]->Ok_0.2@) == parse_entry(
                    with_prefix(self.servernameevent_data.pairs(), prefix_of(destination@))[i].0,
                    with_prefix(self.servernameevent_data.pairs(), prefix_of(destination@))[i].1,
                )->Some_0,
    {
        let prefix = destination.get_prefix();
        let scan = self.servernameevent_data.scan_prefix(prefix.as_slice());
        proof {
            let w = with_prefix(self.servernameevent_data.pairs(), prefix@);
            assert forall|i: int| 0 <= i < scan@.len() implies #[trigger] scan@[i].0@ == w[i].0
                && scan@[i].1@ == w[i].1 by {
                assert(entries_view(scan@)[i] == w[i]);
            }
        }
        parse_all(scan)
    }

    /// Forgets one entry in flight.
    pub fn delete_active_request(&mut self, key: &[u8])
        requires
            old(self).wf(),
        ensures
            final(self).wf(),
            final(self).servercurrentevent_data@ == old(self).servercurrentevent_data@.remove(key@),
            final(self).servernameevent_data@ == old(self).servernameevent_data@,
            final(self).servername_educount@ == old(self).servername_educount@,
    {
        self.servercurrentevent_data.remove(key);
    }

    /// Forgets every entry in flight to `destination`.
    pub fn delete_all_active_requests_for(&mut self, destination: &Destination)
        requires
            old(self).wf(),
        ensures
            final(self).wf(),
            forall|k: Seq<u8>| #[trigger]
                final(self).servercurrentevent_data@.contains_key(k) <==> old(
                    self,
                ).servercurrentevent_data@.contains_key(k) && !has_prefix(k, prefix_of(destination@)),
            forall|k: Seq<u8>| #[trigger]
                final(self).servercurrentevent_data@.contains_key(k)
                    ==> final(self).servercurrentevent_data@[k] == old(self).servercurrentevent_data@[k],
            final(self).servernameevent_data@ == old(self).servernameevent_data@,
            final(self).servername_educount@ == old(self).servername_educount@,
    {
        let prefix = destination.get_prefix();
        crate::tree::remove_prefixed(&mut self.servercurrentevent_data, prefix.as_slice());
    }

    /// Forgets every entry for `destination`, in flight or waiting.
    pub fn delete_all_requests_for(&mut self, destination: &Destination)
        requires
            old(self).wf(),
        ensures
            final(self).wf(),
            forall|k: Seq<u8>| #[trigger]
                final(self).servercurrentevent_data@.contains_key(k) <==> old(
                    self,
                ).servercurrentevent_data@.contains_key(k) && !has_prefix(k, prefix_of(destination@)),
            forall|k: Seq<u8>| #[trigger]
                final(self).servercurrentevent_data@.contains_key(k)
                    ==> final(self).servercurrentevent_data@[k] == old(self).servercurrentevent_data@[k],
            forall|k: Seq<u8>| #[trigger]
                final(self).servernameevent_data@.contains_key(k) <==> old(
                    self,
                ).servernameevent_data@.contains_key(k) && !has_prefix(k, prefix_of(destination@)),
            forall|k: Seq<u8>| #[trigger]
                final(self).servernameevent_data@.contains_key(k)
                    ==> final(self).servernameevent_data@[k] == old(self).servernameevent_data@[k],
            final(self).servername_educount@ == old(self).servername_educount@,
    {
        let prefix = destination.get_prefix();
        crate::tree::remove_prefixed(&mut self.servercurrentevent_data, prefix.as_slice());
        crate::tree::remove_prefixed(&mut self.servernameevent_data, prefix.as_slice());
    }

    /// Queues each request under its destination's prefix: a PDU under its
    /// pdu id, anything else under a fresh count, so that a destination's
    /// entries come out in the order they were queued. Returns the keys.
    /// Nothing is written unless every count could be allocated.
    pub fn queue_requests(&mut self, g: &mut Globals, requests: &Vec<(Destination, SendingEvent)>) -> (r:
        Result<Vec<Vec<u8>>, Error>)
        requires
            old(self).wf(),
            old(g).wf(),
        ensures
            final(self).wf(),
            final(g).wf(),
            old(g).count() <= u64::MAX - requests@.len() ==> r is Ok,
            r is Err ==> final(self).servernameevent_data@ == old(self).servernameevent_data@,
            final(g).count() >= old(g).count(),
            r is Ok ==> r->Ok_0@.len() == requests@.len(),
            r is Ok ==> forall|i: int|
                0 <= i < requests@.len() ==> (#[trigger] r->Ok_0@[i])@ == prefix_of(requests@[i].0@)
                    + r->Ok_0@[i]@.skip(prefix_of(requests@[i].0@).len() as int) && tail_ok(
                    requests@[i].1@,
                    r->Ok_0@[i]@.skip(prefix_of(requests@[i].0@).len() as int),
                ),
            r is Ok ==> forall|i: int|
                0 <= i < requests@.len() && !(requests@[i].1@ is Pdu) ==> old(g).count() < be_value(
                    (#[trigger] r->Ok_0@[i])@.skip(prefix_of(requests@[i].0@).len() as int),
                ) <= final(g).count(),
            r is Ok ==> forall|i: int, j: int|
                0 <= i < j < requests@.len() && !(requests@[i].1@ is Pdu) && !(requests@[j].1@ is Pdu)
                    ==> be_value((#[trigger] r->Ok_0@[i])@.skip(prefix_of(requests@[i].0@).len() as int))
                    < be_value((#[trigger] r->Ok_0@[j])@.skip(prefix_of(requests@[j].0@).len() as int)),
            r is Ok ==> final(self).servernameevent_data@ == insert_all(
                old(self).servernameevent_data@,
                Seq::new(
                    requests@.len(),
                    |i: int| (r->Ok_0@[i]@, value_of(requests@[i].1@)),
                ),
            ),
            final(self).servercurrentevent_data@ == old(self).servercurrentevent_data@,
            final(self).servername_educount@ == old(self).servername_educount@,
    {
        let mut keys: Vec<Vec<u8>> = Vec::new();
        let mut i: usize = 0;
        while i < requests.len()
            invariant
                g.wf(),
                self.wf(),
                self.servernameevent_data@ == old(self).servernameevent_data@,
                self.servercurrentevent_data@ == old(self).servercurrentevent_data@,
                self.servername_educount@ == old(self).servername_educount@,
                i <= requests@.len(),
                keys@.len() == i,
                old(g).count() <= g.count() <= old(g).count() + i,
                forall|j: int|
                    0 <= j < i ==> (#[trigger] keys@[j])@ == prefix_of(requests@[j].0@) + keys@[j]@.skip(
                        prefix_of(requests@[j].0@).len() as int,
                    ) && tail_ok(
                        requests@[j].1@,
                        keys@[j]@.skip(prefix_of(requests@[j].0@).len() as int),
                    ),
                forall|j: int|
                    0 <= j < i && !(requests@[j].1@ is Pdu) ==> old(g).count() < be_value(
                        (#[trigger] keys@[j])@.skip(prefix_of(requests@[j].0@).len() as int),
                    ) <= g.count(),
                forall|a: int, b: int|
                    0 <= a < b < i && !(requests@[a].1@ is Pdu) && !(requests@[b].1@ is Pdu) ==> be_value(
                        (#[trigger] keys@[a])@.skip(prefix_of(requests@[a].0@).len() as int),
                    ) < be_value((#[trigger] keys@[b])@.skip(prefix_of(requests@[b].0@).len() as int)),
            decreases requests@.len() - i,
        {
            let mut key = requests[i].0.get_prefix();
            let ghost p = key@;
            match &requests[i].1 {
                SendingEvent::Pdu(id) => {
                    append_bytes(&mut key, id.as_slice());
                    assert(key@.skip(p.len() as int) =~= id@);
                },
                _ => {
                    let c = match g.next_count() {
                        Ok(c) => c,
                        Err(e) => return Err(e),
                    };
                    let cb = u64_to_bytes(c);
                    append_bytes(&mut key, cb.as_slice());
                    proof {
                        lemma_be_value_of_bytes(c);
                        assert(key@.skip(p.len() as int) =~= cb@);
                    }
                },
            }
            assert(key@ =~= p + key@.skip(p.len() as int));
            keys.push(key);
            i += 1;
        }
        let ghost batch = Seq::new(
            requests@.len(),
            |i: int| (keys@[i]@, value_of(requests@[i].1@)),
        );
        let mut j: usize = 0;
        while j < keys.len()
            invariant
                self.wf(),
                j <= keys@.len(),
                keys@.len() == requests@.len(),
                batch == Seq::new(requests@.len(), |i: int| (keys@[i]@, value_of(requests@[i].1@))),
                self.servernameevent_data@ == insert_all(old(self).servernameevent_data@, batch.take(j as int)),
                self.servercurrentevent_data@ == old(self).servercurrentevent_data@,
                self.servername_educount@ == old(self).servername_educount@,
            decreases keys@.len() - j,
        {
            let empty: Vec<u8> = Vec::new();
            let value: &[u8] = match &requests[j].1 {
                SendingEvent::Edu(v) => v.as_slice(),
                _ => empty.as_slice(),
            };
            assert(value@ == value_of(requests@[j as int].1@)) by {
                if !(requests@[j as int].1@ is Edu) {
                    assert(value@ =~= Seq::<u8>::empty());
                }
            }
            self.servernameevent_data.insert(keys[j].as_slice(), value);
            assert(batch.take(j + 1).drop_last() =~= batch.take(j as int));
            j += 1;
        }
        assert(batch.take(keys@.len() as int) =~= batch);
        Ok(keys)
    }

    /// Moves sent entries from the queue to the in-flight table; entries
    /// with an empty key are skipped.
    pub fn mark_as_active(&mut self, events: &Vec<(SendingEvent, Vec<u8>)>)
        requires
            old(self).wf(),
        ensures
            final(self).wf(),
            (final(self).servercurrentevent_data@, final(self).servernameevent_data@) == events@.map_values(
                |e: (SendingEvent, Vec<u8>)| (e.0@, e.1@),
            ).fold_left(
                (old(self).servercurrentevent_data@, old(self).servernameevent_data@),
                |m: (Map<Seq<u8>, Seq<u8>>, Map<Seq<u8>, Seq<u8>>), e: (SendingEventView, Seq<u8>)| activate(m, e),
            ),
            final(self).servername_educount@ == old(self).servername_educount@,
    {
        let ghost ev = events@.map_values(|e: (SendingEvent, Vec<u8>)| (e.0@, e.1@));
        let ghost f = |m: (Map<Seq<u8>, Seq<u8>>, Map<Seq<u8>, Seq<u8>>), e: (SendingEventView, Seq<u8>)|
            activate(m, e);
        let mut i: usize = 0;
        while i < events.len()
            invariant
                self.wf(),
                i <= events@.len(),
                ev == events@.map_values(|e: (SendingEvent, Vec<u8>)| (e.0@, e.1@)),
                f == (|m: (Map<Seq<u8>, Seq<u8>>, Map<Seq<u8>, Seq<u8>>), e: (SendingEventView, Seq<u8>)|
                    activate(m, e)),
                (self.servercurrentevent_data@, self.servernameevent_data@) == ev.take(i as int).fold_left(
                    (old(self).servercurrentevent_data@, old(self).servernameevent_data@),
                    f,
                ),
                self.servername_educount@ == old(self).servername_educount@,
            decreases events@.len() - i,
        {
            assert(ev.take(i + 1).drop_last() =~= ev.take(i as int));
            let key = events[i].1.as_slice();
            if key.len() != 0 {
                let empty: Vec<u8> = Vec::new();
                let value: &[u8] = match &events[i].0 {
                    SendingEvent::Edu(v) => v.as_slice(),
                    _ => empty.as_slice(),
                };
                assert(value@ == value_of(events@[i as int].0@)) by {
                    if !(events@[i as int].0@ is Edu) {
                        assert(value@ =~= Seq::<u8>::empty());
                    }
                }
                self.servercurrentevent_data.insert(key, value);
                self.servernameevent_data.remove(key);
            }
            i += 1;
        }
        assert(ev.take(events@.len() as int) =~= ev);
    }

    /// Records the last EDU count sent to `server_name`.
    pub fn set_latest_educount(&mut self, server_name: &str, last_count: u64)
        requires
            old(self).wf(),
        ensures
            final(self).wf(),
            final(self).servername_educount@ == old(self).servername_educount@.insert(
                encode_utf8(server_name@),
                be_bytes(last_count),
            ),
            final(self).servercurrentevent_data@ == old(self).servercurrentevent_data@,
            final(self).servernameevent_data@ == old(self).servernameevent_data@,
    {
        let key = copy_bytes(server_name.as_bytes());
        let value = u64_to_bytes(last_count);
        self.servername_educount.insert(key.as_slice(), value.as_slice());
    }

    /// The last EDU count sent to `server_name`, 0 if none was recorded.
    pub fn get_latest_educount(&self, server_name: &str) -> (r: Result<u64, Error>)
        requires
            self.wf(),
        ensures
            !self.servername_educount@.contains_key(encode_utf8(server_name@)) ==> r == Ok::<u64, Error>(0),
            self.servername_educount@.contains_key(encode_utf8(server_name@)) ==> (r is Ok
                <==> self.servername_educount@[encode_utf8(server_name@)].len() == 8),
            self.servername_educount@.contains_key(encode_utf8(server_name@)) && r is Ok ==> r->Ok_0
                == be_value(self.servername_educount@[encode_utf8(server_name@)]),
            r is Err ==> r->Err_0 == Error::BadDatabase,
    {
        let key = copy_bytes(server_name.as_bytes());
        match self.servername_educount.get(key.as_slice()) {
            None => Ok(0),
            Some(b) => match u64_from_bytes(b.as_slice()) {
                Ok(v) => Ok(v),
                Err(()) => Err(Error::BadDatabase),
            },
        }
    }
}

} // verus!
