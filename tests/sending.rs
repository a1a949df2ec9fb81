use homeserver_core::globals::Globals;
use homeserver_core::sending::{parse_servercurrentevent, Destination, Sending, SendingEvent};
use homeserver_core::Error;

#[test]
fn destination_prefixes() {
    assert_eq!(Destination::Normal("srv".to_owned()).get_prefix(), b"srv\xff".to_vec());
    assert_eq!(Destination::Appservice("bridge".to_owned()).get_prefix(), b"+bridge\xff".to_vec());
    assert_eq!(
        Destination::Push("@u:srv".to_owned(), "key".to_owned()).get_prefix(),
        b"$@u:srv\xffkey\xff".to_vec()
    );
}

#[test]
fn parse_entries() {
    assert_eq!(
        parse_servercurrentevent(b"srv\xff\x01\x02", vec![]),
        Ok((Destination::Normal("srv".to_owned()), SendingEvent::Pdu(vec![1, 2])))
    );
    assert_eq!(
        parse_servercurrentevent(b"+bridge\xff\x07", b"edu".to_vec()),
        Ok((Destination::Appservice("bridge".to_owned()), SendingEvent::Edu(b"edu".to_vec())))
    );
    assert_eq!(
        parse_servercurrentevent(b"$@u:srv\xffkey\xff\x09", vec![]),
        Ok((Destination::Push("@u:srv".to_owned(), "key".to_owned()), SendingEvent::Pdu(vec![9])))
    );
    assert_eq!(parse_servercurrentevent(b"no-separator", vec![]), Err(Error::BadDatabase));
    assert_eq!(parse_servercurrentevent(b"$@u:srv\xffkey", vec![]), Err(Error::BadDatabase));
    assert_eq!(parse_servercurrentevent(b"\xfe\xff\x01", vec![]), Err(Error::BadDatabase));
}

#[test]
fn queue_keeps_order_per_destination() {
    let mut g = Globals::new();
    let mut s = Sending::new();
    let a = Destination::Normal("a.example".to_owned());
    let b = Destination::Normal("b.example".to_owned());
    let keys = s
        .queue_requests(
            &mut g,
            &vec![
                (a.clone(), SendingEvent::Edu(b"first".to_vec())),
                (b.clone(), SendingEvent::Pdu(vec![0, 0, 0, 0, 0, 0, 0, 9])),
                (a.clone(), SendingEvent::Edu(b"second".to_vec())),
            ],
        )
        .unwrap();
    assert_eq!(keys.len(), 3);
    assert_eq!(keys[1], b"b.example\xff\x00\x00\x00\x00\x00\x00\x00\x09".to_vec());
    let queued = s.queued_requests(&a);
    assert_eq!(queued.len(), 2);
    assert_eq!(queued[0].as_ref().unwrap().2, SendingEvent::Edu(b"first".to_vec()));
    assert_eq!(queued[1].as_ref().unwrap().2, SendingEvent::Edu(b"second".to_vec()));
    assert_eq!(s.queued_requests(&b).len(), 1);
}

#[test]
fn mark_active_and_delete() {
    let mut g = Globals::new();
    let mut s = Sending::new();
    let a = Destination::Appservice("bridge".to_owned());
    let keys = s
        .queue_requests(&mut g, &vec![(a.clone(), SendingEvent::Edu(b"x".to_vec()))])
        .unwrap();
    s.mark_as_active(&vec![(SendingEvent::Edu(b"x".to_vec()), keys[0].clone()), (SendingEvent::Flush, vec![])]);
    assert_eq!(s.queued_requests(&a).len(), 0);
    let active = s.active_requests_for(&a);
    assert_eq!(active.len(), 1);
    assert_eq!(active[0].as_ref().unwrap().2, SendingEvent::Edu(b"x".to_vec()));
    assert_eq!(s.active_requests().len(), 1);
    s.delete_all_active_requests_for(&a);
    assert_eq!(s.active_requests().len(), 0);
}

#[test]
fn delete_one_and_all_requests() {
    let mut g = Globals::new();
    let mut s = Sending::new();
    let a = Destination::Normal("a".to_owned());
    let keys = s
        .queue_requests(&mut g, &vec![(a.clone(), SendingEvent::Flush), (a.clone(), SendingEvent::Flush)])
        .unwrap();
    s.mark_as_active(&vec![(SendingEvent::Flush, keys[0].clone())]);
    assert_eq!(s.active_requests().len(), 1);
    s.delete_active_request(&keys[0]);
    assert_eq!(s.active_requests().len(), 0);
    s.delete_all_requests_for(&a);
    assert_eq!(s.queued_requests(&a).len(), 0);
}

#[test]
fn queue_fails_when_counter_exhausted() {
    let mut g = Globals::new();
    g.global.insert(b"c", &u64::MAX.to_be_bytes());
    let mut s = Sending::new();
    let a = Destination::Normal("a".to_owned());
    assert_eq!(s.queue_requests(&mut g, &vec![(a.clone(), SendingEvent::Flush)]), Err(Error::CounterExhausted));
    assert_eq!(s.queued_requests(&a).len(), 0);
}

#[test]
fn educount() {
    let mut s = Sending::new();
    assert_eq!(s.get_latest_educount("srv"), Ok(0));
    s.set_latest_educount("srv", 77);
    assert_eq!(s.get_latest_educount("srv"), Ok(77));
    s.servername_educount.insert(b"bad", b"1");
    assert_eq!(s.get_latest_educount("bad"), Err(Error::BadDatabase));
}
