use nrs::codec::{encode_frame, FrameError, LineBuffer};
use nrs::connection::{Connection, Step};
use nrs::handshake::{
    check_hello, hello_reply, negotiate, HandshakeError, Role, JOINED_REPLY, REJECTED_REPLY,
    UNSUPPORTED_REPLY,
};
use nrs::registry::Registry;

fn hello(role: &str, channel: &str, version: i64) -> Vec<u8> {
    format!(
        "{{\"type\":\"join\",\"role\":\"{}\",\"channel\":\"{}\",\"version\":{}}}",
        role, channel, version
    )
    .into_bytes()
}

fn joined_client(reg: &mut Registry, id: u64, role: &str, channel: &str) -> Connection {
    let mut c = Connection::new(id);
    let step = c.on_frame(reg, &hello(role, channel, 2), 0);
    assert_eq!(step, Step { reply: Some(JOINED_REPLY), close: false, dropped: false, missed: 0 });
    c
}

fn bytes(s: &str) -> Vec<u8> {
    s.as_bytes().to_vec()
}

#[test]
fn master_key_frame_reaches_slave_only() {
    let mut reg = Registry::new(256);
    let mut a = Connection::new(1);
    let mut b = Connection::new(2);
    let sa = a.on_frame(&mut reg, br#"{"type":"join","role":"master","channel":"room1","version":2}"#, 0);
    let sb = b.on_frame(&mut reg, br#"{"type":"join","role":"slave","channel":"room1","version":2}"#, 0);
    assert_eq!(sa, Step { reply: Some(JOINED_REPLY), close: false, dropped: false, missed: 0 });
    assert_eq!(sb, Step { reply: Some(JOINED_REPLY), close: false, dropped: false, missed: 0 });
    let msg = br#"{"type":"key","vk_code":65}"#;
    let s = a.on_frame(&mut reg, msg, 1);
    assert!(!s.dropped);
    assert_eq!(s, Step { reply: None, close: false, dropped: false, missed: 0 });
    assert_eq!(reg.take_outbox(b"room1", 2), vec![msg.to_vec()]);
    assert!(reg.take_outbox(b"room1", 1).is_empty());
}

#[test]
fn lone_member_disconnect_removes_session() {
    let mut reg = Registry::new(256);
    let mut a = joined_client(&mut reg, 1, "master", "room1");
    a.on_frame(&mut reg, br#"{"type":"key","vk_code":65}"#, 1);
    assert!(reg.contains_key(b"room1"));
    assert!(a.on_hang_up(&mut reg));
    assert!(!reg.contains_key(b"room1"));
    assert_eq!(reg.session_count(), 0);
}

#[test]
fn unsupported_version_rejected_without_session() {
    let mut reg = Registry::new(256);
    let mut a = Connection::new(1);
    let s = a.on_frame(&mut reg, &hello("master", "room1", 999), 0);
    assert_eq!(s, Step { reply: Some(UNSUPPORTED_REPLY), close: true, dropped: false, missed: 0 });
    assert_eq!(reg.session_count(), 0);
    assert!(!a.is_joined());
    assert!(!a.on_hang_up(&mut reg));
}

#[test]
fn same_key_two_connections_share_one_session() {
    let mut reg = Registry::new(256);
    let _a = joined_client(&mut reg, 1, "master", "k");
    let _b = joined_client(&mut reg, 2, "slave", "k");
    assert_eq!(reg.session_count(), 1);
    assert_eq!(reg.member_ids(b"k"), vec![1, 2]);
}

#[test]
fn paired_join_leave_returns_to_baseline() {
    let mut reg = Registry::new(256);
    let _other = joined_client(&mut reg, 100, "slave", "elsewhere");
    let baseline = reg.session_count();
    let mut conns: Vec<Connection> = Vec::new();
    for id in 1..=5u64 {
        conns.push(joined_client(&mut reg, id, if id % 2 == 0 { "slave" } else { "master" }, "batch"));
    }
    assert_eq!(reg.member_count(b"batch"), 5);
    for c in conns.iter_mut() {
        assert!(c.on_hang_up(&mut reg));
    }
    assert_eq!(reg.member_count(b"batch"), 0);
    assert!(!reg.contains_key(b"batch"));
    assert_eq!(reg.session_count(), baseline);
}

#[test]
fn frames_arrive_in_order_once() {
    let mut reg = Registry::new(256);
    let mut s = joined_client(&mut reg, 1, "master", "k");
    let _r = joined_client(&mut reg, 2, "slave", "k");
    let frames = [bytes(r#"{"n":"a"}"#), bytes(r#"{"n":"b"}"#), bytes(r#"{"n":"c"}"#)];
    for f in frames.iter() {
        s.on_frame(&mut reg, f, 1);
    }
    assert_eq!(reg.take_outbox(b"k", 2), frames.to_vec());
    assert!(reg.take_outbox(b"k", 2).is_empty());
}

#[test]
fn sender_never_gets_its_own_frame() {
    let mut reg = Registry::new(256);
    let mut m = joined_client(&mut reg, 7, "master", "k");
    m.on_frame(&mut reg, b"{}", 1);
    assert!(reg.take_outbox(b"k", 7).is_empty());
    let _n = joined_client(&mut reg, 8, "slave", "k");
    m.on_frame(&mut reg, b"[1]", 1);
    assert!(reg.take_outbox(b"k", 7).is_empty());
    assert_eq!(reg.take_outbox(b"k", 8), vec![bytes("[1]")]);
}

#[test]
fn disconnect_in_one_session_leaves_another_alone() {
    let mut reg = Registry::new(256);
    let mut a = joined_client(&mut reg, 1, "master", "k1");
    let _a2 = joined_client(&mut reg, 2, "slave", "k1");
    let mut b = joined_client(&mut reg, 3, "master", "k2");
    let _c = joined_client(&mut reg, 4, "slave", "k2");
    a.on_frame(&mut reg, b"not json", 1);
    assert!(a.on_hang_up(&mut reg));
    b.on_frame(&mut reg, b"{\"x\":1}", 2);
    assert_eq!(reg.take_outbox(b"k2", 4), vec![bytes("{\"x\":1}")]);
    assert_eq!(reg.member_ids(b"k2"), vec![3, 4]);
    assert_eq!(reg.member_ids(b"k1"), vec![2]);
}

#[test]
fn many_first_joins_make_one_session() {
    let mut reg = Registry::new(256);
    for id in 10..20u64 {
        joined_client(&mut reg, id, "slave", "fresh");
    }
    assert_eq!(reg.session_count(), 1);
    assert_eq!(reg.member_ids(b"fresh"), (10..20u64).collect::<Vec<u64>>());
}

#[test]
fn full_outbox_drops_only_for_that_member() {
    let mut reg = Registry::new(1);
    let mut s = joined_client(&mut reg, 1, "master", "k");
    let _slow = joined_client(&mut reg, 2, "slave", "k");
    let _fast = joined_client(&mut reg, 3, "slave", "k");
    s.on_frame(&mut reg, b"1", 1);
    assert_eq!(reg.take_outbox(b"k", 3), vec![bytes("1")]);
    assert_eq!(s.on_frame(&mut reg, b"2", 1), Step { reply: None, close: false, dropped: false, missed: 1 });
    assert_eq!(reg.take_outbox(b"k", 2), vec![bytes("1")]);
    assert_eq!(reg.take_outbox(b"k", 3), vec![bytes("2")]);
    assert_eq!(reg.queue_capacity(), 1);
}

#[test]
fn malformed_frame_after_join_is_dropped() {
    let mut reg = Registry::new(8);
    let mut s = joined_client(&mut reg, 1, "master", "k");
    let _r = joined_client(&mut reg, 2, "slave", "k");
    let step = s.on_frame(&mut reg, b"{oops", 1);
    assert_eq!(step, Step { reply: None, close: false, dropped: true, missed: 0 });
    assert!(s.is_joined());
    assert!(reg.take_outbox(b"k", 2).is_empty());
}

#[test]
fn second_hang_up_does_nothing() {
    let mut reg = Registry::new(8);
    let mut a = joined_client(&mut reg, 1, "master", "k");
    let _b = joined_client(&mut reg, 2, "slave", "k");
    assert!(a.on_hang_up(&mut reg));
    assert!(!a.on_hang_up(&mut reg));
    assert_eq!(reg.member_ids(b"k"), vec![2]);
    assert_eq!(a.on_frame(&mut reg, b"{}", 1), Step { reply: None, close: true, dropped: false, missed: 0 });
}

#[test]
fn hello_timeout_rejects_waiting_connection() {
    let mut reg = Registry::new(8);
    let mut a = Connection::new(1);
    assert_eq!(a.on_hello_timeout(), Step { reply: Some(REJECTED_REPLY), close: true, dropped: false, missed: 0 });
    assert_eq!(a.on_frame(&mut reg, &hello("master", "k", 2), 0), Step { reply: None, close: true, dropped: false, missed: 0 });
    assert_eq!(reg.session_count(), 0);
    let mut b = joined_client(&mut reg, 2, "master", "k");
    assert_eq!(b.on_hello_timeout(), Step { reply: None, close: false, dropped: false, missed: 0 });
    assert!(b.is_joined());
}

#[test]
fn client_already_joined_is_refused() {
    let mut reg = Registry::new(8);
    let _a = joined_client(&mut reg, 1, "master", "k");
    let mut dup = Connection::new(1);
    let s = dup.on_frame(&mut reg, &hello("slave", "other", 2), 0);
    assert_eq!(s, Step { reply: Some(REJECTED_REPLY), close: true, dropped: false, missed: 0 });
    assert!(!reg.contains_key(b"other"));
    assert!(!reg.join(b"x", 1, Role::Slave, 2, 0));
    assert!(reg.join(b"x", 5, Role::Slave, 2, 0));
    assert!(!reg.leave(b"x", 1));
    assert!(reg.leave(b"x", 5));
}

#[test]
fn hello_checks_each_member() {
    let ok = check_hello(Some(bytes("join")), Some(bytes("slave")), Some(bytes("room")), Some(1)).unwrap();
    assert_eq!(ok.role, Role::Slave);
    assert_eq!(ok.key, bytes("room"));
    assert_eq!(ok.version, 1);
    let r = |k: Option<&str>, ro: Option<&str>, c: Option<&str>, v: Option<i64>| {
        check_hello(k.map(bytes), ro.map(bytes), c.map(bytes), v).err()
    };
    assert_eq!(r(None, Some("master"), Some("k"), Some(2)), Some(HandshakeError::HandshakeRejected));
    assert_eq!(r(Some("hello"), Some("master"), Some("k"), Some(2)), Some(HandshakeError::HandshakeRejected));
    assert_eq!(r(Some("join"), Some("boss"), Some("k"), Some(2)), Some(HandshakeError::HandshakeRejected));
    assert_eq!(r(Some("join"), None, Some("k"), Some(2)), Some(HandshakeError::HandshakeRejected));
    assert_eq!(r(Some("join"), Some("master"), None, Some(2)), Some(HandshakeError::HandshakeRejected));
    assert_eq!(r(Some("join"), Some("master"), Some("k"), None), Some(HandshakeError::HandshakeRejected));
    assert_eq!(r(Some("join"), Some("master"), Some("k"), Some(0)), Some(HandshakeError::UnsupportedVersion));
    assert_eq!(r(Some("join"), Some("master"), Some("k"), Some(3)), Some(HandshakeError::UnsupportedVersion));
    assert_eq!(r(Some("join"), Some("master"), Some("k"), Some(999)), Some(HandshakeError::UnsupportedVersion));
    assert_eq!(r(Some("join"), Some("master"), Some("k"), Some(2)), None);
}

#[test]
fn negotiate_reads_json_members() {
    let h = negotiate(&hello("master", "r\u{e9}sum\u{e9}", 2)).unwrap();
    assert_eq!(h.role, Role::Master);
    assert_eq!(h.key, "r\u{e9}sum\u{e9}".as_bytes().to_vec());
    assert_eq!(h.version, 2);
    let escaped = negotiate(br#"{"type":"join","role":"slave","channel":"a\"b","version":1}"#).unwrap();
    assert_eq!(escaped.key, bytes("a\"b"));
    assert_eq!(negotiate(b"not json").err(), Some(HandshakeError::HandshakeRejected));
    assert_eq!(
        negotiate(br#"{"type":"join","role":"master","channel":7,"version":2}"#).err(),
        Some(HandshakeError::HandshakeRejected)
    );
    assert_eq!(
        negotiate(br#"{"type":"join","role":"master","channel":"k","version":"2"}"#).err(),
        Some(HandshakeError::HandshakeRejected)
    );
    assert_eq!(hello_reply(&negotiate(b"[]")), REJECTED_REPLY);
}

#[test]
fn only_json_frames_are_relayed() {
    let mut reg = Registry::new(16);
    let mut s = joined_client(&mut reg, 1, "master", "k");
    let _r = joined_client(&mut reg, 2, "slave", "k");
    let cases: [(&[u8], bool); 5] = [
        (b"{\"a\":[1,2,3]}", true),
        (b"  {}  ", true),
        (b"{\"a\":", false),
        (b"", false),
        (&[0x22, 0xff, 0x22], false),
    ];
    for (frame, valid) in cases.iter() {
        let step = s.on_frame(&mut reg, frame, 1);
        assert_eq!(step.dropped, !*valid);
        let got = reg.take_outbox(b"k", 2);
        if *valid {
            assert_eq!(got, vec![frame.to_vec()]);
        } else {
            assert!(got.is_empty());
        }
    }
}

#[test]
fn line_buffer_splits_frames() {
    let mut lb = LineBuffer::new(64);
    lb.extend(b"{\"a\":1}\n{\"b\"");
    assert_eq!(lb.next_frame(), Ok(Some(bytes("{\"a\":1}"))));
    assert_eq!(lb.next_frame(), Ok(None));
    assert_eq!(lb.pending(), 4);
    lb.extend(b":2}\r\n\n");
    assert_eq!(lb.next_frame(), Ok(Some(bytes("{\"b\":2}"))));
    assert_eq!(lb.next_frame(), Ok(Some(Vec::new())));
    assert_eq!(lb.next_frame(), Ok(None));
    assert_eq!(lb.pending(), 0);
    assert_eq!(lb.max_len(), 64);
}

#[test]
fn line_buffer_refuses_long_frames() {
    let mut lb = LineBuffer::new(3);
    lb.extend(b"abc\n");
    assert_eq!(lb.next_frame(), Ok(Some(bytes("abc"))));
    lb.extend(b"abcd\n");
    assert_eq!(lb.next_frame(), Err(FrameError::FrameTooLong));
    assert_eq!(lb.pending(), 5);
    let mut open = LineBuffer::new(3);
    open.extend(b"abc");
    assert_eq!(open.next_frame(), Ok(None));
    open.extend(b"d");
    assert_eq!(open.next_frame(), Err(FrameError::FrameTooLong));
    let mut cr = LineBuffer::new(3);
    cr.extend(b"abc\r\n");
    assert_eq!(cr.next_frame(), Ok(Some(bytes("abc"))));
}

#[test]
fn encode_appends_terminator() {
    assert_eq!(encode_frame(b"{\"type\":\"joined\"}"), bytes("{\"type\":\"joined\"}\n"));
    assert_eq!(encode_frame(b""), vec![10u8]);
    let mut lb = LineBuffer::new(100);
    lb.extend(&encode_frame(JOINED_REPLY.as_bytes()));
    assert_eq!(lb.next_frame(), Ok(Some(JOINED_REPLY.as_bytes().to_vec())));
}

#[test]
fn session_keeps_its_creation_time() {
    let mut reg = Registry::new(8);
    let mut a = Connection::new(1);
    a.on_frame(&mut reg, &hello("master", "k", 1), 5);
    let mut b = Connection::new(2);
    b.on_frame(&mut reg, &hello("slave", "k", 2), 9);
    assert_eq!(reg.created_at(b"k"), Some(5));
    assert_eq!(reg.created_at(b"other"), None);
    a.on_hang_up(&mut reg);
    b.on_hang_up(&mut reg);
    assert_eq!(reg.created_at(b"k"), None);
}
