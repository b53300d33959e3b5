use natsconn::inbound::{payload_read_len, process_msg, FrameError, MsgArgs};
use natsconn::outbound::Outbound;
use natsconn::pongs::{disconnect_and_drain, PongQueue};
use natsconn::protocol::{encode_pub, encode_sub, encode_unsub};
use natsconn::reconnect::establish_session;
use natsconn::servers::{PassPlan, ReconnectPass, Server, ServerSet, Step};
use natsconn::subs::{SubscriptionState, Subscriptions};
use natsconn::writer::{DisconnectWriter, WriteError, Writer};

fn server(host: &str) -> Server {
    Server {
        host: host.to_string(),
        port: 4222,
        tls_required: false,
        auth: None,
        reconnects: 0,
    }
}

fn sub(subject: &str, queue: Option<&str>) -> SubscriptionState {
    SubscriptionState {
        subject: subject.as_bytes().to_vec(),
        queue: queue.map(|q| q.as_bytes().to_vec()),
    }
}

#[test]
fn publish_during_disconnect_replays_on_reconnect() {
    let mut out = Outbound::new(Writer::Tcp(Vec::new()), 1024);
    out.transition_to_disconnected();
    assert!(out.is_disconnected());
    assert_eq!(out.send_pub_msg(b"x", None, b"hi"), Ok(()));
    let sent = out.replace_writer(Writer::Tcp(Vec::new())).unwrap();
    assert_eq!(sent, b"PUB x 2\r\nhi\r\n".to_vec());
    assert!(!out.is_disconnected());
    assert_eq!(out.send_pub_msg(b"y", None, b"").unwrap(), ());
    assert_eq!(out.flush().unwrap(), b"PUB y 0\r\n\r\n".to_vec());
}

#[test]
fn spilled_writes_replay_in_order() {
    let mut out = Outbound::new(Writer::Tls(Vec::new()), 64);
    out.transition_to_disconnected();
    out.send_pub_msg(b"a", Some(b"r"), b"1").unwrap();
    out.send_sub_msg(b"b", Some(b"q"), 7).unwrap();
    let sent = out.replace_writer(Writer::Tls(b"CONNECT {}\r\n".to_vec())).unwrap();
    assert_eq!(sent, b"CONNECT {}\r\nPUB a r 1\r\n1\r\nSUB b q 7\r\n".to_vec());
}

#[test]
fn flush_aborts_on_disconnect() {
    let mut out = Outbound::new(Writer::Tcp(Vec::new()), 1024);
    let mut pongs = PongQueue::new();
    for t in 1..=3u64 {
        assert_eq!(pongs.begin_flush(&mut out, t).unwrap(), b"PING\r\n".to_vec());
    }
    assert_eq!(pongs.len(), 3);
    let aborted = disconnect_and_drain(&mut out, &mut pongs);
    assert_eq!(aborted, vec![1, 2, 3]);
    assert!(out.is_disconnected());
    assert_eq!(pongs.process_pong(), None);
    assert_eq!(pongs.begin_flush(&mut out, 4), Err(WriteError::NotConnected));
    assert_eq!(pongs.len(), 0);
}

#[test]
fn pong_answers_oldest_flush() {
    let mut out = Outbound::new(Writer::Tcp(Vec::new()), 16);
    let mut pongs = PongQueue::new();
    pongs.begin_flush(&mut out, 10).unwrap();
    pongs.begin_flush(&mut out, 11).unwrap();
    assert_eq!(pongs.process_pong(), Some(10));
    assert_eq!(disconnect_and_drain(&mut out, &mut pongs), vec![11]);
}

#[test]
fn ping_rejected_when_disconnected() {
    let mut out = Outbound::new(Writer::Tcp(Vec::new()), 1024);
    out.transition_to_disconnected();
    assert_eq!(out.send_ping(), Err(WriteError::NotConnected));
    assert!(out.is_disconnected());
}

#[test]
fn pong_is_dropped_when_disconnected() {
    let mut out = Outbound::new(Writer::Tcp(Vec::new()), 4);
    assert_eq!(out.send_pong().unwrap(), b"PONG\r\n".to_vec());
    out.transition_to_disconnected();
    assert_eq!(out.send_pong().unwrap(), Vec::<u8>::new());
    assert_eq!(out.send_pub_msg(b"x", None, b""), Err(WriteError::BufferFull));
}

#[test]
fn overflowing_write_keeps_spilled_bytes() {
    let mut out = Outbound::new(Writer::Tcp(Vec::new()), 16);
    out.transition_to_disconnected();
    out.send_pub_msg(b"x", None, b"hi").unwrap();
    assert_eq!(
        out.send_pub_msg(b"x", None, b"too long"),
        Err(WriteError::BufferFull)
    );
    assert!(out.is_disconnected());
    let sent = out.replace_writer(Writer::Tcp(Vec::new())).unwrap();
    assert_eq!(sent, b"PUB x 2\r\nhi\r\n".to_vec());
}

#[test]
fn spill_buffer_fills_to_capacity() {
    let mut d = DisconnectWriter::new(4);
    assert_eq!(d.write(b"ab"), Ok(2));
    assert_eq!(d.write(b"cd"), Ok(2));
    assert_eq!(d.write(b"e"), Err(WriteError::BufferFull));
    assert_eq!(d.write(b""), Ok(0));
    assert_eq!(d.buffered(), b"abcd".to_vec());
    let mut z = DisconnectWriter::new(0);
    assert_eq!(z.write(b"a"), Err(WriteError::BufferFull));
    assert_eq!(z.buffered(), Vec::<u8>::new());
}

#[test]
fn close_is_idempotent() {
    let mut out = Outbound::new(Writer::Tcp(Vec::new()), 16);
    out.send_sub_msg(b"a", None, 1).unwrap();
    assert_eq!(out.close(), b"SUB a 1\r\n".to_vec());
    assert!(out.is_closed());
    assert_eq!(out.close(), Vec::<u8>::new());
    assert!(out.is_closed());
    assert_eq!(out.send_pub_msg(b"a", None, b"x"), Err(WriteError::Closed));
    assert_eq!(out.flush(), Err(WriteError::Closed));
    assert_eq!(out.replace_writer(Writer::Tcp(Vec::new())), Err(WriteError::Closed));
    out.transition_to_disconnected();
    assert!(out.is_closed());
    assert!(!out.flusher_should_wait());
}

#[test]
fn flusher_waits_only_when_idle() {
    let mut out = Outbound::new(Writer::Tcp(Vec::new()), 16);
    assert!(out.flusher_should_wait());
    out.send_response(b"inbox", b"ok").unwrap();
    assert!(!out.flusher_should_wait());
    assert_eq!(out.flush().unwrap(), b"PUB inbox 2\r\nok\r\n".to_vec());
    assert!(out.flusher_should_wait());
    out.transition_to_disconnected();
    assert!(out.flusher_should_wait());
    assert_eq!(out.flush().unwrap(), Vec::<u8>::new());
}

#[test]
fn frames_are_encoded() {
    assert_eq!(encode_pub(b"s", Some(b"r"), b"abc"), b"PUB s r 3\r\nabc\r\n".to_vec());
    assert_eq!(encode_sub(b"s", None, 0), b"SUB s 0\r\n".to_vec());
    assert_eq!(encode_unsub(1234), b"UNSUB 1234\r\n".to_vec());
    let mut out = Outbound::new(Writer::Tcp(b"PUB".to_vec()), 16);
    assert_eq!(out.send_unsub(10).unwrap(), b"PUBUNSUB 10\r\n".to_vec());
}

#[test]
fn resubscribes_after_reconnect() {
    let mut subs = Subscriptions::new();
    subs.insert(1, sub("a", None));
    subs.insert(2, sub("b", Some("q")));
    subs.insert(1, sub("c", None));
    assert!(subs.contains(2));
    assert!(!subs.contains(3));
    let mut out = Outbound::new(Writer::Tcp(Vec::new()), 64);
    out.transition_to_disconnected();
    out.send_pub_msg(b"p", None, b"").unwrap();
    let sent = establish_session(&mut out, &subs, Writer::Tcp(Vec::new())).unwrap();
    assert_eq!(sent, b"PUB p 0\r\n\r\n".to_vec());
    out.send_pub_msg(b"z", None, b"1").unwrap();
    assert_eq!(
        out.flush().unwrap(),
        b"SUB c 1\r\nSUB b q 2\r\nPUB z 1\r\n1\r\n".to_vec()
    );
    assert!(subs.remove(1));
    assert!(!subs.remove(1));
    assert_eq!(subs.encode_all(), b"SUB b q 2\r\n".to_vec());
}

#[test]
fn bounded_exhaustion() {
    let mut set = ServerSet::new(vec![server("a"), server("b")]);
    let mut attempts = vec![0u32; 2];
    let mut passes = 0;
    loop {
        match set.plan_pass(Some(2), false) {
            PassPlan::Try(order) => {
                for i in order {
                    attempts[i] += 1;
                    set.record_failure(i);
                }
                passes += 1;
            }
            PassPlan::Exhausted => break,
            PassPlan::Stop => panic!("not shutting down"),
        }
    }
    assert_eq!(attempts, vec![2, 2]);
    assert_eq!(passes, 2);
    let mut out = Outbound::new(Writer::Tcp(Vec::new()), 16);
    out.close();
    assert!(out.is_closed());
}

#[test]
fn unbounded_retries_until_shutdown() {
    let mut set = ServerSet::new(vec![server("a")]);
    for _ in 0..5 {
        match set.plan_pass(None, false) {
            PassPlan::Try(order) => {
                assert_eq!(order, vec![0]);
                set.record_failure(0);
            }
            _ => panic!("unbounded retries never give up"),
        }
    }
    assert_eq!(set.server(0).reconnects, 5);
    assert!(matches!(set.plan_pass(None, true), PassPlan::Stop));
}

#[test]
fn reconnect_counter_wraps() {
    let mut s = server("a");
    s.reconnects = u32::MAX;
    let mut set = ServerSet::new(vec![s]);
    set.record_failure(0);
    assert_eq!(set.server(0).reconnects, 0);
    set.record_failure(0);
    assert_eq!(set.server(0).reconnects, 1);
}

#[test]
fn info_updates_learned_servers() {
    let mut set = ServerSet::new(vec![server("c")]);
    set.process_info(vec![server("A"), server("B")]);
    assert_eq!(set.len(), 3);
    let order = match set.plan_pass(Some(1), false) {
        PassPlan::Try(order) => order,
        _ => panic!("candidates expected"),
    };
    let mut hosts: Vec<String> = order.iter().map(|&i| set.server(i).host.clone()).collect();
    hosts.sort();
    assert_eq!(hosts, vec!["A".to_string(), "B".to_string(), "c".to_string()]);
}

#[test]
fn connected_resets_counters() {
    let mut set = ServerSet::new(vec![server("a"), server("b")]);
    set.record_failure(1);
    set.record_failure(1);
    assert_eq!(set.candidates(Some(2)), vec![0]);
    set.connected(vec![server("x")]);
    assert_eq!(set.candidates(Some(1)), vec![0, 1, 2]);
    assert_eq!(set.server(2).host, "x");
}

#[test]
fn message_dispatch_to_right_subscription() {
    let mut subs = Subscriptions::new();
    subs.insert(1, sub("a", None));
    subs.insert(2, sub("b", None));
    let args = MsgArgs {
        subject: b"b".to_vec(),
        sid: 2,
        reply: None,
        mlen: 3,
    };
    assert_eq!(payload_read_len(args.mlen), 5);
    let (sid, msg) = process_msg(&subs, args, b"hey\r\n".to_vec()).unwrap().unwrap();
    assert_eq!(sid, 2);
    assert_eq!(msg.data, b"hey".to_vec());
    assert_eq!(msg.reply, None);
    assert_eq!(msg.subject, b"b".to_vec());
    let stray = MsgArgs {
        subject: b"c".to_vec(),
        sid: 9,
        reply: Some(b"r".to_vec()),
        mlen: 1,
    };
    assert!(process_msg(&subs, stray, b"x\r\n".to_vec()).unwrap().is_none());
    assert_eq!(payload_read_len(u32::MAX), u32::MAX as u64 + 2);
}

fn msg_args(sid: usize, mlen: u32) -> MsgArgs {
    MsgArgs {
        subject: b"a".to_vec(),
        sid,
        reply: None,
        mlen,
    }
}

#[test]
fn short_payload_is_an_error() {
    let mut subs = Subscriptions::new();
    subs.insert(1, sub("a", None));
    assert_eq!(
        process_msg(&subs, msg_args(1, 3), b"he".to_vec()).err(),
        Some(FrameError::ShortPayload)
    );
    assert_eq!(
        process_msg(&subs, msg_args(1, 3), b"hey\r".to_vec()).err(),
        Some(FrameError::ShortPayload)
    );
    assert_eq!(
        process_msg(&subs, msg_args(1, 3), b"hey\r\nx".to_vec()).err(),
        Some(FrameError::ShortPayload)
    );
    assert_eq!(
        process_msg(&subs, msg_args(1, 3), b"heyxx".to_vec()).err(),
        Some(FrameError::MissingCrlf)
    );
    let (_, m) = process_msg(&subs, msg_args(1, 0), b"\r\n".to_vec()).unwrap().unwrap();
    assert_eq!(m.data, Vec::<u8>::new());
}

#[test]
fn failed_replay_keeps_spilled_bytes() {
    let mut out = Outbound::new(Writer::Tcp(Vec::new()), 32);
    out.transition_to_disconnected();
    out.send_pub_msg(b"x", None, b"hi").unwrap();
    let replay = out.replace_writer(Writer::Tcp(Vec::new())).unwrap();
    assert_eq!(out.replay_failed(&replay), Ok(()));
    assert!(out.is_disconnected());
    assert_eq!(out.replace_writer(Writer::Tcp(Vec::new())).unwrap(), b"PUB x 2\r\nhi\r\n".to_vec());
    assert_eq!(out.replay_failed(&[0u8; 33]), Err(WriteError::BufferFull));
    assert!(out.is_disconnected());
    out.close();
    assert_eq!(out.replay_failed(b"x"), Err(WriteError::Closed));
    assert!(out.is_closed());
}

#[test]
fn reconnect_steps_stop_after_bound() {
    let mut set = ServerSet::new(vec![server("a"), server("b")]);
    let mut pass = ReconnectPass::new();
    let mut attempts = vec![0u32; 2];
    loop {
        match pass.next_step(&set, Some(2), false) {
            Step::Dial(i) => {
                attempts[i] += 1;
                set.record_failure(i);
            }
            Step::Exhausted => break,
            other => panic!("unexpected step {:?}", other),
        }
    }
    assert_eq!(attempts, vec![2, 2]);
    assert_eq!(set.server(0).reconnects, 2);
    assert_eq!(set.server(1).reconnects, 2);
}

#[test]
fn reconnect_steps_dial_each_once_per_pass() {
    let mut set = ServerSet::new(vec![server("c")]);
    set.process_info(vec![server("A"), server("B")]);
    let mut pass = ReconnectPass::new();
    let mut seen = Vec::new();
    for _ in 0..3 {
        match pass.next_step(&set, None, false) {
            Step::Dial(i) => seen.push(i),
            other => panic!("unexpected step {:?}", other),
        }
    }
    seen.sort();
    assert_eq!(seen, vec![0, 1, 2]);
    assert_eq!(pass.next_step(&set, None, true), Step::Stop);
    let empty = ServerSet::new(Vec::new());
    assert_eq!(ReconnectPass::new().next_step(&empty, None, false), Step::Idle);
}
