use cluster_router::keyslot::hash_slot;
use cluster_router::redirect::{parse_redirect, RedirectKind};
use cluster_router::resp::{key_of, Resp};
use cluster_router::router::{
    asking_command, topology_query, Hop, NodeError, Pending, Router, RouterError, Step, MAX_ATTEMPTS,
};
use cluster_router::slot_map::{parse_row, SlotMap};

fn cmd(words: &[&str]) -> Resp {
    Resp::Array(words.iter().map(|w| Resp::BulkString(w.as_bytes().to_vec())).collect())
}

fn row(start: i64, end: i64, host: &str, port: i64) -> Resp {
    Resp::Array(vec![
        Resp::Integer(start),
        Resp::Integer(end),
        Resp::Array(vec![Resp::BulkString(host.as_bytes().to_vec()), Resp::Integer(port)]),
    ])
}

fn err(s: &str) -> Result<Resp, NodeError> {
    Ok(Resp::Error(s.to_string()))
}

fn addrs(r: &Router) -> Vec<String> {
    r.node_addresses().clone()
}

#[test]
fn moved_is_followed() {
    let mut r = Router::new(vec!["127.0.0.1:7000".into()]);
    let p = r.dispatch(cmd(&["GET", "foo"])).unwrap();
    assert_eq!(p.target, "127.0.0.1:7000");
    assert_eq!(p.attempts, 0);
    assert_eq!(p.hop, Hop::Direct);
    let p = match r.on_reply(p, err("MOVED 5798 127.0.0.1:7001")) {
        Step::Submit(q) => q,
        s => panic!("unexpected {:?}", s),
    };
    assert_eq!(p.target, "127.0.0.1:7001");
    assert_eq!(p.hop, Hop::Moved);
    assert_eq!(p.attempts, 1);
    assert_eq!(p.request, cmd(&["GET", "foo"]));
    assert!(r.is_stale());
    assert_eq!(addrs(&r), vec!["127.0.0.1:7000".to_string(), "127.0.0.1:7001".to_string()]);
    match r.on_reply(p, Ok(Resp::BulkString(b"bar".to_vec()))) {
        Step::Done(Ok(v)) => assert_eq!(v, Resp::BulkString(b"bar".to_vec())),
        s => panic!("unexpected {:?}", s),
    }
    // The stale mark lets a refresh start.
    assert!(r.begin_refresh().is_some());
}

#[test]
fn ask_is_followed_after_asking() {
    let mut r = Router::new(vec!["127.0.0.1:7000".into()]);
    let t = r.begin_refresh().unwrap();
    assert_eq!(t, "127.0.0.1:7000");
    r.finish_refresh(Ok(Resp::Array(vec![row(0, 16383, "127.0.0.1", 7000)])));
    assert!(!r.is_stale());
    let p = r.dispatch(cmd(&["GET", "foo"])).unwrap();
    let p = match r.on_reply(p, err("ASK 5798 127.0.0.1:7001")) {
        Step::Submit(q) => q,
        s => panic!("unexpected {:?}", s),
    };
    assert_eq!(p.target, "127.0.0.1:7001");
    assert_eq!(p.hop, Hop::Asking);
    assert_eq!(p.attempts, 1);
    assert_eq!(asking_command(), cmd(&["ASKING"]));
    assert!(!r.is_stale());
    match r.on_reply(p, Ok(Resp::BulkString(b"bar".to_vec()))) {
        Step::Done(Ok(v)) => assert_eq!(v, Resp::BulkString(b"bar".to_vec())),
        s => panic!("unexpected {:?}", s),
    }
}

#[test]
fn redirection_storm_is_bounded() {
    let mut r = Router::new(vec!["127.0.0.1:9999".into()]);
    let mut p = r.dispatch(cmd(&["GET", "foo"])).unwrap();
    let mut sends = 1;
    let last = loop {
        match r.on_reply(p, err("MOVED 0 127.0.0.1:9999")) {
            Step::Submit(q) => {
                assert_eq!(q.target, "127.0.0.1:9999");
                sends += 1;
                p = q;
            }
            Step::Done(res) => break res,
        }
    };
    assert_eq!(sends, 17);
    assert_eq!(sends, MAX_ATTEMPTS + 1);
    assert_eq!(last, Ok(Resp::Error("MOVED 0 127.0.0.1:9999".to_string())));
    assert_eq!(addrs(&r), vec!["127.0.0.1:9999".to_string()]);
}

#[test]
fn moved_at_the_bound_still_marks_stale() {
    let mut r = Router::new(vec!["a:1".into()]);
    r.begin_refresh().unwrap();
    r.finish_refresh(Ok(Resp::Array(vec![])));
    assert!(!r.is_stale());
    let p = Pending { request: cmd(&["GET", "k"]), attempts: MAX_ATTEMPTS, hop: Hop::Moved, target: "a:1".into() };
    match r.on_reply(p, err("MOVED 1 b:2")) {
        Step::Done(Ok(Resp::Error(e))) => assert_eq!(e, "MOVED 1 b:2"),
        s => panic!("unexpected {:?}", s),
    }
    assert!(r.is_stale());
}

#[test]
fn other_errors_are_terminal() {
    let mut r = Router::new(vec!["a:1".into()]);
    for e in ["ERR wrong type", "MOVED 5798", "MOVED 5798 host", "MOVED 1 host:port", "MOVED 1 h:70000", "MOVEDX 1 h:1", "ASKING 1 h:1"] {
        let p = r.dispatch(cmd(&["GET", "k"])).unwrap();
        match r.on_reply(p, err(e)) {
            Step::Done(Ok(Resp::Error(x))) => assert_eq!(x, e),
            s => panic!("unexpected {:?}", s),
        }
    }
    assert_eq!(addrs(&r), vec!["a:1".to_string()]);
}

#[test]
fn node_failures_end_the_request() {
    let mut r = Router::new(vec!["a:1".into()]);
    let p = r.dispatch(cmd(&["GET", "k"])).unwrap();
    match r.on_reply(p, Err(NodeError::Disconnected)) {
        Step::Done(Err(RouterError::Disconnected)) => (),
        s => panic!("unexpected {:?}", s),
    }
}

#[test]
fn no_node_means_not_connected() {
    let mut r = Router::new(vec![]);
    assert_eq!(r.dispatch(cmd(&["GET", "k"])).unwrap_err(), RouterError::NotConnected);
    assert!(r.begin_refresh().is_none());
}

#[test]
fn seeds_are_kept_once() {
    let r = Router::new(vec!["a:1".into(), "b:2".into(), "a:1".into()]);
    assert_eq!(addrs(&r), vec!["a:1".to_string(), "b:2".to_string()]);
}

fn three_node_router() -> Router {
    let mut r = Router::new(vec!["127.0.0.1:7000".into()]);
    r.begin_refresh_with(0).unwrap();
    let added = r.finish_refresh(Ok(Resp::Array(vec![
        row(0, 5460, "127.0.0.1", 7000),
        row(5461, 10922, "127.0.0.1", 7001),
        row(10923, 16383, "127.0.0.1", 7002),
    ])));
    assert_eq!(added, vec!["127.0.0.1:7001".to_string(), "127.0.0.1:7002".to_string()]);
    r
}

#[test]
fn refresh_installs_map_and_nodes() {
    let r = three_node_router();
    assert!(!r.is_stale());
    assert_eq!(r.slot_owner(0).unwrap(), "127.0.0.1:7000");
    assert_eq!(r.slot_owner(5460).unwrap(), "127.0.0.1:7000");
    assert_eq!(r.slot_owner(5461).unwrap(), "127.0.0.1:7001");
    assert_eq!(r.slot_owner(16383).unwrap(), "127.0.0.1:7002");
    assert_eq!(addrs(&r).len(), 3);
}

#[test]
fn selection_is_deterministic_for_known_slots() {
    let mut r = three_node_router();
    // "foo" is in slot 12182, served by the third node.
    for pick in 0..10 {
        assert_eq!(r.select_with(&cmd(&["GET", "foo"]), pick).unwrap(), "127.0.0.1:7002");
    }
    for _ in 0..10 {
        assert_eq!(r.dispatch(cmd(&["GET", "foo"])).unwrap().target, "127.0.0.1:7002");
    }
    // A keyless request goes to the node at the pick.
    assert_eq!(r.select_with(&cmd(&["PING"]), 4).unwrap(), "127.0.0.1:7001");
}

#[test]
fn unknown_slot_marks_stale() {
    let mut r = Router::new(vec!["a:1".into()]);
    r.begin_refresh().unwrap();
    r.finish_refresh(Ok(Resp::Array(vec![row(0, 10, "a", 1)])));
    assert!(!r.is_stale());
    let p = r.dispatch(cmd(&["PING"])).unwrap();
    assert_eq!(p.target, "a:1");
    assert!(!r.is_stale());
    let p = r.dispatch(cmd(&["GET", "foo"])).unwrap();
    assert_eq!(p.target, "a:1");
    assert!(r.is_stale());
}

#[test]
fn failed_refresh_keeps_map() {
    let mut r = three_node_router();
    let p = r.dispatch(cmd(&["GET", "foo"])).unwrap();
    r.on_reply(p, err("MOVED 12182 127.0.0.1:7000"));
    assert!(r.is_stale());
    assert!(r.begin_refresh().is_some());
    // A second refresh does not start while one is in flight.
    assert!(r.begin_refresh().is_none());
    let added = r.finish_refresh(Err(NodeError::Disconnected));
    assert!(added.is_empty());
    assert!(r.is_stale());
    assert_eq!(r.slot_owner(12182).unwrap(), "127.0.0.1:7002");
    r.begin_refresh().unwrap();
    r.finish_refresh(Ok(Resp::SimpleString("OK".into())));
    assert!(r.is_stale());
    assert_eq!(r.slot_owner(12182).unwrap(), "127.0.0.1:7002");
}

#[test]
fn topology_query_words() {
    assert_eq!(topology_query(), cmd(&["CLUSTER", "SLOTS"]));
}

#[test]
fn slot_map_rejects_unsorted_and_overlapping() {
    assert!(SlotMap::from_reply(&Resp::Array(vec![row(100, 200, "a", 1), row(0, 50, "b", 2)])).is_none());
    assert!(SlotMap::from_reply(&Resp::Array(vec![row(0, 100, "a", 1), row(100, 200, "b", 2)])).is_none());
    assert!(SlotMap::from_reply(&Resp::Integer(3)).is_none());
    assert!(SlotMap::from_reply(&Resp::Array(vec![Resp::Nil])).is_none());
    let m = SlotMap::from_reply(&Resp::Array(vec![])).unwrap();
    assert_eq!(m.len(), 0);
}

#[test]
fn slot_map_skips_malformed_rows() {
    let reply = Resp::Array(vec![
        row(0, 100, "a", 1),
        Resp::Nil,
        row(300, 200, "bad", 1),
        row(16000, 16384, "bad", 1),
        row(400, 500, "bad", -1),
        Resp::Array(vec![Resp::Integer(600), Resp::Integer(700)]),
        row(800, 900, "b", 65000),
    ]);
    let m = SlotMap::from_reply(&reply).unwrap();
    assert_eq!(m.len(), 2);
    assert_eq!(m.primary(0), "a:1");
    assert_eq!(m.primary(1), "b:65000");
    assert_eq!(m.resolve(50).unwrap(), "a:1");
    assert_eq!(m.resolve(100).unwrap(), "a:1");
    assert!(m.resolve(101).is_none());
    assert!(m.resolve(799).is_none());
    assert_eq!(m.resolve(800).unwrap(), "b:65000");
    assert_eq!(m.resolve(900).unwrap(), "b:65000");
    assert!(m.resolve(901).is_none());
}

#[test]
fn row_host_forms() {
    let simple = Resp::Array(vec![
        Resp::Integer(0),
        Resp::Integer(1),
        Resp::Array(vec![Resp::SimpleString("h".into()), Resp::Integer(0), Resp::BulkString(b"id".to_vec())]),
    ]);
    assert_eq!(parse_row(&simple).unwrap().primary, "h:0");
    let big = row(0, 1, "10.0.0.1", 1234567890);
    assert_eq!(parse_row(&big).unwrap().primary, "10.0.0.1:1234567890");
    let lossy = Resp::Array(vec![
        Resp::Integer(0),
        Resp::Integer(1),
        Resp::Array(vec![Resp::BulkString(vec![b'h', 0xff]), Resp::Integer(7)]),
    ]);
    assert_eq!(parse_row(&lossy).unwrap().primary, "h\u{fffd}:7");
}

#[test]
fn redirect_parsing() {
    let r = parse_redirect("MOVED 5798 127.0.0.1:7001").unwrap();
    assert_eq!(r.kind, RedirectKind::Moved);
    assert_eq!(r.address, "127.0.0.1:7001");
    let r = parse_redirect("ASK 5798 127.0.0.1:7001 extra tokens").unwrap();
    assert_eq!(r.kind, RedirectKind::Ask);
    assert_eq!(r.address, "127.0.0.1:7001");
    assert_eq!(parse_redirect("MOVED 1 h:65535").unwrap().address, "h:65535");
    assert!(parse_redirect("MOVED 1 h:65536").is_none());
    assert!(parse_redirect("MOVED 1 h:").is_none());
    assert!(parse_redirect("MOVED 1 h").is_none());
    assert!(parse_redirect("MOVED 1").is_none());
    assert!(parse_redirect("").is_none());
    assert!(parse_redirect("moved 1 h:1").is_none());
}

#[test]
fn key_extraction() {
    assert_eq!(key_of(&cmd(&["GET", "foo"])).unwrap(), b"foo");
    assert!(key_of(&cmd(&["PING"])).is_none());
    assert!(key_of(&Resp::Array(vec![Resp::BulkString(b"GET".to_vec()), Resp::Integer(1)])).is_none());
    assert!(key_of(&Resp::Nil).is_none());
    assert_eq!(hash_slot(key_of(&cmd(&["GET", "foo"])).unwrap()), 12182);
}

#[test]
fn integer_host_is_read_as_decimal() {
    let r = Resp::Array(vec![
        Resp::Integer(0),
        Resp::Integer(0),
        Resp::Array(vec![Resp::Integer(127), Resp::Integer(7000)]),
    ]);
    assert_eq!(parse_row(&r).unwrap().primary, "127:7000");
    let r = Resp::Array(vec![
        Resp::Integer(0),
        Resp::Integer(0),
        Resp::Array(vec![Resp::Integer(i64::MIN), Resp::Integer(1)]),
    ]);
    assert_eq!(parse_row(&r).unwrap().primary, "-9223372036854775808:1");
}

#[test]
fn refresh_adds_only_new_primaries() {
    let mut r = Router::new(vec!["a:1".into(), "x:9".into()]);
    r.begin_refresh().unwrap();
    let added = r.finish_refresh(Ok(Resp::Array(vec![row(0, 10, "a", 1), row(11, 20, "b", 2), row(21, 30, "b", 2)])));
    assert_eq!(added, vec!["b:2".to_string()]);
    assert_eq!(addrs(&r), vec!["a:1".to_string(), "x:9".to_string(), "b:2".to_string()]);
}
