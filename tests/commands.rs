use cluster_router::command::{Del, Expiration, Expire, Get, SetValue};
use cluster_router::resp::Resp;

fn cmd(words: &[&str]) -> Resp {
    Resp::Array(words.iter().map(|w| Resp::BulkString(w.as_bytes().to_vec())).collect())
}

#[test]
fn get_request_and_replies() {
    assert_eq!(Get { key: "k".into() }.into_request(), cmd(&["GET", "k"]));
    assert_eq!(Get::from_response(Resp::BulkString(b"v".to_vec())).unwrap(), Some(b"v".to_vec()));
    assert_eq!(Get::from_response(Resp::Nil).unwrap(), None);
    let e = Get::from_response(Resp::Integer(1)).unwrap_err();
    assert_eq!(e.message, "invalid response for GET");
    assert_eq!(e.value, Resp::Integer(1));
}

#[test]
fn set_request_and_replies() {
    let s = SetValue { key: "k".into(), value: "v".into(), expiration: Expiration::Infinite };
    assert_eq!(s.into_request(), cmd(&["SET", "k", "v"]));
    let s = SetValue { key: "k".into(), value: "v".into(), expiration: Expiration::Ex("10".into()) };
    assert_eq!(s.into_request(), cmd(&["SET", "k", "v", "EX", "10"]));
    let s = SetValue { key: "k".into(), value: "v".into(), expiration: Expiration::Px("500".into()) };
    assert_eq!(s.into_request(), cmd(&["SET", "k", "v", "PX", "500"]));
    assert!(SetValue::from_response(Resp::SimpleString("OK".into())).is_ok());
    let e = SetValue::from_response(Resp::SimpleString("NO".into())).unwrap_err();
    assert_eq!(e.message, "invalid response for SET");
    assert!(SetValue::from_response(Resp::Nil).is_err());
}

#[test]
fn expire_request_and_replies() {
    let e = Expire { key: "k".into(), seconds: "5".into() };
    assert_eq!(e.into_request(), cmd(&["EXPIRE", "k", "5"]));
    assert_eq!(Expire::from_response(Resp::Integer(1)).unwrap(), true);
    assert_eq!(Expire::from_response(Resp::Integer(0)).unwrap(), false);
    let e = Expire::from_response(Resp::Integer(2)).unwrap_err();
    assert_eq!(e.message, "invalid response for EXPIRE");
}

#[test]
fn del_request_and_replies() {
    let d = Del { keys: vec!["a".into(), "b".into()] };
    assert_eq!(d.into_request(), cmd(&["DEL", "a", "b"]));
    assert_eq!(Del { keys: vec![] }.into_request(), cmd(&["DEL"]));
    assert_eq!(Del::from_response(Resp::Integer(2)).unwrap(), 2);
    let e = Del::from_response(Resp::Nil).unwrap_err();
    assert_eq!(e.message, "invalid response for DEL");
}
