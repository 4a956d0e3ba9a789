use kvs::{after_sync, failed_reply, Health, completion_response, decode_value, dispatch, respond, EngineType, KVStoreError, KvStore, Request, Response};

fn s(x: &str) -> String {
    x.to_owned()
}

#[test]
fn end_to_end_request_sequence() {
    let mut store = KvStore::new();
    assert_eq!(store.handle(Request::SET(s("foo"), s("bar"))), Response::Success(None));
    assert_eq!(store.handle(Request::GET(s("foo"))), Response::Success(Some(s("bar"))));
    assert_eq!(store.handle(Request::RM(s("foo"))), Response::Success(None));
    assert_eq!(store.handle(Request::GET(s("foo"))), Response::Success(None));
    assert_eq!(store.handle(Request::RM(s("foo"))), Response::Failure(s("Key not found")));
}

#[test]
fn dispatch_through_engine_trait() {
    let mut store = KvStore::new();
    assert_eq!(dispatch(&mut store, Request::SET(s("foo"), s("bar"))), (Ok(None), Response::Success(None)));
    assert_eq!(
        dispatch(&mut store, Request::GET(s("foo"))),
        (Ok(Some(s("bar"))), Response::Success(Some(s("bar"))))
    );
    assert_eq!(
        dispatch(&mut store, Request::RM(s("nope"))),
        (Err(KVStoreError::KeyNotFound), Response::Failure(s("Key not found")))
    );
}

#[test]
fn respond_carries_value_or_message() {
    assert_eq!(respond(&Ok(Some(s("v")))), Response::Success(Some(s("v"))));
    assert_eq!(respond(&Ok(None)), Response::Success(None));
    assert_eq!(respond(&Err(KVStoreError::ServerError(s("worker gone")))), Response::Failure(s("worker gone")));
    assert_eq!(respond(&Err(KVStoreError::Utf8Error)), Response::Failure(s("Invalid UTF-8")));
}

#[test]
fn error_messages() {
    assert_eq!(KVStoreError::KeyNotFound.message(), "Key not found");
    assert_eq!(KVStoreError::SledError(s("disk")).message(), "disk");
    assert_eq!(KVStoreError::CorruptRecord(s("bad")).message(), "bad");
}

#[test]
fn engine_type_names() {
    assert_eq!(EngineType::KvStore.name(), "kvs");
    assert_eq!(EngineType::SledKvStore.name(), "sled");
}

#[test]
fn decode_value_of_bytes() {
    assert_eq!(decode_value(None), Ok(None));
    assert_eq!(decode_value(Some("héllo".as_bytes().to_vec())), Ok(Some(s("héllo"))));
    assert_eq!(decode_value(Some(vec![0xff, 0xfe])), Err(KVStoreError::Utf8Error));
}

#[test]
fn missing_completion_signal_is_server_error() {
    assert_eq!(completion_response(None), Response::Failure(s("worker dispatch failed")));
    assert_eq!(
        completion_response(Some(Response::Success(Some(s("v"))))),
        Response::Success(Some(s("v")))
    );
}

#[test]
fn reply_result_maps_each_reply() {
    assert_eq!(kvs::reply_result(None), Ok(None));
    assert_eq!(kvs::reply_result(Some(Response::Success(Some(s("v"))))), Ok(Some(s("v"))));
    assert_eq!(kvs::reply_result(Some(Response::Success(None))), Ok(None));
    assert_eq!(
        kvs::reply_result(Some(Response::Failure(s("Key not found")))),
        Err(KVStoreError::ServerError(s("Key not found")))
    );
}

#[test]
fn io_error_message() {
    assert_eq!(KVStoreError::IoError(s("disk full")).message(), "disk full");
}

#[test]
fn fail_closed_after_failed_sync() {
    let (health, reply) = after_sync(Response::Success(None), Ok(()));
    assert!(matches!(health, Health::Serving));
    assert_eq!(reply, Response::Success(None));
    let (health, reply) = after_sync(Response::Success(None), Err(KVStoreError::IoError(s("disk full"))));
    assert!(matches!(health, Health::Failed(ref m) if m == "disk full"));
    assert_eq!(reply, Response::Failure(s("disk full")));
    assert_eq!(failed_reply(&s("disk full")), Response::Failure(s("disk full")));
}
