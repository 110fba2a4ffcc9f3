use orchid_ls::ctx_map::{CtxKind, CtxMap, CtxVal};
use orchid_ls::errcode::LSPErrCode;
use orchid_ls::jrpc::{drop_resolution, response_head, Abort, Dispatch, JrpcServer, SessionState};
use orchid_ls::logging::{log_choice, parse_trace, LogChoice, TraceValue};

fn send(
    srv: &JrpcServer,
    st: &mut SessionState,
    method: Option<&str>,
    id: Option<i64>,
    cancel_id: Option<i64>,
) -> Dispatch {
    let m = method.unwrap_or("").to_string();
    srv.dispatch(st, method.is_some(), &m, id, cancel_id)
}

#[test]
fn notif_dispatch() {
    let mut srv = JrpcServer::new();
    srv.on_notif("hello");
    let mut st = SessionState::new();
    assert!(matches!(send(&srv, &mut st, Some("hello"), None, None), Dispatch::Notify));
    assert!(matches!(send(&srv, &mut st, Some("other"), None, None), Dispatch::NotifyUnknown));
}

#[test]
fn sync_req_dispatch() {
    let mut srv = JrpcServer::new();
    srv.on_req_sync("hello");
    let mut st = SessionState::new();
    match send(&srv, &mut st, Some("hello"), Some(0), None) {
        Dispatch::RunSync { id } => assert_eq!(id, 0),
        _ => panic!("expected a sync invocation"),
    }
}

#[test]
fn response_correlation() {
    let srv = JrpcServer::new();
    let mut st = SessionState::new();
    let id = st.alloc_req_id();
    match send(&srv, &mut st, None, Some(id), None) {
        Dispatch::HandleResponse { id: rid, known } => {
            assert_eq!(rid, id);
            assert!(known);
        },
        _ => panic!("expected response handling"),
    }
    // a second response with the same id has no matching request
    match send(&srv, &mut st, None, Some(id), None) {
        Dispatch::HandleResponse { known, .. } => assert!(!known),
        _ => panic!("expected response handling"),
    }
}

#[test]
fn cancelled_async_request() {
    // an async request is cancelled in flight: the dropped request resolves
    // to RequestCancelled, code -32800
    let mut srv = JrpcServer::new();
    srv.on_req_async("compute");
    let mut st = SessionState::new();
    let abort = match send(&srv, &mut st, Some("compute"), Some(7), None) {
        Dispatch::StartAsync { id, abort } => {
            assert_eq!(id, 7);
            abort
        },
        _ => panic!("expected an async start"),
    };
    assert!(!abort.aborted());
    match send(&srv, &mut st, Some("$/cancelRequest"), Some(8), Some(7)) {
        Dispatch::CancelRequest { found } => assert!(found),
        _ => panic!("expected cancel handling"),
    }
    assert!(abort.aborted());
    assert!(!abort.is_valid());
    let out = drop_resolution(false, abort.aborted());
    assert_eq!(out, Some(LSPErrCode::RequestCancelled));
    assert_eq!(out.unwrap().to_code(), -32800);
}

#[test]
fn cancel_unknown_id_is_silent() {
    let srv = JrpcServer::new();
    let mut st = SessionState::new();
    match send(&srv, &mut st, Some("$/cancelRequest"), Some(1), Some(99)) {
        Dispatch::CancelRequest { found } => assert!(!found),
        _ => panic!("expected cancel handling"),
    }
}

#[test]
fn unknown_optional_method() {
    // a request for an unknown `$/` method is refused with MethodNotFound
    let srv = JrpcServer::new();
    let mut st = SessionState::new();
    match send(&srv, &mut st, Some("$/nonsense"), Some(3), None) {
        Dispatch::RejectOptional { id } => assert_eq!(id, 3),
        _ => panic!("expected an optional-method rejection"),
    }
    assert_eq!(LSPErrCode::MethodNotFound.to_code(), -32601);
    // an unknown plain method is a programming error instead
    assert!(matches!(
        send(&srv, &mut st, Some("mystery"), Some(4), None),
        Dispatch::UnknownRequest
    ));
}

#[test]
fn dangling_request_fails() {
    assert_eq!(drop_resolution(false, false), Some(LSPErrCode::RequestFailed));
    assert_eq!(drop_resolution(true, true), None);
}

#[test]
fn abort_flag_is_shared() {
    let a = Abort::new();
    let b = a.clone();
    assert!(!a.aborted());
    assert!(a.is_valid());
    b.abort();
    assert!(a.aborted());
    assert!(!a.is_valid());
}

#[test]
fn error_code_round_trips() {
    let codes =
        [-32700, -32600, -32601, -32602, -32603, -32002, -32001, -32803, -32802, -32801, -32800];
    for c in codes {
        assert_eq!(LSPErrCode::from_code(c).to_code(), c);
    }
    // integers outside the taxonomy ride through unclassified, unchanged
    assert_eq!(LSPErrCode::from_code(-1).to_code(), -1);
    assert_eq!(LSPErrCode::from_code(-1), LSPErrCode::UnclassifiedError(-1));
    assert_eq!(LSPErrCode::from_code(LSPErrCode::ServerCancelled.to_code()), LSPErrCode::ServerCancelled);
}

#[test]
fn trace_levels() {
    assert_eq!(parse_trace("off"), Some(TraceValue::Off));
    assert_eq!(parse_trace("messages"), Some(TraceValue::Messages));
    assert_eq!(parse_trace("verbose"), Some(TraceValue::Verbose));
    assert_eq!(parse_trace("loud"), None);
    assert_eq!(log_choice(None), LogChoice::Silent);
    assert_eq!(log_choice(Some(TraceValue::Off)), LogChoice::Silent);
    assert_eq!(log_choice(Some(TraceValue::Messages)), LogChoice::Plain);
    assert_eq!(log_choice(Some(TraceValue::Verbose)), LogChoice::Full);
}

#[test]
fn context_slots() {
    let mut map = CtxMap::new();
    assert!(map.get(CtxKind::Trace).is_none());
    map.set(CtxVal::Trace(TraceValue::Messages));
    match map.get(CtxKind::Trace) {
        Some(CtxVal::Trace(t)) => assert_eq!(*t, TraceValue::Messages),
        _ => panic!("expected the trace slot"),
    }
    // re-setting replaces the slot
    map.set(CtxVal::Trace(TraceValue::Verbose));
    match map.take(CtxKind::Trace) {
        Some(CtxVal::Trace(t)) => assert_eq!(t, TraceValue::Verbose),
        _ => panic!("expected the trace slot"),
    }
    assert!(map.get(CtxKind::Trace).is_none());
}

#[test]
fn response_heads() {
    let ok = response_head(5, true, None);
    assert_eq!(ok.id, 5);
    assert!(ok.error.is_none());
    let failed = response_head(6, false, None);
    assert_eq!(failed.error, Some(LSPErrCode::RequestFailed));
    let refused = response_head(7, false, Some(LSPErrCode::MethodNotFound));
    assert_eq!(refused.error, Some(LSPErrCode::MethodNotFound));
    assert_eq!(refused.error.unwrap().to_code(), -32601);
}
