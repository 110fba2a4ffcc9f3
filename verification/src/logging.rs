//! The session's trace level and the choice of what a log call sends at each
//! level.
use vstd::prelude::*;

use crate::jrpc::JrpcServer;

verus! {

/// How much tracing the client asked for.
#[derive(Clone, Copy, Debug, PartialEq, Eq, Structural)]
pub enum TraceValue {
    Off,
    Messages,
    Verbose,
}

/// The trace level a wire string names, if any.
pub open spec fn trace_of(s: Seq<char>) -> Option<TraceValue> {
    if s == "off"@ {
        Option::Some(TraceValue::Off)
    } else if s == "messages"@ {
        Option::Some(TraceValue::Messages)
    } else if s == "verbose"@ {
        Option::Some(TraceValue::Verbose)
    } else {
        Option::None
    }
}

/// Parse a trace level from its wire string; any other string names none
/// (the caller treats that as a protocol violation).
pub fn parse_trace(s: &str) -> (r: Option<TraceValue>)
    ensures
        r == trace_of(s@),
{
    let owned = s.to_owned();
    if owned == "off".to_owned() {
        Some(TraceValue::Off)
    } else if owned == "messages".to_owned() {
        Some(TraceValue::Messages)
    } else if owned == "verbose".to_owned() {
        Some(TraceValue::Verbose)
    } else {
        None
    }
}

/// What a trace log call should send.
#[derive(Clone, Copy, Debug, PartialEq, Eq, Structural)]
pub enum LogChoice {
    /// Send nothing: tracing is off or was never set.
    Silent,
    /// Send the message alone.
    Plain,
    /// Send the message and the verbose detail.
    Full,
}

/// The sending choice for a log call under the given trace level.
pub fn log_choice(level: Option<TraceValue>) -> (r: LogChoice)
    ensures
        r == (match level {
            Option::None => LogChoice::Silent,
            Option::Some(TraceValue::Off) => LogChoice::Silent,
            Option::Some(TraceValue::Messages) => LogChoice::Plain,
            Option::Some(TraceValue::Verbose) => LogChoice::Full,
        }),
{
    match level {
        None => LogChoice::Silent,
        Some(TraceValue::Off) => LogChoice::Silent,
        Some(TraceValue::Messages) => LogChoice::Plain,
        Some(TraceValue::Verbose) => LogChoice::Full,
    }
}

/// Register the trace-level notification with the dispatch kernel.
pub fn attach(srv: &mut JrpcServer)
    ensures
        final(srv).notif_methods() == old(srv).notif_methods().push("$/setTrace"@),
        final(srv).sync_methods() == old(srv).sync_methods(),
        final(srv).async_methods() == old(srv).async_methods(),
{
    srv.on_notif("$/setTrace");
}

} // verus!
