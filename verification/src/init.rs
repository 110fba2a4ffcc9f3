//! Session lifecycle registration: the methods that set the session up and
//! tear it down. The `initialize` handler builds the workspace registry from
//! the client's workspace folders and stores it in the session context; the
//! `initialized` handler asks the client to watch source files; `shutdown`
//! answers null and `exit` ends the process.
use vstd::prelude::*;

use crate::jrpc::JrpcServer;

verus! {

/// Register the lifecycle methods with the dispatch kernel.
pub fn attach(srv: &mut JrpcServer)
    ensures
        final(srv).sync_methods() == old(srv).sync_methods().push("initialize"@).push(
            "shutdown"@,
        ),
        final(srv).notif_methods() == old(srv).notif_methods().push("initialized"@).push("exit"@),
        final(srv).async_methods() == old(srv).async_methods(),
{
    srv.on_req_sync("initialize");
    srv.on_notif("initialized");
    srv.on_req_sync("shutdown");
    srv.on_notif("exit");
}

} // verus!
