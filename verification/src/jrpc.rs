//! The JSON-RPC session kernel: the cancellation token, the per-session
//! bookkeeping (in-flight incoming requests, pending outgoing requests, the
//! typed context store, the outgoing id counter), and the dispatch rules that
//! classify every incoming message.
use std::sync::Arc;

use vstd::prelude::*;
use vstd::string::StrSliceExecFns;

use crate::ctx_map::CtxMap;

verus! {

/// Relies on `AtomicBool::new`: a fresh flag starts cleared.
#[verifier::external_body]
fn new_flag() -> std::sync::atomic::AtomicBool {
    std::sync::atomic::AtomicBool::new(false)
}

/// A shared two-valued cancellation flag. Clones share the one flag; once any
/// clone raises it, it stays raised. Because other threads may raise the flag
/// at any moment, nothing is promised of what a read returns; the publish
/// protocol draws its guarantees from the epoch check instead.
#[derive(Clone, Debug)]
pub struct Abort(Arc<std::sync::atomic::AtomicBool>);

impl Abort {
    pub fn new() -> (r: Abort) {
        Abort(Arc::new(new_flag()))
    }

    /// Relies on `AtomicBool::store` with release ordering: raises the flag
    /// so that every later acquire load observes it.
    #[verifier::external_body]
    pub fn abort(&self) {
        self.0.store(true, std::sync::atomic::Ordering::Release)
    }

    /// Relies on `AtomicBool::load` with relaxed ordering: a cheap poll for
    /// use between pipeline stages; the flag may be raised concurrently, so
    /// nothing holds of the result.
    #[verifier::external_body]
    pub fn aborted(&self) -> bool {
        self.0.load(std::sync::atomic::Ordering::Relaxed)
    }

    /// Relies on `AtomicBool::load` with acquire ordering: true when the flag
    /// was still clear, synchronizing with any `abort` released before it;
    /// the flag may be raised concurrently, so nothing holds of the result.
    #[verifier::external_body]
    pub fn is_valid(&self) -> bool {
        !self.0.load(std::sync::atomic::Ordering::Acquire)
    }
}

/// Whether a method name is optional protocol surface (the `$/` prefix).
pub open spec fn is_optional(m: Seq<char>) -> bool {
    m.len() >= 2 && m[0] == '$' && m[1] == '/'
}

/// Whether the pending-outgoing list holds an id.
pub open spec fn egress_has(e: Seq<i64>, id: i64) -> bool {
    exists|i: int| 0 <= i < e.len() && e[i] == id
}

/// Whether the in-flight incoming list holds an id.
pub open spec fn ingress_has(s: Seq<(i64, Abort)>, id: i64) -> bool {
    exists|i: int| 0 <= i < s.len() && (#[trigger] s[i]).0 == id
}

/// The mutable per-session state: abort tokens of in-flight incoming
/// requests, ids of outgoing requests awaiting their response, the counter
/// for fresh outgoing ids, and the typed context store.
pub struct SessionState {
    pub ingress: Vec<(i64, Abort)>,
    pub egress: Vec<i64>,
    pub next_req_id: i64,
    pub context: CtxMap,
}

impl SessionState {
    pub fn new() -> (r: SessionState)
        ensures
            r.ingress@.len() == 0,
            r.egress@.len() == 0,
            r.next_req_id == 0,
            r.context.slots() =~= Seq::<crate::ctx_map::CtxVal>::empty(),
    {
        SessionState {
            ingress: Vec::new(),
            egress: Vec::new(),
            next_req_id: 0,
            context: CtxMap::new(),
        }
    }

    /// A fresh id for an outgoing request, recorded as awaiting its response.
    pub fn alloc_req_id(&mut self) -> (r: i64)
        requires
            old(self).next_req_id < i64::MAX,
        ensures
            r == old(self).next_req_id,
            final(self).next_req_id == old(self).next_req_id + 1,
            final(self).egress@ == old(self).egress@.push(r),
            final(self).ingress@ == old(self).ingress@,
            final(self).context == old(self).context,
    {
        let id = self.next_req_id;
        self.next_req_id = self.next_req_id + 1;
        self.egress.push(id);
        id
    }

}

/// What the kernel decides to do with one incoming message; the caller
/// performs the action outside the session lock where the rules demand it.
pub enum Dispatch {
    /// A response: invoke and discard the callback awaiting this id. An
    /// unknown id is a programming error and the caller must fail loudly.
    HandleResponse { id: i64, known: bool },
    /// A notification with a registered handler: invoke it.
    Notify,
    /// A notification nobody registered: log and move on.
    NotifyUnknown,
    /// A cancel request: the matching in-flight token was signalled if one
    /// was found; silently done either way.
    CancelRequest { found: bool },
    /// A request with a sync handler: invoke it and respond with its result.
    RunSync { id: i64 },
    /// A request with an async handler: a fresh abort token is registered
    /// under the id, and the handler gets the request object carrying it.
    StartAsync { id: i64, abort: Abort },
    /// An optional (`$/`) request nobody registered: respond MethodNotFound.
    RejectOptional { id: i64 },
    /// Any other unknown request is a programming error: fail loudly.
    UnknownRequest,
}

/// The registry of handler names: which methods have sync, async, and
/// notification handlers. The handlers themselves live with the I/O loop;
/// the kernel only decides which of them runs.
pub struct JrpcServer {
    sync_hands: Vec<String>,
    notif_hands: Vec<String>,
    async_hands: Vec<String>,
}

impl JrpcServer {
    pub closed spec fn sync_methods(&self) -> Seq<Seq<char>> {
        self.sync_hands@.map_values(|s: String| s@)
    }

    pub closed spec fn notif_methods(&self) -> Seq<Seq<char>> {
        self.notif_hands@.map_values(|s: String| s@)
    }

    pub closed spec fn async_methods(&self) -> Seq<Seq<char>> {
        self.async_hands@.map_values(|s: String| s@)
    }

    /// Whether a name is in one of the three method tables, at spec level.
    pub open spec fn knows_sync(&self, m: Seq<char>) -> bool {
        self.sync_methods().contains(m)
    }

    pub open spec fn knows_notif(&self, m: Seq<char>) -> bool {
        self.notif_methods().contains(m)
    }

    pub open spec fn knows_async(&self, m: Seq<char>) -> bool {
        self.async_methods().contains(m)
    }

    pub fn new() -> (r: JrpcServer)
        ensures
            r.sync_methods() =~= Seq::<Seq<char>>::empty(),
            r.notif_methods() =~= Seq::<Seq<char>>::empty(),
            r.async_methods() =~= Seq::<Seq<char>>::empty(),
    {
        JrpcServer { sync_hands: Vec::new(), notif_hands: Vec::new(), async_hands: Vec::new() }
    }

    /// Register a request method answered synchronously.
    pub fn on_req_sync(&mut self, name: &str)
        ensures
            final(self).sync_methods() == old(self).sync_methods().push(name@),
            final(self).notif_methods() == old(self).notif_methods(),
            final(self).async_methods() == old(self).async_methods(),
    {
        let ghost before = self.sync_hands@;
        self.sync_hands.push(name.to_owned());
        proof {
            assert(self.sync_hands@ =~= before.push(self.sync_hands@.last()));
            assert(final(self).sync_methods() =~= old(self).sync_methods().push(name@));
            assert(final(self).notif_methods() =~= old(self).notif_methods());
            assert(final(self).async_methods() =~= old(self).async_methods());
        }
    }

    /// Register a notification method.
    pub fn on_notif(&mut self, name: &str)
        ensures
            final(self).notif_methods() == old(self).notif_methods().push(name@),
            final(self).sync_methods() == old(self).sync_methods(),
            final(self).async_methods() == old(self).async_methods(),
    {
        let ghost before = self.notif_hands@;
        self.notif_hands.push(name.to_owned());
        proof {
            assert(self.notif_hands@ =~= before.push(self.notif_hands@.last()));
            assert(final(self).notif_methods() =~= old(self).notif_methods().push(name@));
            assert(final(self).sync_methods() =~= old(self).sync_methods());
            assert(final(self).async_methods() =~= old(self).async_methods());
        }
    }

    /// Register a request method answered through a first-class request
    /// object that can be resolved later and polled for cancellation.
    pub fn on_req_async(&mut self, name: &str)
        ensures
            final(self).async_methods() == old(self).async_methods().push(name@),
            final(self).sync_methods() == old(self).sync_methods(),
            final(self).notif_methods() == old(self).notif_methods(),
    {
        let ghost before = self.async_hands@;
        self.async_hands.push(name.to_owned());
        proof {
            assert(self.async_hands@ =~= before.push(self.async_hands@.last()));
            assert(final(self).async_methods() =~= old(self).async_methods().push(name@));
            assert(final(self).sync_methods() =~= old(self).sync_methods());
            assert(final(self).notif_methods() =~= old(self).notif_methods());
        }
    }

    /// Classify one incoming message and update the session bookkeeping.
    /// `has_method`/`method` and `id` are the message's decomposed head;
    /// `cancel_id` is the id named by the parameters of a cancel request.
    ///
    /// The rules, in order: a message without a method is a response, matched
    /// against the pending outgoing ids; a method without an id is a
    /// notification; a cancel request signals the matching in-flight token;
    /// a known sync method runs and is answered; a known async method gets a
    /// fresh abort token registered under its id; an unknown optional method
    /// is refused with MethodNotFound; anything else is a programming error.
    pub fn dispatch(
        &self,
        st: &mut SessionState,
        has_method: bool,
        method: &String,
        id: Option<i64>,
        cancel_id: Option<i64>,
    ) -> (r: Dispatch)
        requires
            !has_method ==> id.is_some(),
            has_method && method@ == "$/cancelRequest"@ && id.is_some() ==> cancel_id.is_some(),
        ensures
            final(st).next_req_id == old(st).next_req_id,
            final(st).context == old(st).context,
            !has_method ==> final(st).ingress@ == old(st).ingress@ && (r matches
                Dispatch::HandleResponse { id: rid, known } && Option::Some(rid) == id && known
                == egress_has(old(st).egress@, rid) && (!known ==> final(st).egress@ == old(
                st,
            ).egress@) && (known ==> exists|k: int|
                0 <= k < old(st).egress@.len() && old(st).egress@[k] == rid && final(st).egress@
                    == old(st).egress@.remove(k))),
            has_method ==> final(st).egress@ == old(st).egress@,
            has_method && id.is_none() ==> final(st).ingress@ == old(st).ingress@ && r == (
            if self.knows_notif(method@) {
                Dispatch::Notify
            } else {
                Dispatch::NotifyUnknown
            }),
            has_method && id.is_some() && method@ == "$/cancelRequest"@ ==> final(st).ingress@
                == old(st).ingress@ && (r matches Dispatch::CancelRequest { found } && found
                == ingress_has(old(st).ingress@, cancel_id.unwrap())),
            has_method && id.is_some() && method@ != "$/cancelRequest"@ && self.knows_sync(method@)
                ==> final(st).ingress@ == old(st).ingress@ && r == (Dispatch::RunSync {
                id: id.unwrap(),
            }),
            has_method && id.is_some() && method@ != "$/cancelRequest"@ && !self.knows_sync(
                method@,
            ) && self.knows_async(method@) ==> (r matches Dispatch::StartAsync { id: rid, abort }
                && rid == id.unwrap()) && final(st).ingress@.len() == old(st).ingress@.len() + 1
                && final(st).ingress@.last().0 == id.unwrap() && final(st).ingress@.take(
                old(st).ingress@.len() as int,
            ) == old(st).ingress@,
            has_method && id.is_some() && method@ != "$/cancelRequest"@ && !self.knows_sync(
                method@,
            ) && !self.knows_async(method@) ==> final(st).ingress@ == old(st).ingress@ && r == (
            if is_optional(method@) {
                Dispatch::RejectOptional { id: id.unwrap() }
            } else {
                Dispatch::UnknownRequest
            }),
    {
        if !has_method {
            let rid = id.unwrap();
            let mut k: usize = 0;
            while k < st.egress.len()
                invariant
                    !has_method,
                    id == Option::Some(rid),
                    k <= st.egress@.len(),
                    forall|j: int| 0 <= j < k ==> st.egress@[j] != rid,
                    st.egress@ == old(st).egress@,
                    st.ingress@ == old(st).ingress@,
                    st.next_req_id == old(st).next_req_id,
                    st.context == old(st).context,
                decreases st.egress@.len() - k,
            {
                if st.egress[k] == rid {
                    let ghost before = st.egress@;
                    st.egress.remove(k);
                    proof {
                        assert(before[k as int] == rid);
                        assert(egress_has(before, rid));
                        assert(st.egress@ == before.remove(k as int));
                    }
                    return Dispatch::HandleResponse { id: rid, known: true };
                }
                k = k + 1;
            }
            proof {
                assert(!egress_has(st.egress@, rid));
            }
            return Dispatch::HandleResponse { id: rid, known: false };
        }
        match id {
            None => {
                if self.in_notifs(method) {
                    Dispatch::Notify
                } else {
                    Dispatch::NotifyUnknown
                }
            },
            Some(rid) => {
                if *method == "$/cancelRequest".to_owned() {
                    let cid = cancel_id.unwrap();
                    let mut k: usize = 0;
                    while k < st.ingress.len()
                        invariant
                            has_method,
                            method@ == "$/cancelRequest"@,
                            id == Option::Some(rid),
                            cancel_id == Option::Some(cid),
                            k <= st.ingress@.len(),
                            forall|j: int| 0 <= j < k ==> (#[trigger] st.ingress@[j]).0 != cid,
                            st.egress@ == old(st).egress@,
                            st.ingress@ == old(st).ingress@,
                            st.next_req_id == old(st).next_req_id,
                            st.context == old(st).context,
                        decreases st.ingress@.len() - k,
                    {
                        if st.ingress[k].0 == cid {
                            st.ingress[k].1.abort();
                            proof {
                                assert(st.ingress@[k as int].0 == cid);
                                assert(ingress_has(st.ingress@, cid));
                            }
                            return Dispatch::CancelRequest { found: true };
                        }
                        k = k + 1;
                    }
                    proof {
                        assert(!ingress_has(st.ingress@, cid));
                    }
                    Dispatch::CancelRequest { found: false }
                } else if self.in_syncs(method) {
                    Dispatch::RunSync { id: rid }
                } else if self.in_asyncs(method) {
                    let token = Abort::new();
                    let handle = token.clone();
                    let ghost before = st.ingress@;
                    st.ingress.push((rid, token));
                    proof {
                        assert(st.ingress@.take(before.len() as int) =~= before);
                    }
                    Dispatch::StartAsync { id: rid, abort: handle }
                } else {
                    let n = method.as_str().unicode_len();
                    if n >= 2 && method.as_str().get_char(0) == '$' && method.as_str().get_char(1)
                        == '/' {
                        Dispatch::RejectOptional { id: rid }
                    } else {
                        Dispatch::UnknownRequest
                    }
                }
            },
        }
    }

    fn in_syncs(&self, method: &String) -> (r: bool)
        ensures
            r == self.knows_sync(method@),
    {
        let mut i: usize = 0;
        while i < self.sync_hands.len()
            invariant
                i <= self.sync_hands@.len(),
                forall|j: int| 0 <= j < i ==> (#[trigger] self.sync_hands@[j])@ != method@,
            decreases self.sync_hands@.len() - i,
        {
            if self.sync_hands[i] == *method {
                proof {
                    assert(self.sync_methods()[i as int] == method@);
                }
                return true;
            }
            i = i + 1;
        }
        proof {
            assert forall|j: int| 0 <= j < self.sync_methods().len() implies #[trigger] self.sync_methods()[j]
                != method@ by {
                assert(self.sync_methods()[j] == self.sync_hands@[j]@);
            }
            assert(!self.knows_sync(method@));
        }
        false
    }

    fn in_notifs(&self, method: &String) -> (r: bool)
        ensures
            r == self.knows_notif(method@),
    {
        let mut i: usize = 0;
        while i < self.notif_hands.len()
            invariant
                i <= self.notif_hands@.len(),
                forall|j: int| 0 <= j < i ==> (#[trigger] self.notif_hands@[j])@ != method@,
            decreases self.notif_hands@.len() - i,
        {
            if self.notif_hands[i] == *method {
                proof {
                    assert(self.notif_methods()[i as int] == method@);
                }
                return true;
            }
            i = i + 1;
        }
        proof {
            assert forall|j: int| 0 <= j < self.notif_methods().len() implies #[trigger] self.notif_methods()[j]
                != method@ by {
                assert(self.notif_methods()[j] == self.notif_hands@[j]@);
            }
            assert(!self.knows_notif(method@));
        }
        false
    }

    fn in_asyncs(&self, method: &String) -> (r: bool)
        ensures
            r == self.knows_async(method@),
    {
        let mut i: usize = 0;
        while i < self.async_hands.len()
            invariant
                i <= self.async_hands@.len(),
                forall|j: int| 0 <= j < i ==> (#[trigger] self.async_hands@[j])@ != method@,
            decreases self.async_hands@.len() - i,
        {
            if self.async_hands[i] == *method {
                proof {
                    assert(self.async_methods()[i as int] == method@);
                }
                return true;
            }
            i = i + 1;
        }
        proof {
            assert forall|j: int| 0 <= j < self.async_methods().len() implies #[trigger] self.async_methods()[j]
                != method@ by {
                assert(self.async_methods()[j] == self.async_hands@[j]@);
            }
            assert(!self.knows_async(method@));
        }
        false
    }
}

/// The head of one response message: the id it answers and, for a failure,
/// the error code it carries; the result value, error message and error data
/// ride along as opaque payloads the I/O edge attaches.
pub struct ResponseHead {
    pub id: i64,
    pub error: Option<crate::errcode::LSPErrCode>,
}

/// The response head for a handler outcome: a success answers with no code; a
/// failure answers with the code its error carries, or RequestFailed when it
/// carries none.
pub fn response_head(
    id: i64,
    ok: bool,
    carried: Option<crate::errcode::LSPErrCode>,
) -> (r: ResponseHead)
    ensures
        r.id == id,
        r.error == (if ok {
            Option::<crate::errcode::LSPErrCode>::None
        } else {
            Option::Some(
                match carried {
                    Option::Some(c) => c,
                    Option::None => crate::errcode::LSPErrCode::RequestFailed,
                },
            )
        }),
{
    if ok {
        ResponseHead { id, error: None }
    } else {
        match carried {
            Some(c) => ResponseHead { id, error: Some(c) },
            None => ResponseHead { id, error: Some(crate::errcode::LSPErrCode::RequestFailed) },
        }
    }
}

/// What dropping an unresolved async request publishes: a cancelled request
/// answers RequestCancelled, an abandoned one surfaces RequestFailed; a
/// resolved request needs nothing.
pub fn drop_resolution(resolved: bool, aborted: bool) -> (r: Option<crate::errcode::LSPErrCode>)
    ensures
        r == (if resolved {
            Option::<crate::errcode::LSPErrCode>::None
        } else if aborted {
            Option::Some(crate::errcode::LSPErrCode::RequestCancelled)
        } else {
            Option::Some(crate::errcode::LSPErrCode::RequestFailed)
        }),
{
    if resolved {
        None
    } else if aborted {
        Some(crate::errcode::LSPErrCode::RequestCancelled)
    } else {
        Some(crate::errcode::LSPErrCode::RequestFailed)
    }
}

} // verus!
