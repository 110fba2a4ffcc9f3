//! The edit-driven analysis pipeline's decisions: scheduling an update under
//! the session lock (patch the overlay, supersede the previous worker, record
//! the invalidated path, snapshot what the worker needs), deciding whether a
//! finished worker may publish, and the epoch model that makes stale results
//! impossible to publish.
use std::sync::Arc;

use vstd::prelude::*;

use crate::document::{FileUri, VPath};
use crate::jrpc::{Abort, JrpcServer};
use crate::patch::{arc_clone, spec_patch, spec_unpatch, PatchFile, PatchStore};
use crate::registry::{proj_best, proj_owns, wsp_best, wsp_owns, wsp_rest, CtxWsp, WorkspaceCtx};
use crate::vfs::vpaths_view;

verus! {

/// Everything a worker takes out of the critical section: the frozen store
/// snapshot, the project root, the invalidated paths to recompute, the
/// worker's epoch, and its cancellation token.
pub struct UpdatePlan {
    pub store: Arc<PatchStore>,
    pub proj_root: VPath,
    pub changes: Vec<VPath>,
    pub epoch: u64,
    pub abort: Abort,
}

/// How scheduling an update ended. A URI no workspace owns, or one whose
/// workspace lists no project for it, is a registry inconsistency the caller
/// must surface loudly; an exhausted epoch counter cannot happen in any
/// feasible run.
pub enum BeginOutcome {
    NoWorkspace,
    NoProject(u64),
    Exhausted,
    Started(UpdatePlan),
}

fn contains_path(v: &Vec<VPath>, p: &VPath) -> (r: bool)
    ensures
        r == vpaths_view(v@).contains(p@),
{
    let mut i: usize = 0;
    while i < v.len()
        invariant
            i <= v@.len(),
            forall|j: int| 0 <= j < i ==> (#[trigger] v@[j])@ != p@,
        decreases v@.len() - i,
    {
        if vpath_eq(&v[i], p) {
            proof {
                assert(vpaths_view(v@)[i as int] == p@);
            }
            return true;
        }
        i = i + 1;
    }
    proof {
        assert forall|j: int| 0 <= j < vpaths_view(v@).len() implies #[trigger] vpaths_view(v@)[j]
            != p@ by {
            assert(vpaths_view(v@)[j] == v@[j]@);
        }
        assert(!vpaths_view(v@).contains(p@));
    }
    false
}

fn vpath_eq(a: &VPath, b: &VPath) -> (r: bool)
    ensures
        r == (a@ == b@),
{
    if a.0.len() != b.0.len() {
        proof {
            assert(a@.len() != b@.len());
        }
        return false;
    }
    let mut i: usize = 0;
    while i < a.0.len()
        invariant
            i <= a.0@.len() == b.0@.len(),
            forall|t: int| 0 <= t < i ==> a@[t] == b@[t],
        decreases a.0@.len() - i,
    {
        if !(a.0[i] == b.0[i]) {
            proof {
                assert(a@[i as int] != b@[i as int]);
            }
            return false;
        }
        i = i + 1;
    }
    proof {
        assert(a@ =~= b@);
    }
    true
}

fn clone_paths(v: &Vec<VPath>) -> (r: Vec<VPath>)
    ensures
        vpaths_view(r@) == vpaths_view(v@),
{
    let mut out: Vec<VPath> = Vec::new();
    let mut i: usize = 0;
    while i < v.len()
        invariant
            i <= v@.len(),
            out@.len() == i,
            forall|t: int| 0 <= t < i ==> (#[trigger] out@[t])@ == v@[t]@,
        decreases v@.len() - i,
    {
        out.push(v[i].clone());
        i = i + 1;
    }
    proof {
        assert forall|t: int| 0 <= t < out@.len() implies #[trigger] vpaths_view(out@)[t]
            == vpaths_view(v@)[t] by {
            assert(vpaths_view(out@)[t] == out@[t]@);
            assert(vpaths_view(v@)[t] == v@[t]@);
        }
        assert(vpaths_view(out@) =~= vpaths_view(v@));
    }
    out
}

/// Every workspace but `w` is the same in both registries.
pub open spec fn same_but_wsp(a: WorkspaceCtx, b: WorkspaceCtx, w: int) -> bool {
    &&& a.0@.len() == b.0@.len()
    &&& forall|j: int| 0 <= j < a.0@.len() && j != w ==> a.0@[j] == b.0@[j]
}

/// Every project but `p` is the same in both workspaces, and the workspace's
/// own fields agree.
pub open spec fn wsp_same_but_proj(a: CtxWsp, b: CtxWsp, p: int) -> bool {
    &&& a.name@ == b.name@
    &&& a.store == b.store
    &&& a.projects@.len() == b.projects@.len()
    &&& forall|j: int| 0 <= j < a.projects@.len() && j != p ==> a.projects@[j] == b.projects@[j]
}

/// Schedule one update: the critical first phase of the pipeline, run under
/// the session lock. Locates the workspace by longest prefix, lands the patch
/// in its overlay, locates the owning project by longest prefix, signals the
/// previous worker's token and installs a fresh one, bumps the project's
/// epoch, records the patched path among the project's invalidated paths, and
/// hands back the frozen snapshot the new worker computes from.
pub fn begin_update(ctx: &mut WorkspaceCtx, patch: PatchFile) -> (r: BeginOutcome)
    ensures
        r is NoWorkspace ==> final(ctx).0@ == old(ctx).0@ && (forall|j: int|
            0 <= j < old(ctx).0@.len() ==> !wsp_owns(#[trigger] old(ctx).0@[j], patch.uri@)),
        r matches BeginOutcome::NoProject(w) ==> {
            let ow = old(ctx).0@[w as int];
            let nw = final(ctx).0@[w as int];
            &&& wsp_best(old(ctx).0@, patch.uri@, w as int)
            &&& same_but_wsp(*old(ctx), *final(ctx), w as int)
            &&& nw.name@ == ow.name@
            &&& nw.projects@ == ow.projects@
            &&& nw.store.patches() == spec_patch(ow.store.patches(), patch)
            &&& nw.store.basepath_view() == ow.store.basepath_view()
            &&& forall|j: int|
                0 <= j < ow.projects@.len() ==> !proj_owns(
                    #[trigger] ow.projects@[j],
                    wsp_rest(ow, patch.uri@),
                )
        },
        r is Exhausted ==> final(ctx).0@ == old(ctx).0@ && exists|w: int, p: int|
            #![trigger old(ctx).0@[w].projects@[p]]
            {
                let ow = old(ctx).0@[w];
                &&& wsp_best(old(ctx).0@, patch.uri@, w)
                &&& proj_best(ow.projects@, wsp_rest(ow, patch.uri@), p)
                &&& ow.projects@[p].epoch == u64::MAX
            },
        r matches BeginOutcome::Started(plan) ==> exists|w: int, p: int|
            #![trigger old(ctx).0@[w].projects@[p]]
            {
                let ow = old(ctx).0@[w];
                let nw = final(ctx).0@[w];
                let op = ow.projects@[p];
                let np = nw.projects@[p];
                let in_proj = wsp_rest(ow, patch.uri@).skip(op.path@.len() as int);
                &&& wsp_best(old(ctx).0@, patch.uri@, w)
                &&& proj_best(ow.projects@, wsp_rest(ow, patch.uri@), p)
                &&& same_but_wsp(*old(ctx), *final(ctx), w)
                &&& nw.name@ == ow.name@
                &&& nw.projects@.len() == ow.projects@.len()
                &&& (forall|j: int|
                    0 <= j < ow.projects@.len() && j != p ==> nw.projects@[j] == ow.projects@[j])
                &&& nw.store.patches() == spec_patch(ow.store.patches(), patch)
                &&& nw.store.basepath_view() == ow.store.basepath_view()
                &&& np.path@ == op.path@
                &&& np.epoch == op.epoch + 1
                &&& vpaths_view(np.changes@) == (if vpaths_view(op.changes@).contains(in_proj) {
                    vpaths_view(op.changes@)
                } else {
                    vpaths_view(op.changes@).push(in_proj)
                })
                &&& plan.epoch == np.epoch
                &&& plan.proj_root@ == op.path@
                &&& vpaths_view(plan.changes@) == vpaths_view(np.changes@)
                &&& plan.store.patches() == nw.store.patches()
                &&& plan.store.basepath_view() == nw.store.basepath_view()
            },
{
    let uri = patch.uri.clone();
    let found = ctx.get_wsp(&uri);
    match found {
        None => BeginOutcome::NoWorkspace,
        Some((in_wsp, w)) => {
            let ghost ow = ctx.0@[w as int];
            let pr = ctx.0[w].get_proj(&in_wsp);
            match pr {
                None => {
                    let mut wsp = ctx.0.remove(w);
                    let mut inner = arc_clone(&wsp.store).unpack();
                    inner.patch(patch);
                    wsp.store = Arc::new(inner);
                    let ghost nw = wsp;
                    ctx.0.insert(w, wsp);
                    proof {
                        assert(final(ctx).0@ =~= old(ctx).0@.update(w as int, nw));
                    }
                    BeginOutcome::NoProject(w as u64)
                },
                Some((in_proj, p)) => {
                    if ctx.0[w].projects[p].epoch == u64::MAX {
                        // an exhausted counter schedules nothing and changes
                        // nothing; no feasible run reaches this
                        proof {
                            assert(proj_best(ow.projects@, wsp_rest(ow, patch.uri@), p as int));
                        }
                        return BeginOutcome::Exhausted;
                    }
                    let mut wsp = ctx.0.remove(w);
                    let mut inner = arc_clone(&wsp.store).unpack();
                    inner.patch(patch);
                    wsp.store = Arc::new(inner);
                    let snapshot = arc_clone(&wsp.store);
                    let mut proj = wsp.projects.remove(p);
                    let ghost op = ow.projects@[p as int];
                    proj.abort.abort();
                    let fresh = Abort::new();
                    proj.abort = fresh.clone();
                    proj.epoch = proj.epoch + 1;
                    let ghost old_changes = proj.changes@;
                    if !contains_path(&proj.changes, &in_proj) {
                        proj.changes.push(in_proj.clone());
                        proof {
                            assert(vpaths_view(proj.changes@) =~= vpaths_view(old_changes).push(
                                in_proj@,
                            ));
                        }
                    }
                    let changes_copy = clone_paths(&proj.changes);
                    let root_copy = proj.path.clone();
                    let epoch = proj.epoch;
                    let ghost np = proj;
                    wsp.projects.insert(p, proj);
                    proof {
                        assert(wsp.projects@ =~= ow.projects@.update(p as int, np));
                    }
                    let ghost nw = wsp;
                    ctx.0.insert(w, wsp);
                    proof {
                        assert(final(ctx).0@ =~= old(ctx).0@.update(w as int, nw));
                    }
                    let plan = UpdatePlan {
                        store: snapshot,
                        proj_root: root_copy,
                        changes: changes_copy,
                        epoch,
                        abort: fresh,
                    };
                    proof {
                        assert(proj_best(ow.projects@, wsp_rest(ow, patch.uri@), p as int));
                        assert(in_proj@ =~= wsp_rest(ow, patch.uri@).skip(op.path@.len() as int));
                    }
                    BeginOutcome::Started(plan)
                },
            }
        },
    }
}

/// Whether a finished worker may publish: the authoritative check of the
/// pipeline's second critical phase, run under the session lock. Only the
/// worker whose epoch is still the project's current one commits; committing
/// clears the project's invalidated paths (any later invalidation came from a
/// newer worker, which would have superseded this one).
pub enum PublishDecision {
    /// The project is gone: log and return without publishing.
    Gone,
    /// A newer update was scheduled: discard this worker's results silently.
    Superseded,
    /// This worker holds the freshest state: publish its records.
    Publish,
}

pub fn try_publish(ctx: &mut WorkspaceCtx, uri: &FileUri, epoch: u64) -> (r: PublishDecision)
    ensures
        !(r is Publish) ==> final(ctx).0@ == old(ctx).0@,
        r is Gone ==> (forall|j: int|
            0 <= j < old(ctx).0@.len() ==> !wsp_owns(#[trigger] old(ctx).0@[j], uri@)) || (exists|
            w: int,
        |
            #![trigger old(ctx).0@[w]]
            wsp_best(old(ctx).0@, uri@, w) && (forall|q: int|
                0 <= q < old(ctx).0@[w].projects@.len() ==> !proj_owns(
                    #[trigger] old(ctx).0@[w].projects@[q],
                    wsp_rest(old(ctx).0@[w], uri@),
                ))),
        r is Superseded ==> exists|w: int, p: int|
            #![trigger old(ctx).0@[w].projects@[p]]
            {
                let ow = old(ctx).0@[w];
                &&& wsp_best(old(ctx).0@, uri@, w)
                &&& proj_best(ow.projects@, wsp_rest(ow, uri@), p)
                &&& ow.projects@[p].epoch != epoch
            },
        r is Publish ==> exists|w: int, p: int|
            #![trigger old(ctx).0@[w].projects@[p]]
            {
                let ow = old(ctx).0@[w];
                let nw = final(ctx).0@[w];
                let op = ow.projects@[p];
                let np = nw.projects@[p];
                &&& wsp_best(old(ctx).0@, uri@, w)
                &&& proj_best(ow.projects@, wsp_rest(ow, uri@), p)
                &&& op.epoch == epoch
                &&& same_but_wsp(*old(ctx), *final(ctx), w)
                &&& nw.name@ == ow.name@
                &&& nw.store == ow.store
                &&& nw.projects@.len() == ow.projects@.len()
                &&& (forall|j: int|
                    0 <= j < ow.projects@.len() && j != p ==> nw.projects@[j] == ow.projects@[j])
                &&& np.path == op.path
                &&& np.epoch == op.epoch
                &&& np.abort == op.abort
                &&& np.changes@.len() == 0
            },
{
    let found = ctx.get_wsp(uri);
    match found {
        None => PublishDecision::Gone,
        Some((in_wsp, w)) => {
            let ghost ow0 = ctx.0@[w as int];
            let pr = ctx.0[w].get_proj(&in_wsp);
            match pr {
                None => {
                    proof {
                        assert(wsp_best(ctx.0@, uri@, w as int));
                    }
                    PublishDecision::Gone
                },
                Some((_, p)) => {
                    if ctx.0[w].projects[p].epoch != epoch {
                        proof {
                            assert(proj_best(ow0.projects@, wsp_rest(ow0, uri@), p as int));
                        }
                        PublishDecision::Superseded
                    } else {
                        let ghost ow = ctx.0@[w as int];
                        let ghost op = ow.projects@[p as int];
                        let mut wsp = ctx.0.remove(w);
                        let mut proj = wsp.projects.remove(p);
                        proj.changes = Vec::new();
                        let ghost np = proj;
                        wsp.projects.insert(p, proj);
                        proof {
                            assert(wsp.projects@ =~= ow.projects@.update(p as int, np));
                        }
                        let ghost nw = wsp;
                        ctx.0.insert(w, wsp);
                        proof {
                            assert(final(ctx).0@ =~= old(ctx).0@.update(w as int, nw));
                        }
                        PublishDecision::Publish
                    }
                },
            }
        },
    }
}

/// Register the document-synchronization notifications with the dispatch
/// kernel.
pub fn attach(srv: &mut JrpcServer)
    ensures
        final(srv).notif_methods() == old(srv).notif_methods().push("textDocument/didOpen"@).push(
            "textDocument/didClose"@,
        ).push("textDocument/didChange"@),
        final(srv).sync_methods() == old(srv).sync_methods(),
        final(srv).async_methods() == old(srv).async_methods(),
{
    srv.on_notif("textDocument/didOpen");
    srv.on_notif("textDocument/didClose");
    srv.on_notif("textDocument/didChange");
}

/// Whether an opened document is for this server: only the Orchid language is
/// analyzed.
pub fn should_process_open(language_id: &str) -> (r: bool)
    ensures
        r == (language_id@ == "orchid"@),
{
    language_id.to_owned() == "orchid".to_owned()
}

/// How closing a document ended.
pub enum CloseOutcome {
    /// No workspace owns the URI: a registry inconsistency the caller
    /// surfaces loudly.
    NoWorkspace,
    /// The overlay held no record for the document: closing what was never
    /// opened is a protocol violation the caller surfaces loudly.
    NotPatched,
    Closed(u64),
}

/// Drop the overlay record of a closed document, so that disk content shows
/// through again. No analysis is scheduled.
pub fn did_close(ctx: &mut WorkspaceCtx, uri: &FileUri) -> (r: CloseOutcome)
    ensures
        !(r matches CloseOutcome::Closed(_)) ==> final(ctx).0@ == old(ctx).0@,
        r is NoWorkspace ==> forall|j: int|
            0 <= j < old(ctx).0@.len() ==> !wsp_owns(#[trigger] old(ctx).0@[j], uri@),
        r is NotPatched ==> exists|w: int|
            #![trigger old(ctx).0@[w]]
            wsp_best(old(ctx).0@, uri@, w) && crate::patch::index_of_spec(
                old(ctx).0@[w].store.patches(),
                uri@,
            ) < 0,
        r matches CloseOutcome::Closed(w) ==> {
            let ow = old(ctx).0@[w as int];
            let nw = final(ctx).0@[w as int];
            &&& wsp_best(old(ctx).0@, uri@, w as int)
            &&& crate::patch::index_of_spec(ow.store.patches(), uri@) >= 0
            &&& same_but_wsp(*old(ctx), *final(ctx), w as int)
            &&& nw.name@ == ow.name@
            &&& nw.projects@ == ow.projects@
            &&& nw.store.patches() == spec_unpatch(ow.store.patches(), uri@)
            &&& nw.store.basepath_view() == ow.store.basepath_view()
        },
{
    let found = ctx.get_wsp(uri);
    match found {
        None => CloseOutcome::NoWorkspace,
        Some((_, w)) => {
            let ghost ow = ctx.0@[w as int];
            let mut wsp = ctx.0.remove(w);
            let mut inner = arc_clone(&wsp.store).unpack();
            match inner.index_of(uri) {
                None => {
                    ctx.0.insert(w, wsp);
                    proof {
                        assert(final(ctx).0@ =~= old(ctx).0@);
                    }
                    CloseOutcome::NotPatched
                },
                Some(_) => {
                    inner.unpatch(uri);
                    wsp.store = Arc::new(inner);
                    let ghost nw = wsp;
                    ctx.0.insert(w, wsp);
                    proof {
                        assert(final(ctx).0@ =~= old(ctx).0@.update(w as int, nw));
                    }
                    CloseOutcome::Closed(w as u64)
                },
            }
        },
    }
}

} // verus!

verus! {

/// One project's pipeline, abstractly: the epoch of the most recently
/// scheduled update, and the epochs whose results were published, in wire
/// order. Scheduling raises the epoch; a worker publishes only while its own
/// epoch is still the current one, exactly as `try_publish` checks.
pub struct PipeState {
    pub cur: nat,
    pub published: Seq<nat>,
}

/// One observable step of a project's pipeline: an edit reaching phase one,
/// or a worker (carrying its epoch) reaching phase three.
pub enum PipeEvent {
    Edit,
    Publish(nat),
}

pub open spec fn pipe_step(st: PipeState, ev: PipeEvent) -> PipeState {
    match ev {
        PipeEvent::Edit => PipeState { cur: st.cur + 1, published: st.published },
        PipeEvent::Publish(g) => if g == st.cur {
            PipeState { cur: st.cur, published: st.published.push(g) }
        } else {
            st
        },
    }
}

pub open spec fn pipe_run(st: PipeState, evs: Seq<PipeEvent>) -> PipeState
    decreases evs.len(),
{
    if evs.len() == 0 {
        st
    } else {
        pipe_run(pipe_step(st, evs[0]), evs.drop_first())
    }
}

/// The current epoch never goes back.
pub proof fn lemma_pipe_cur_monotone(st: PipeState, evs: Seq<PipeEvent>)
    ensures
        pipe_run(st, evs).cur >= st.cur,
    decreases evs.len(),
{
    if evs.len() > 0 {
        lemma_pipe_cur_monotone(pipe_step(st, evs[0]), evs.drop_first());
    }
}

/// Publications only accumulate: what was on the wire stays, and every
/// publication added during a run carries an epoch at least as fresh as the
/// run's starting epoch (it is exactly the epoch current at its moment).
pub proof fn lemma_pipe_publishes(st: PipeState, evs: Seq<PipeEvent>)
    ensures
        pipe_run(st, evs).published.len() >= st.published.len(),
        pipe_run(st, evs).published.take(st.published.len() as int) == st.published,
        forall|i: int|
            st.published.len() <= i < pipe_run(st, evs).published.len() ==> st.cur <= #[trigger] pipe_run(
                st,
                evs,
            ).published[i] <= pipe_run(st, evs).cur,
    decreases evs.len(),
{
    if evs.len() > 0 {
        let st2 = pipe_step(st, evs[0]);
        lemma_pipe_publishes(st2, evs.drop_first());
        let fin = pipe_run(st, evs);
        match evs[0] {
            PipeEvent::Edit => {
                assert(fin.published.take(st.published.len() as int) == st.published);
            },
            PipeEvent::Publish(g) => {
                if g == st.cur {
                    assert(st2.published == st.published.push(g));
                    assert(fin.published.take(st2.published.len() as int) == st2.published);
                    assert(fin.published.take(st.published.len() as int) =~= st.published) by {
                        assert forall|t: int| 0 <= t < st.published.len() implies fin.published[t]
                            == st.published[t] by {
                            assert(fin.published.take(st2.published.len() as int)[t]
                                == st2.published[t]);
                        }
                    }
                    assert forall|i: int|
                        st.published.len() <= i < fin.published.len() implies st.cur
                        <= #[trigger] fin.published[i] <= fin.cur by {
                        if i == st.published.len() {
                            assert(fin.published.take(st2.published.len() as int)[i]
                                == st2.published[i]);
                            assert(fin.published[i] == g);
                            lemma_pipe_cur_monotone(st2, evs.drop_first());
                        }
                    }
                }
            },
        }
    } else {
        assert(pipe_run(st, evs).published.take(st.published.len() as int) =~= st.published);
    }
}

/// No stale overwrite: once a worker's epoch is behind the current one, no
/// run of the pipeline ever publishes it again. A later edit arriving during
/// a worker's computation leaves that worker's epoch behind, so its
/// publication is suppressed forever.
pub proof fn lemma_no_stale_overwrite(st: PipeState, evs: Seq<PipeEvent>, g: nat)
    requires
        g < st.cur,
    ensures
        forall|i: int|
            st.published.len() <= i < pipe_run(st, evs).published.len() ==> #[trigger] pipe_run(
                st,
                evs,
            ).published[i] != g,
{
    lemma_pipe_publishes(st, evs);
}

/// The starting point of a project's pipeline, with every publication so far
/// in edit order and none fresher than the current epoch.
pub open spec fn pipe_ok(st: PipeState) -> bool {
    &&& forall|i: int, j: int|
        0 <= i < j < st.published.len() ==> #[trigger] st.published[i] <= #[trigger] st.published[j]
    &&& forall|i: int| 0 <= i < st.published.len() ==> #[trigger] st.published[i] <= st.cur
}

/// Monotonic freshness: publications appear on the wire in edit order, so the
/// last published tokens are always those of the most recent edit that
/// reached a publish; an older edit's tokens never overwrite a newer edit's.
pub proof fn lemma_pipe_order(st: PipeState, evs: Seq<PipeEvent>)
    requires
        pipe_ok(st),
    ensures
        pipe_ok(pipe_run(st, evs)),
    decreases evs.len(),
{
    if evs.len() > 0 {
        let st2 = pipe_step(st, evs[0]);
        assert(pipe_ok(st2)) by {
            match evs[0] {
                PipeEvent::Edit => {},
                PipeEvent::Publish(g) => {
                    if g == st.cur {
                        assert forall|i: int, j: int|
                            0 <= i < j < st2.published.len() implies #[trigger] st2.published[i]
                            <= #[trigger] st2.published[j] by {
                            if j == st2.published.len() - 1 {
                                assert(st2.published[i] == st.published[i]);
                            }
                        }
                    }
                },
            }
        }
        lemma_pipe_order(st2, evs.drop_first());
    }
}

} // verus!

verus! {

/// The wire record of one single-line fragment: absolute line, UTF-16 start
/// column, UTF-16 length, and the token type's index in the legend.
pub open spec fn record_of(s: Seq<char>, p: crate::tokens::SemToken) -> (
    usize,
    usize,
    usize,
    Option<usize>,
) {
    let t = crate::tokens::triple_of(s, p);
    (t.0.line, t.0.character, t.1, Option::Some(crate::tokens::legend_index_of(p.typ) as usize))
}

/// Transcode one file's classified tokens to the records published to the
/// editor: exactly the single-line fragments of the tokens, each with its
/// absolute position, UTF-16 length and legend index, sorted by position.
pub fn token_records(tokens: Vec<crate::tokens::SemToken>, text: &str) -> (r: Vec<
    (usize, usize, usize, Option<usize>),
>)
    requires
        crate::docpos::no_cr(text@),
        forall|i: int|
            0 <= i < tokens@.len() ==> crate::tokens::tok_wf(text@, #[trigger] tokens@[i]),
    ensures
        r@.to_multiset() == crate::tokens::split_tokens(text@, tokens@).map_values(
            |p: crate::tokens::SemToken| record_of(text@, p),
        ).to_multiset(),
        forall|i: int, j: int|
            0 <= i < j < r@.len() ==> !crate::docpos::pos_lt(
                ((#[trigger] r@[j]).0 as int, r@[j].1 as int),
                ((#[trigger] r@[i]).0 as int, r@[i].1 as int),
            ),
{
    let ghost s = text@;
    let triples = crate::tokens::SemToken::vscode(tokens, text);
    let ghost trv = triples@;
    let mut out: Vec<(usize, usize, usize, Option<usize>)> = Vec::new();
    let mut i: usize = 0;
    while i < triples.len()
        invariant
            trv == triples@,
            i <= trv.len(),
            out@.len() == i,
            forall|t: int|
                0 <= t < i ==> #[trigger] out@[t] == (
                    trv[t].0.line,
                    trv[t].0.character,
                    trv[t].1,
                    Option::Some(crate::tokens::legend_index_of(trv[t].2.typ) as usize),
                ),
        decreases trv.len() - i,
    {
        let (d, l, p) = triples[i];
        let idx = crate::tokens::legend_index(p.typ());
        out.push((d.line, d.character, l, Some(idx)));
        i = i + 1;
    }
    proof {
        let conv = |q: (crate::docpos::DocPos, usize, crate::tokens::SemToken)|
            (
                q.0.line,
                q.0.character,
                q.1,
                Option::Some(crate::tokens::legend_index_of(q.2.typ) as usize),
            );
        assert(out@ =~= trv.map_values(conv));
        let pieces = crate::tokens::split_tokens(s, tokens@);
        let tri = |p: crate::tokens::SemToken| crate::tokens::triple_of(s, p);
        crate::docpos::lemma_map_multiset(trv, pieces.map_values(tri), conv);
        assert(trv.map_values(conv).to_multiset() == pieces.map_values(tri).map_values(
            conv,
        ).to_multiset()) by {
            assert(trv.to_multiset() == pieces.map_values(tri).to_multiset());
        }
        assert(pieces.map_values(tri).map_values(conv) =~= pieces.map_values(
            |p: crate::tokens::SemToken| record_of(s, p),
        )) by {
            assert forall|t: int| 0 <= t < pieces.len() implies pieces.map_values(tri).map_values(
                conv,
            )[t] == pieces.map_values(|p: crate::tokens::SemToken| record_of(s, p))[t] by {
                assert(pieces.map_values(tri)[t] == tri(pieces[t]));
            }
        }
        assert forall|i: int, j: int| 0 <= i < j < out@.len() implies !crate::docpos::pos_lt(
            ((#[trigger] out@[j]).0 as int, out@[j].1 as int),
            ((#[trigger] out@[i]).0 as int, out@[i].1 as int),
        ) by {
            assert(out@[i].0 == trv[i].0.line && out@[i].1 == trv[i].0.character);
            assert(out@[j].0 == trv[j].0.line && out@[j].1 == trv[j].0.character);
            assert(!crate::docpos::pos_lt(
                crate::docpos::pos_of(trv[j].0),
                crate::docpos::pos_of(trv[i].0),
            ));
        }
    }
    out
}

} // verus!
