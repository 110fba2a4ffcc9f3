//! Workspaces and the projects discovered inside them, with the
//! longest-prefix lookup that routes a document URI to its workspace and
//! project.
use std::sync::Arc;

use vstd::prelude::*;

use crate::document::{to_vpath_spec, FileUri, VPath, WspaceEnt};
use crate::jrpc::Abort;
use crate::patch::{arc_clone, PatchStore};
use crate::vfs::{find_all_projects, node_at, projects_from, FsNode, PatchFS};

verus! {

/// A discovered project: its root relative to the workspace, the paths whose
/// tokens were invalidated since the last successful publish, the abort token
/// of the most recently scheduled analysis, and that analysis' epoch (the
/// count of updates scheduled for this project).
pub struct CtxProj {
    pub path: VPath,
    pub changes: Vec<VPath>,
    pub abort: Abort,
    pub epoch: u64,
}

impl CtxProj {
    pub fn new(path: VPath) -> (r: CtxProj)
        ensures
            r.path@ == path@,
            r.changes@.len() == 0,
            r.epoch == 0,
    {
        CtxProj { path, changes: Vec::new(), abort: Abort::new(), epoch: 0 }
    }

    /// The remainder of `path` below this project's root, if it lies there.
    pub fn path_in(&self, path: &VPath) -> (r: Option<VPath>)
        ensures
            match r {
                Some(rest) => self.path@.len() <= path@.len() && self.path@ =~= path@.take(
                    self.path@.len() as int,
                ) && rest@ =~= path@.skip(self.path@.len() as int),
                None => !(self.path@.len() <= path@.len() && self.path@ =~= path@.take(
                    self.path@.len() as int,
                )),
            },
    {
        path.strip_prefix(&self.path)
    }
}

/// Whether project `p` owns workspace-relative path `w`.
pub open spec fn proj_owns(p: CtxProj, w: Seq<Seq<char>>) -> bool {
    p.path@.len() <= w.len() && p.path@ == w.take(p.path@.len() as int)
}

/// Index `i` names the project lookup's answer for path `w`: an owning
/// project whose root is the longest among the owners, the earliest such on
/// ties.
pub open spec fn proj_best(ps: Seq<CtxProj>, w: Seq<Seq<char>>, i: int) -> bool {
    &&& 0 <= i < ps.len()
    &&& proj_owns(ps[i], w)
    &&& forall|j: int|
        0 <= j < ps.len() && proj_owns(#[trigger] ps[j], w) ==> ps[j].path@.len()
            <= ps[i].path@.len()
    &&& forall|j: int|
        0 <= j < i && proj_owns(#[trigger] ps[j], w) ==> ps[j].path@.len() < ps[i].path@.len()
}

/// One workspace: its client-given name, its overlay store, and the projects
/// discovered below its root.
pub struct CtxWsp {
    pub name: String,
    pub store: Arc<PatchStore>,
    pub projects: Vec<CtxProj>,
}

impl CtxWsp {
    /// The path of `uri` inside this workspace, if the workspace root is a
    /// prefix of it.
    pub fn path_in(&self, uri: &FileUri) -> (r: Option<VPath>)
        ensures
            match r {
                Some(v) => to_vpath_spec(uri@, self.store.basepath_view()) == Option::Some(v@),
                None => to_vpath_spec(uri@, self.store.basepath_view()) is None,
            },
    {
        uri.to_vpath(self.store.basepath())
    }

    /// The project owning the workspace-relative path whose root is the
    /// longest prefix of it (ties go to the earlier project), with the
    /// remainder below that root.
    pub fn get_proj(&self, p: &VPath) -> (r: Option<(VPath, usize)>)
        ensures
            match r {
                Some((rest, i)) => proj_best(self.projects@, p@, i as int) && rest@ =~= p@.skip(
                    self.projects@[i as int].path@.len() as int,
                ),
                None => forall|j: int|
                    0 <= j < self.projects@.len() ==> !proj_owns(#[trigger] self.projects@[j], p@),
            },
    {
        let mut best: Option<(VPath, usize)> = None;
        let mut i: usize = 0;
        while i < self.projects.len()
            invariant
                i <= self.projects@.len(),
                match best {
                    Some((rest, b)) => b < i && proj_owns(self.projects@[b as int], p@) && rest@
                        =~= p@.skip(self.projects@[b as int].path@.len() as int) && (forall|j: int|
                        0 <= j < i && proj_owns(#[trigger] self.projects@[j], p@)
                            ==> self.projects@[j].path@.len()
                            <= self.projects@[b as int].path@.len()) && (forall|j: int|
                        0 <= j < b && proj_owns(#[trigger] self.projects@[j], p@)
                            ==> self.projects@[j].path@.len()
                            < self.projects@[b as int].path@.len()),
                    None => forall|j: int|
                        0 <= j < i ==> !proj_owns(#[trigger] self.projects@[j], p@),
                },
            decreases self.projects@.len() - i,
        {
            match self.projects[i].path_in(p) {
                Some(rest) => {
                    proof {
                        assert(self.projects@[i as int].path@ =~= p@.take(
                            self.projects@[i as int].path@.len() as int,
                        ));
                    }
                    let replace: bool = match &best {
                        None => true,
                        Some((_, b)) => self.projects[*b].path.len() < self.projects[i].path.len(),
                    };
                    if replace {
                        best = Some((rest, i));
                    }
                },
                None => {
                    proof {
                        assert(!proj_owns(self.projects@[i as int], p@));
                    }
                },
            }
            i = i + 1;
        }
        best
    }
}

/// Whether workspace `w` owns `uri`, that is, its root is a prefix of it.
pub open spec fn wsp_owns(w: CtxWsp, uri: Seq<char>) -> bool {
    to_vpath_spec(uri, w.store.basepath_view()) is Some
}

/// The remainder of `uri` below workspace `w`'s root.
pub open spec fn wsp_rest(w: CtxWsp, uri: Seq<char>) -> Seq<Seq<char>> {
    to_vpath_spec(uri, w.store.basepath_view()).unwrap()
}

/// Index `i` names the workspace lookup's answer for `uri`: an owning
/// workspace whose root is the longest prefix (the one leaving the shortest
/// remainder), the earliest such on ties.
pub open spec fn wsp_best(ws: Seq<CtxWsp>, uri: Seq<char>, i: int) -> bool {
    &&& 0 <= i < ws.len()
    &&& wsp_owns(ws[i], uri)
    &&& forall|j: int|
        0 <= j < ws.len() && wsp_owns(#[trigger] ws[j], uri) ==> wsp_rest(ws[j], uri).len()
            >= wsp_rest(ws[i], uri).len()
    &&& forall|j: int|
        0 <= j < i && wsp_owns(#[trigger] ws[j], uri) ==> wsp_rest(ws[j], uri).len() > wsp_rest(
            ws[i],
            uri,
        ).len()
}

/// The process-wide registry: every workspace the client opened, in the order
/// they arrived.
pub struct WorkspaceCtx(pub Vec<CtxWsp>);

/// A freshly constructed workspace: named after its entry, with an empty
/// overlay rooted at the entry's URI, and one project (with nothing
/// invalidated yet) for every project root discovered in the disk snapshot.
pub open spec fn wsp_init_ok(w: CtxWsp, ent: WspaceEnt, disk: FsNode) -> bool {
    &&& w.name@ == ent.name@
    &&& w.store.basepath_view() == ent.uri@
    &&& w.store.patches().len() == 0
    &&& w.projects@.map_values(|p: CtxProj| p.path@) == projects_from(
        w.store.patches(),
        ent.uri@,
        node_at(disk, Seq::empty(), 0),
        Seq::empty(),
    )
    &&& forall|j: int|
        0 <= j < w.projects@.len() ==> (#[trigger] w.projects@[j]).changes@.len() == 0
            && w.projects@[j].epoch == 0
}

impl WorkspaceCtx {
    /// Build the registry at session start: one workspace per entry, each
    /// with a fresh overlay and the projects discovered by walking its disk
    /// snapshot through the (still empty) merged namespace.
    pub fn new(entries: Vec<(WspaceEnt, FsNode)>) -> (r: WorkspaceCtx)
        ensures
            r.0@.len() == entries@.len(),
            forall|i: int|
                0 <= i < entries@.len() ==> wsp_init_ok(
                    #[trigger] r.0@[i],
                    entries@[i].0,
                    entries@[i].1,
                ),
    {
        let ghost orig = entries@;
        let mut rest = entries;
        let mut out: Vec<CtxWsp> = Vec::new();
        while rest.len() > 0
            invariant
                out@.len() + rest@.len() == orig.len(),
                rest@ =~= orig.subrange(out@.len() as int, orig.len() as int),
                forall|i: int|
                    0 <= i < out@.len() ==> wsp_init_ok(#[trigger] out@[i], orig[i].0, orig[i].1),
            decreases rest@.len(),
        {
            let ghost before = rest@;
            let pair = rest.remove(0);
            proof {
                assert(before[0] == orig[out@.len() as int]);
            }
            let ent = pair.0;
            let disk = pair.1;
            let store = PatchStore::new(ent.uri);
            let store2 = arc_clone(&store);
            let fs = PatchFS::new(store, disk);
            let root = VPath::empty();
            let mut found = find_all_projects(&root, &fs);
            let ghost foundv = found@;
            let mut projects: Vec<CtxProj> = Vec::new();
            while found.len() > 0
                invariant
                    projects@.len() + found@.len() == foundv.len(),
                    found@ =~= foundv.subrange(projects@.len() as int, foundv.len() as int),
                    forall|j: int|
                        0 <= j < projects@.len() ==> (#[trigger] projects@[j]).path@ == foundv[j]@
                            && projects@[j].changes@.len() == 0 && projects@[j].epoch == 0,
                decreases found@.len(),
            {
                let ghost fb = found@;
                let path = found.remove(0);
                proof {
                    assert(fb[0] == foundv[projects@.len() as int]);
                }
                projects.push(CtxProj::new(path));
            }
            let w = CtxWsp { name: ent.name, store: store2, projects };
            proof {
                assert(w.projects@.map_values(|p: CtxProj| p.path@) =~= crate::vfs::vpaths_view(
                    foundv,
                )) by {
                    assert forall|j: int| 0 <= j < foundv.len() implies w.projects@.map_values(
                        |p: CtxProj| p.path@,
                    )[j] == crate::vfs::vpaths_view(foundv)[j] by {
                        assert(w.projects@.map_values(|p: CtxProj| p.path@)[j]
                            == w.projects@[j].path@);
                        assert(crate::vfs::vpaths_view(foundv)[j] == foundv[j]@);
                    }
                }
                assert(root@ =~= Seq::<Seq<char>>::empty());
            }
            out.push(w);
        }
        proof {
            assert(out@.len() == orig.len());
        }
        WorkspaceCtx(out)
    }
    /// The workspace whose root is the longest prefix of `uri` (the one that
    /// leaves the shortest remainder); ties go to the earlier workspace.
    /// Returns the remainder and the workspace's index.
    pub fn get_wsp(&self, uri: &FileUri) -> (r: Option<(VPath, usize)>)
        ensures
            match r {
                Some((rest, i)) => wsp_best(self.0@, uri@, i as int) && rest@ =~= wsp_rest(
                    self.0@[i as int],
                    uri@,
                ),
                None => forall|j: int|
                    0 <= j < self.0@.len() ==> !wsp_owns(#[trigger] self.0@[j], uri@),
            },
    {
        let mut best: Option<(VPath, usize)> = None;
        let mut i: usize = 0;
        while i < self.0.len()
            invariant
                i <= self.0@.len(),
                match best {
                    Some((rest, b)) => b < i && wsp_owns(self.0@[b as int], uri@) && rest@
                        =~= wsp_rest(self.0@[b as int], uri@) && (forall|j: int|
                        0 <= j < i && wsp_owns(#[trigger] self.0@[j], uri@) ==> wsp_rest(
                            self.0@[j],
                            uri@,
                        ).len() >= rest@.len()) && (forall|j: int|
                        0 <= j < b && wsp_owns(#[trigger] self.0@[j], uri@) ==> wsp_rest(
                            self.0@[j],
                            uri@,
                        ).len() > rest@.len()),
                    None => forall|j: int| 0 <= j < i ==> !wsp_owns(#[trigger] self.0@[j], uri@),
                },
            decreases self.0@.len() - i,
        {
            match self.0[i].path_in(uri) {
                Some(v) => {
                    let replace: bool = match &best {
                        None => true,
                        Some((rest, _)) => v.len() < rest.len(),
                    };
                    if replace {
                        best = Some((v, i));
                    }
                },
                None => {},
            }
            i = i + 1;
        }
        best
    }

    /// The workspace and project owning `uri`, with the path below the
    /// project root: longest-prefix workspace lookup followed by
    /// longest-prefix project lookup.
    pub fn get_proj(&self, uri: &FileUri) -> (r: Option<(VPath, usize, usize)>)
        ensures
            match r {
                Some((rest, w, p)) => wsp_best(self.0@, uri@, w as int) && proj_best(
                    self.0@[w as int].projects@,
                    wsp_rest(self.0@[w as int], uri@),
                    p as int,
                ) && rest@ =~= wsp_rest(self.0@[w as int], uri@).skip(
                    self.0@[w as int].projects@[p as int].path@.len() as int,
                ),
                None => true,
            },
    {
        match self.get_wsp(uri) {
            None => None,
            Some((in_wsp, w)) => {
                match self.0[w].get_proj(&in_wsp) {
                    None => None,
                    Some((rest, p)) => Some((rest, w, p)),
                }
            },
        }
    }
}

} // verus!
