//! The virtual filesystem an analysis reads: unsaved buffers from the
//! workspace overlay shadow files of an on-disk tree, under one read
//! interface. Project discovery walks this merged view.
use std::sync::Arc;

use vstd::prelude::*;

use crate::document::{extended_spec, to_vpath_spec, FileUri, VPath};
use crate::patch::{index_of_spec, PatchFile, PatchStore};

verus! {

/// What a read of the virtual filesystem yields: the text of a source file,
/// or the entry names of a directory.
#[derive(Debug)]
pub enum Loaded {
    Code(String),
    Collection(Vec<String>),
}

/// A snapshot of an on-disk directory tree: source files carry their text
/// (the source-file suffix is implicit on file names), directories carry
/// named children.
#[derive(Debug)]
pub enum FsNode {
    File(String),
    Dir(Vec<(String, FsNode)>),
}

/// The child of the given name among directory entries, first match.
pub open spec fn child_of(es: Seq<(String, FsNode)>, j: int, name: Seq<char>) -> Option<FsNode>
    decreases es.len() - j,
{
    if j < 0 || j >= es.len() {
        Option::None
    } else if es[j].0@ == name {
        Option::Some(es[j].1)
    } else {
        child_of(es, j + 1, name)
    }
}

/// The node the path names below `n`, following segments from index `i` on.
pub open spec fn node_at(n: FsNode, path: Seq<Seq<char>>, i: int) -> Option<FsNode>
    decreases path.len() - i,
{
    if i < 0 || i >= path.len() {
        Option::Some(n)
    } else {
        match n {
            FsNode::File(_) => Option::None,
            FsNode::Dir(es) => match child_of(es@, 0, path[i]) {
                Option::None => Option::None,
                Option::Some(c) => node_at(c, path, i + 1),
            },
        }
    }
}

/// Whether directory entries contain a child of the given name.
pub open spec fn has_child_named(es: Seq<(String, FsNode)>, name: Seq<char>) -> bool {
    child_of(es, 0, name) is Some
}

impl FsNode {
    /// Walk the disk tree along the path segments starting at index `i`.
    pub fn lookup<'a>(&'a self, path: &VPath, i: usize) -> (r: Option<&'a FsNode>)
        requires
            i <= path@.len(),
        ensures
            match r {
                Some(n) => node_at(*self, path@, i as int) == Option::Some(*n),
                None => node_at(*self, path@, i as int) is None,
            },
        decreases path@.len() - i,
    {
        let pl = path.0.len();
        if i == pl {
            return Some(self);
        }
        match self {
            FsNode::File(_) => None,
            FsNode::Dir(es) => {
                let mut j: usize = 0;
                loop
                    invariant
                        *self == FsNode::Dir(*es),
                        pl == path@.len() && pl == path.0@.len(),
                        i < path@.len(),
                        i <= path@.len(),
                        j <= es@.len(),
                        child_of(es@, 0, path@[i as int]) == child_of(es@, j as int, path@[
                            i as int
                        ]),
                    decreases es@.len() - j,
                {
                    if j == es.len() {
                        return None;
                    }
                    if es[j].0 == path.0[i] {
                        proof {
                            assert(es@[j as int].0@ == path@[i as int]);
                        }
                        return es[j].1.lookup(path, i + 1);
                    }
                    proof {
                        assert(es@[j as int].0@ != path@[i as int]);
                    }
                    j = j + 1;
                }
            },
        }
    }

    /// Whether this node is a directory with a child of the given name.
    pub fn has_child(&self, name: &str) -> (r: bool)
        ensures
            r == match *self {
                FsNode::File(_) => false,
                FsNode::Dir(es) => has_child_named(es@, name@),
            },
    {
        match self {
            FsNode::File(_) => false,
            FsNode::Dir(es) => {
                let mut j: usize = 0;
                loop
                    invariant
                        *self == FsNode::Dir(*es),
                        j <= es@.len(),
                        child_of(es@, 0, name@) == child_of(es@, j as int, name@),
                    decreases es@.len() - j,
                {
                    if j == es.len() {
                        return false;
                    }
                    if es[j].0 == name.to_owned() {
                        proof {
                            assert(es@[j as int].0@ == name@);
                        }
                        return true;
                    }
                    proof {
                        assert(es@[j as int].0@ != name@);
                    }
                    j = j + 1;
                }
            },
        }
    }
}

/// The read interface the analysis consumes: the workspace overlay in front,
/// the disk snapshot behind it.
#[derive(Debug)]
pub struct PatchFS {
    pub store: Arc<PatchStore>,
    pub disk: FsNode,
}

/// What a read at `path` yields: the patched text when the overlay holds the
/// file the path reconstitutes to, else the disk file's text or the disk
/// directory's entry names, else nothing.
pub open spec fn get_matches(
    ps: Seq<PatchFile>,
    base: Seq<char>,
    disk: FsNode,
    path: Seq<Seq<char>>,
    r: Option<Loaded>,
) -> bool {
    let i = index_of_spec(ps, extended_spec(base, path));
    if i >= 0 {
        r matches Option::Some(Loaded::Code(t)) && t@ == ps[i].text@
    } else {
        match node_at(disk, path, 0) {
            Option::None => r is None,
            Option::Some(FsNode::File(ft)) => r matches Option::Some(Loaded::Code(t)) && t@
                == ft@,
            Option::Some(FsNode::Dir(es)) => r matches Option::Some(Loaded::Collection(ns))
                && ns@.map_values(|s: String| s@) == es@.map_values(|e: (String, FsNode)| e.0@),
        }
    }
}

impl PatchFS {
    pub fn new(store: Arc<PatchStore>, disk: FsNode) -> (r: PatchFS)
        ensures
            r.store.patches() == store.patches(),
            r.store.basepath_view() == store.basepath_view(),
            r.disk == disk,
    {
        PatchFS { store, disk }
    }

    /// Read the merged namespace at `path` (relative to the workspace root):
    /// a patched buffer shadows the disk, the disk answers otherwise.
    pub fn get(&self, path: &VPath) -> (r: Option<Loaded>)
        ensures
            get_matches(self.store.patches(), self.store.basepath_view(), self.disk, path@, r),
    {
        let uri = self.store.basepath().extended(path);
        match self.store.index_of(&uri) {
            Some(i) => {
                proof {
                    crate::patch::lemma_index_of_props(self.store.patches(), uri@);
                }
                Some(Loaded::Code(self.store.patch_text(i).clone()))
            },
            None => {
                match self.disk.lookup(path, 0) {
                    None => None,
                    Some(FsNode::File(t)) => Some(Loaded::Code(t.clone())),
                    Some(FsNode::Dir(es)) => {
                        let mut names: Vec<String> = Vec::new();
                        let mut j: usize = 0;
                        while j < es.len()
                            invariant
                                j <= es@.len(),
                                names@.len() == j,
                                forall|t: int|
                                    0 <= t < j ==> (#[trigger] names@[t])@ == es@[t].0@,
                            decreases es@.len() - j,
                        {
                            names.push(es[j].0.clone());
                            j = j + 1;
                        }
                        proof {
                            assert(names@.map_values(|s: String| s@) =~= es@.map_values(
                                |e: (String, FsNode)| e.0@,
                            ));
                        }
                        Some(Loaded::Collection(names))
                    },
                }
            },
        }
    }
}

/// The project roots below a node of the merged namespace: a patched or
/// on-disk file is a project; a directory with a direct child named
/// `project_info` is a project and is not entered; any other directory is
/// searched recursively.
pub open spec fn projects_under(
    ps: Seq<PatchFile>,
    base: Seq<char>,
    node: FsNode,
    path: Seq<Seq<char>>,
) -> Seq<Seq<Seq<char>>>
    decreases node,
{
    if index_of_spec(ps, extended_spec(base, path)) >= 0 {
        seq![path]
    } else {
        match node {
            FsNode::File(_) => seq![path],
            FsNode::Dir(es) => if has_child_named(es@, "project_info"@) {
                seq![path]
            } else {
                entries_projects(ps, base, es@, 0, path)
            },
        }
    }
}

/// The project roots below the children of a directory, from entry `j` on.
pub open spec fn entries_projects(
    ps: Seq<PatchFile>,
    base: Seq<char>,
    es: Seq<(String, FsNode)>,
    j: int,
    path: Seq<Seq<char>>,
) -> Seq<Seq<Seq<char>>>
    decreases es, es.len() - j,
{
    if j < 0 || j >= es.len() {
        Seq::empty()
    } else {
        projects_under(ps, base, es[j].1, path.push(es[j].0@)) + entries_projects(
            ps,
            base,
            es,
            j + 1,
            path,
        )
    }
}

} // verus!

verus! {

/// The views of a list of paths.
pub open spec fn vpaths_view(v: Seq<VPath>) -> Seq<Seq<Seq<char>>> {
    v.map_values(|p: VPath| p@)
}

/// The project roots at a place that may or may not exist on disk: a patched
/// file is a project even where the disk has nothing.
pub open spec fn projects_from(
    ps: Seq<PatchFile>,
    base: Seq<char>,
    d: Option<FsNode>,
    path: Seq<Seq<char>>,
) -> Seq<Seq<Seq<char>>> {
    match d {
        Option::Some(n) => projects_under(ps, base, n, path),
        Option::None => if index_of_spec(ps, extended_spec(base, path)) >= 0 {
            seq![path]
        } else {
            Seq::empty()
        },
    }
}

fn walk_projects(fs: &PatchFS, node: &FsNode, path: &VPath) -> (r: Vec<VPath>)
    ensures
        vpaths_view(r@) == projects_under(
            fs.store.patches(),
            fs.store.basepath_view(),
            *node,
            path@,
        ),
    decreases *node,
{
    let ghost ps = fs.store.patches();
    let ghost base = fs.store.basepath_view();
    let uri = fs.store.basepath().extended(path);
    let hit = fs.store.index_of(&uri);
    if hit.is_some() {
        let r = vec![path.clone()];
        proof {
            assert(vpaths_view(r@) =~= seq![path@]);
        }
        return r;
    }
    match node {
        FsNode::File(_) => {
            let r = vec![path.clone()];
            proof {
                assert(vpaths_view(r@) =~= seq![path@]);
            }
            r
        },
        FsNode::Dir(es) => {
            if node.has_child("project_info") {
                let r = vec![path.clone()];
                proof {
                    assert(vpaths_view(r@) =~= seq![path@]);
                }
                r
            } else {
                let mut out: Vec<VPath> = Vec::new();
                let mut j: usize = 0;
                proof {
                    assert(vpaths_view(out@) =~= Seq::<Seq<Seq<char>>>::empty());
                }
                while j < es.len()
                    invariant
                        *node == FsNode::Dir(*es),
                        ps == fs.store.patches(),
                        base == fs.store.basepath_view(),
                        index_of_spec(ps, extended_spec(base, path@)) < 0,
                        !has_child_named(es@, "project_info"@),
                        j <= es@.len(),
                        entries_projects(ps, base, es@, 0, path@) == vpaths_view(out@)
                            + entries_projects(ps, base, es@, j as int, path@),
                    decreases es@.len() - j,
                {
                    let child_path = path.pushed(&es[j].0);
                    proof {
                        assert(decreases_to!(*node => node->Dir_0));
                        assert(node->Dir_0 == *es);
                        assert(decreases_to!(*es => es@));
                        assert(decreases_to!(es@ => es@[j as int]));
                        assert(decreases_to!(es@[j as int] => es@[j as int].1));
                        assert(decreases_to!(*node => es@[j as int].1));
                    }
                    let mut sub = walk_projects(fs, &es[j].1, &child_path);
                    let ghost out0 = out@;
                    let ghost subv = sub@;
                    out.append(&mut sub);
                    proof {
                        assert(out@ =~= out0 + subv);
                        assert(vpaths_view(out@) =~= vpaths_view(out0) + vpaths_view(subv));
                        assert(entries_projects(ps, base, es@, j as int, path@) == projects_under(
                            ps,
                            base,
                            es@[j as int].1,
                            path@.push(es@[j as int].0@),
                        ) + entries_projects(ps, base, es@, j as int + 1, path@));
                        assert(entries_projects(ps, base, es@, 0, path@) =~= vpaths_view(out@)
                            + entries_projects(ps, base, es@, j as int + 1, path@));
                    }
                    j = j + 1;
                }
                proof {
                    assert(entries_projects(ps, base, es@, es@.len() as int, path@)
                        =~= Seq::<Seq<Seq<char>>>::empty());
                    assert(vpaths_view(out@) =~= entries_projects(ps, base, es@, 0, path@));
                }
                out
            }
        },
    }
}

/// Find every project root in the merged namespace below `path`: a file leaf
/// is a project, a directory with a direct `project_info` child is a project
/// whose interior is not searched, and any other directory is searched.
pub fn find_all_projects(path: &VPath, fs: &PatchFS) -> (r: Vec<VPath>)
    ensures
        vpaths_view(r@) == projects_from(
            fs.store.patches(),
            fs.store.basepath_view(),
            node_at(fs.disk, path@, 0),
            path@,
        ),
{
    match fs.disk.lookup(path, 0) {
        Some(node) => walk_projects(fs, node, path),
        None => {
            let uri = fs.store.basepath().extended(path);
            if fs.store.index_of(&uri).is_some() {
                let r = vec![path.clone()];
                proof {
                    assert(vpaths_view(r@) =~= seq![path@]);
                }
                r
            } else {
                let r: Vec<VPath> = Vec::new();
                proof {
                    assert(vpaths_view(r@) =~= Seq::<Seq<Seq<char>>>::empty());
                }
                r
            }
        },
    }
}

} // verus!

verus! {

/// The merged namespace scoped to a sub-path: project loaders see their root
/// as the namespace root.
pub struct ScopedFS {
    pub fs: PatchFS,
    pub prefix: VPath,
}

impl ScopedFS {
    /// Read below the scope: the path is resolved under the scope's prefix.
    pub fn get(&self, rel: &VPath) -> (r: Option<Loaded>)
        ensures
            get_matches(
                self.fs.store.patches(),
                self.fs.store.basepath_view(),
                self.fs.disk,
                self.prefix@ + rel@,
                r,
            ),
    {
        let full = self.prefix.concat(rel);
        self.fs.get(&full)
    }
}

impl PatchStore {
    /// Scope the merged namespace to `path`: some view iff `path` is the
    /// workspace root or a descendant of it.
    pub fn mk_vfs(self: Arc<PatchStore>, disk: FsNode, path: &FileUri) -> (r: Option<ScopedFS>)
        ensures
            match r {
                Some(sc) => to_vpath_spec(path@, self.basepath_view()) == Option::Some(sc.prefix@)
                    && sc.fs.store.patches() == self.patches() && sc.fs.store.basepath_view()
                    == self.basepath_view() && sc.fs.disk == disk,
                None => to_vpath_spec(path@, self.basepath_view()) is None,
            },
    {
        let subpath = path.to_vpath(self.basepath())?;
        Some(ScopedFS { fs: PatchFS::new(self, disk), prefix: subpath })
    }
}

} // verus!
