//! The per-workspace overlay of unsaved buffers: versioned patches keyed by
//! file URI, where a newer version overwrites and an older one is ignored.
use std::sync::Arc;

use vstd::prelude::*;

use crate::document::{uri_eq, FileUri};

verus! {

/// One unsaved buffer: the document's URI, its full text, and the version the
/// client stamped it with.
#[derive(Debug)]
pub struct PatchFile {
    pub uri: FileUri,
    pub text: String,
    pub version: u64,
}

impl Clone for PatchFile {
    fn clone(&self) -> (r: PatchFile)
        ensures
            r == *self,
    {
        PatchFile { uri: self.uri.clone(), text: self.text.clone(), version: self.version }
    }
}

/// Index of the first patch whose URI names the given file, or a negative
/// number when none does.
pub open spec fn index_of_spec(ps: Seq<PatchFile>, u: Seq<char>) -> int
    decreases ps.len(),
{
    if ps.len() == 0 {
        -1
    } else if uri_eq(ps[0].uri@, u) {
        0
    } else {
        let r = index_of_spec(ps.drop_first(), u);
        if r < 0 {
            -1
        } else {
            r + 1
        }
    }
}

/// `index_of_spec` finds the first match, and a negative result means there
/// is none.
pub proof fn lemma_index_of_props(ps: Seq<PatchFile>, u: Seq<char>)
    ensures
        index_of_spec(ps, u) >= 0 ==> 0 <= index_of_spec(ps, u) < ps.len() && uri_eq(
            ps[index_of_spec(ps, u)].uri@,
            u,
        ) && (forall|j: int| 0 <= j < index_of_spec(ps, u) ==> !uri_eq((#[trigger] ps[j]).uri@, u)),
        index_of_spec(ps, u) < 0 ==> forall|j: int|
            0 <= j < ps.len() ==> !uri_eq((#[trigger] ps[j]).uri@, u),
    decreases ps.len(),
{
    if ps.len() > 0 && !uri_eq(ps[0].uri@, u) {
        lemma_index_of_props(ps.drop_first(), u);
        let r = index_of_spec(ps.drop_first(), u);
        if r >= 0 {
            assert(ps[r + 1] == ps.drop_first()[r]);
            assert forall|j: int| 0 <= j < r + 1 implies !uri_eq((#[trigger] ps[j]).uri@, u) by {
                if j > 0 {
                    assert(ps[j] == ps.drop_first()[j - 1]);
                }
            }
        } else {
            assert forall|j: int| 0 <= j < ps.len() implies !uri_eq((#[trigger] ps[j]).uri@, u) by {
                if j > 0 {
                    assert(ps[j] == ps.drop_first()[j - 1]);
                }
            }
        }
    }
}

/// A first match determines `index_of_spec`.
pub proof fn lemma_index_of_first(ps: Seq<PatchFile>, u: Seq<char>, i: int)
    requires
        0 <= i < ps.len(),
        uri_eq(ps[i].uri@, u),
        forall|j: int| 0 <= j < i ==> !uri_eq((#[trigger] ps[j]).uri@, u),
    ensures
        index_of_spec(ps, u) == i,
    decreases ps.len(),
{
    if i > 0 {
        assert(!uri_eq(ps[0].uri@, u));
        assert(ps.drop_first()[i - 1] == ps[i]);
        assert forall|j: int| 0 <= j < i - 1 implies !uri_eq(
            (#[trigger] ps.drop_first()[j]).uri@,
            u,
        ) by {
            assert(ps.drop_first()[j] == ps[j + 1]);
        }
        lemma_index_of_first(ps.drop_first(), u, i - 1);
    }
}

/// No match anywhere makes `index_of_spec` negative.
pub proof fn lemma_index_of_none(ps: Seq<PatchFile>, u: Seq<char>)
    requires
        forall|j: int| 0 <= j < ps.len() ==> !uri_eq((#[trigger] ps[j]).uri@, u),
    ensures
        index_of_spec(ps, u) == -1,
    decreases ps.len(),
{
    if ps.len() > 0 {
        assert forall|j: int| 0 <= j < ps.drop_first().len() implies !uri_eq(
            (#[trigger] ps.drop_first()[j]).uri@,
            u,
        ) by {
            assert(ps.drop_first()[j] == ps[j + 1]);
        }
        lemma_index_of_none(ps.drop_first(), u);
    }
}

/// What one `patch` call does to the overlay: overwrite text and version when
/// a record exists and its version does not exceed the patch's, ignore an
/// older patch, append a fresh record otherwise.
pub open spec fn spec_patch(ps: Seq<PatchFile>, p: PatchFile) -> Seq<PatchFile> {
    let i = index_of_spec(ps, p.uri@);
    if i < 0 {
        ps.push(p)
    } else if ps[i].version <= p.version {
        ps.update(i, PatchFile { uri: ps[i].uri, text: p.text, version: p.version })
    } else {
        ps
    }
}

/// What `unpatch` does: remove the record for the URI (which must exist).
pub open spec fn spec_unpatch(ps: Seq<PatchFile>, u: Seq<char>) -> Seq<PatchFile> {
    ps.remove(index_of_spec(ps, u))
}

/// At most one record per file: no two patches name the same URI.
pub open spec fn store_wf(ps: Seq<PatchFile>) -> bool {
    forall|i: int, j: int|
        0 <= i < j < ps.len() ==> !uri_eq((#[trigger] ps[i]).uri@, (#[trigger] ps[j]).uri@)
}

/// Relies on `Arc::clone`: a new handle to the same shared value.
#[verifier::external_body]
pub fn arc_clone<T>(v: &Arc<T>) -> (r: Arc<T>)
    ensures
        r == *v,
{
    Arc::clone(v)
}

/// A single workspace's overlay: its root URI and the unsaved buffers
/// shadowing files below it.
#[derive(Debug)]
pub struct PatchStore {
    basepath: FileUri,
    patches: Vec<PatchFile>,
}

impl Clone for PatchStore {
    fn clone(&self) -> (r: PatchStore)
        ensures
            r.basepath_view() == self.basepath_view(),
            r.patches() == self.patches(),
    {
        let mut ps: Vec<PatchFile> = Vec::new();
        let mut i: usize = 0;
        while i < self.patches.len()
            invariant
                i <= self.patches@.len(),
                ps@.len() == i,
                forall|t: int| 0 <= t < i ==> #[trigger] ps@[t] == self.patches@[t],
            decreases self.patches@.len() - i,
        {
            ps.push(self.patches[i].clone());
            i = i + 1;
        }
        proof {
            assert(ps@ =~= self.patches@);
        }
        PatchStore { basepath: self.basepath.clone(), patches: ps }
    }
}

impl PatchStore {
    /// The overlay's records, for specification.
    pub closed spec fn patches(&self) -> Seq<PatchFile> {
        self.patches@
    }

    /// A fresh, empty overlay for the workspace rooted at `basepath`.
    pub fn new(basepath: FileUri) -> (r: Arc<PatchStore>)
        ensures
            r.basepath_view() == basepath@,
            r.patches() =~= Seq::<PatchFile>::empty(),
    {
        Arc::new(PatchStore { basepath, patches: Vec::new() })
    }

    /// Take the store out of its shared pointer for editing: the copy-on-write
    /// step of a `change`.
    pub fn unpack(self: Arc<PatchStore>) -> (r: PatchStore)
        ensures
            r.basepath_view() == self.basepath_view(),
            r.patches() == self.patches(),
    {
        (*self).clone()
    }

    pub fn basepath(&self) -> (r: &FileUri)
        ensures
            r@ == self.basepath_view(),
    {
        &self.basepath
    }

    pub closed spec fn basepath_view(&self) -> Seq<char> {
        self.basepath@
    }

    /// Index of the record for `uri`, by decoded-segment equality.
    pub fn index_of(&self, uri: &FileUri) -> (r: Option<usize>)
        ensures
            match r {
                Some(i) => index_of_spec(self.patches(), uri@) == i,
                None => index_of_spec(self.patches(), uri@) < 0,
            },
    {
        let mut i: usize = 0;
        while i < self.patches.len()
            invariant
                i <= self.patches@.len(),
                forall|j: int| 0 <= j < i ==> !uri_eq((#[trigger] self.patches@[j]).uri@, uri@),
            decreases self.patches@.len() - i,
        {
            if self.patches[i].uri.same_uri(uri) {
                proof {
                    lemma_index_of_first(self.patches@, uri@, i as int);
                }
                return Some(i);
            }
            i = i + 1;
        }
        proof {
            lemma_index_of_none(self.patches@, uri@);
        }
        None
    }

    /// Record an unsaved buffer: overwrite the record for its URI unless that
    /// record is newer, append a fresh record when there is none.
    pub fn patch(&mut self, patch: PatchFile)
        ensures
            final(self).patches() == spec_patch(old(self).patches(), patch),
            final(self).basepath_view() == old(self).basepath_view(),
    {
        let idx = self.index_of(&patch.uri);
        match idx {
            None => {
                self.patches.push(patch);
            },
            Some(i) => {
                proof {
                    lemma_index_of_props(self.patches@, patch.uri@);
                }
                let ghost ps0 = self.patches@;
                if self.patches[i].version <= patch.version {
                    let old_entry = self.patches.remove(i);
                    self.patches.insert(
                        i,
                        PatchFile { uri: old_entry.uri, text: patch.text, version: patch.version },
                    );
                    proof {
                        assert(self.patches@ =~= ps0.update(
                            i as int,
                            PatchFile {
                                uri: ps0[i as int].uri,
                                text: patch.text,
                                version: patch.version,
                            },
                        ));
                    }
                }
            },
        }
    }

    /// Drop the record for `uri`; callers must know one exists (closing a
    /// document that was never opened is a protocol violation).
    pub fn unpatch(&mut self, uri: &FileUri)
        requires
            index_of_spec(old(self).patches(), uri@) >= 0,
        ensures
            final(self).patches() == spec_unpatch(old(self).patches(), uri@),
            final(self).basepath_view() == old(self).basepath_view(),
    {
        proof {
            lemma_index_of_props(self.patches@, uri@);
        }
        let idx = self.index_of(uri);
        match idx {
            Some(i) => {
                self.patches.remove(i);
            },
            None => {
                proof {
                    assert(false);
                }
            },
        }
    }

    /// Read access to a record's text by index.
    pub fn patch_text(&self, i: usize) -> (r: &String)
        requires
            i < self.patches().len(),
        ensures
            r@ == self.patches()[i as int].text@,
    {
        &self.patches[i].text
    }

    /// Read access to a record by index.
    pub fn patch_at(&self, i: usize) -> (r: &PatchFile)
        requires
            i < self.patches().len(),
        ensures
            *r == self.patches()[i as int],
    {
        &self.patches[i]
    }
}

} // verus!

verus! {

/// Patching preserves the one-record-per-file invariant.
pub proof fn lemma_patch_preserves_wf(ps: Seq<PatchFile>, p: PatchFile)
    requires
        store_wf(ps),
    ensures
        store_wf(spec_patch(ps, p)),
{
    lemma_index_of_props(ps, p.uri@);
    let i = index_of_spec(ps, p.uri@);
    let ps2 = spec_patch(ps, p);
    if i < 0 {
        assert forall|a: int, b: int| 0 <= a < b < ps2.len() implies !uri_eq(
            (#[trigger] ps2[a]).uri@,
            (#[trigger] ps2[b]).uri@,
        ) by {
            if b == ps.len() {
                assert(ps2[a] == ps[a] && ps2[b] == p);
            } else {
                assert(ps2[a] == ps[a] && ps2[b] == ps[b]);
            }
        }
    } else if ps[i].version <= p.version {
        assert forall|a: int, b: int| 0 <= a < b < ps2.len() implies !uri_eq(
            (#[trigger] ps2[a]).uri@,
            (#[trigger] ps2[b]).uri@,
        ) by {
            assert(ps2[a].uri == ps[a].uri && ps2[b].uri == ps[b].uri);
        }
    }
}

/// Unpatching preserves the one-record-per-file invariant.
pub proof fn lemma_unpatch_preserves_wf(ps: Seq<PatchFile>, u: Seq<char>)
    requires
        store_wf(ps),
        index_of_spec(ps, u) >= 0,
    ensures
        store_wf(spec_unpatch(ps, u)),
{
    lemma_index_of_props(ps, u);
    let i = index_of_spec(ps, u);
    let ps2 = spec_unpatch(ps, u);
    assert forall|a: int, b: int| 0 <= a < b < ps2.len() implies !uri_eq(
        (#[trigger] ps2[a]).uri@,
        (#[trigger] ps2[b]).uri@,
    ) by {
        let a0 = if a < i { a } else { a + 1 };
        let b0 = if b < i { b } else { b + 1 };
        assert(ps2[a] == ps[a0] && ps2[b] == ps[b0]);
    }
}

/// A patch whose version regresses changes nothing: after `patch(p)`, a
/// second `patch(p2)` for the same file with `p2.version < p.version` leaves
/// the store as it was, and the file's record still carries `p`'s text and
/// version. (The first patch must itself land: the record it meets, if any,
/// must not be newer than `p`.)
pub proof fn lemma_patch_version_regression(ps: Seq<PatchFile>, p: PatchFile, p2: PatchFile)
    requires
        uri_eq(p2.uri@, p.uri@),
        p2.version < p.version,
        index_of_spec(ps, p.uri@) < 0 || ps[index_of_spec(ps, p.uri@)].version <= p.version,
    ensures
        spec_patch(spec_patch(ps, p), p2) == spec_patch(ps, p),
        index_of_spec(spec_patch(ps, p), p2.uri@) >= 0,
        spec_patch(ps, p)[index_of_spec(spec_patch(ps, p), p2.uri@)].text == p.text,
        spec_patch(ps, p)[index_of_spec(spec_patch(ps, p), p2.uri@)].version == p.version,
{
    lemma_index_of_props(ps, p.uri@);
    let i = index_of_spec(ps, p.uri@);
    let ps1 = spec_patch(ps, p);
    if i < 0 {
        assert(ps1 == ps.push(p));
        assert(ps1[ps.len() as int] == p);
        assert forall|j: int| 0 <= j < ps.len() implies !uri_eq((#[trigger] ps1[j]).uri@, p2.uri@)
            by {
            assert(ps1[j] == ps[j]);
        }
        lemma_index_of_first(ps1, p2.uri@, ps.len() as int);
        assert(index_of_spec(ps1, p2.uri@) == ps.len());
        assert(ps1[ps.len() as int].version == p.version > p2.version);
    } else {
        let upd = PatchFile { uri: ps[i].uri, text: p.text, version: p.version };
        assert(ps1 == ps.update(i, upd));
        assert(ps1[i] == upd);
        assert(uri_eq(ps1[i].uri@, p2.uri@));
        assert forall|j: int| 0 <= j < i implies !uri_eq((#[trigger] ps1[j]).uri@, p2.uri@) by {
            assert(ps1[j] == ps[j]);
        }
        lemma_index_of_first(ps1, p2.uri@, i);
        assert(ps1[i].version == p.version > p2.version);
    }
}

/// Removing a file's record and patching it again is patching a store that
/// never held the file: the new record is exactly the patch, with its version
/// taken as given.
pub proof fn lemma_unpatch_patch_fresh(ps: Seq<PatchFile>, p: PatchFile)
    requires
        store_wf(ps),
        index_of_spec(ps, p.uri@) >= 0,
    ensures
        spec_patch(spec_unpatch(ps, p.uri@), p) == spec_unpatch(ps, p.uri@).push(p),
        spec_patch(spec_unpatch(ps, p.uri@), p).last() == p,
{
    lemma_index_of_props(ps, p.uri@);
    let i = index_of_spec(ps, p.uri@);
    let ps1 = spec_unpatch(ps, p.uri@);
    assert forall|j: int| 0 <= j < ps1.len() implies !uri_eq((#[trigger] ps1[j]).uri@, p.uri@) by {
        let j0 = if j < i { j } else { j + 1 };
        assert(ps1[j] == ps[j0]);
        if j0 != i {
            assert(!uri_eq(ps[j0].uri@, ps[i].uri@)) by {
                if j0 < i {
                    assert(!uri_eq(ps[j0].uri@, ps[i].uri@));
                }
            }
        }
    }
    lemma_index_of_none(ps1, p.uri@);
}

} // verus!
