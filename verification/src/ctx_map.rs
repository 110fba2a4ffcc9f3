//! The session's typed context store: one slot per kind of per-session state,
//! written by handlers and read back by later ones.
use vstd::prelude::*;

use crate::logging::TraceValue;
use crate::registry::WorkspaceCtx;

verus! {

/// A value the session can hold.
pub enum CtxVal {
    Workspace(WorkspaceCtx),
    Trace(TraceValue),
}

/// The kinds of value the session can hold, one slot each.
#[derive(Clone, Copy, Debug, PartialEq, Eq, Structural)]
pub enum CtxKind {
    Workspace,
    Trace,
}

/// The slot a value belongs to.
pub open spec fn kind_of(v: CtxVal) -> CtxKind {
    match v {
        CtxVal::Workspace(_) => CtxKind::Workspace,
        CtxVal::Trace(_) => CtxKind::Trace,
    }
}

pub fn kind_of_val(v: &CtxVal) -> (r: CtxKind)
    ensures
        r == kind_of(*v),
{
    match v {
        CtxVal::Workspace(_) => CtxKind::Workspace,
        CtxVal::Trace(_) => CtxKind::Trace,
    }
}

/// Index of the slot of the given kind, or a negative number when it is
/// empty.
pub open spec fn kind_index(slots: Seq<CtxVal>, k: CtxKind) -> int
    decreases slots.len(),
{
    if slots.len() == 0 {
        -1
    } else if kind_of(slots[0]) == k {
        0
    } else {
        let r = kind_index(slots.drop_first(), k);
        if r < 0 {
            -1
        } else {
            r + 1
        }
    }
}

pub proof fn lemma_kind_index_props(slots: Seq<CtxVal>, k: CtxKind)
    ensures
        kind_index(slots, k) >= 0 ==> 0 <= kind_index(slots, k) < slots.len() && kind_of(
            slots[kind_index(slots, k)],
        ) == k && (forall|j: int|
            0 <= j < kind_index(slots, k) ==> kind_of(#[trigger] slots[j]) != k),
        kind_index(slots, k) < 0 ==> forall|j: int|
            0 <= j < slots.len() ==> kind_of(#[trigger] slots[j]) != k,
    decreases slots.len(),
{
    if slots.len() > 0 && kind_of(slots[0]) != k {
        lemma_kind_index_props(slots.drop_first(), k);
        let r = kind_index(slots.drop_first(), k);
        if r >= 0 {
            assert(slots[r + 1] == slots.drop_first()[r]);
            assert forall|j: int| 0 <= j < r + 1 implies kind_of(#[trigger] slots[j]) != k by {
                if j > 0 {
                    assert(slots[j] == slots.drop_first()[j - 1]);
                }
            }
        } else {
            assert forall|j: int| 0 <= j < slots.len() implies kind_of(#[trigger] slots[j])
                != k by {
                if j > 0 {
                    assert(slots[j] == slots.drop_first()[j - 1]);
                }
            }
        }
    }
}

pub proof fn lemma_kind_index_first(slots: Seq<CtxVal>, k: CtxKind, i: int)
    requires
        0 <= i < slots.len(),
        kind_of(slots[i]) == k,
        forall|j: int| 0 <= j < i ==> kind_of(#[trigger] slots[j]) != k,
    ensures
        kind_index(slots, k) == i,
    decreases slots.len(),
{
    if i > 0 {
        assert(slots.drop_first()[i - 1] == slots[i]);
        assert forall|j: int| 0 <= j < i - 1 implies kind_of(
            #[trigger] slots.drop_first()[j],
        ) != k by {
            assert(slots.drop_first()[j] == slots[j + 1]);
        }
        lemma_kind_index_first(slots.drop_first(), k, i - 1);
    }
}

pub proof fn lemma_kind_index_none(slots: Seq<CtxVal>, k: CtxKind)
    requires
        forall|j: int| 0 <= j < slots.len() ==> kind_of(#[trigger] slots[j]) != k,
    ensures
        kind_index(slots, k) == -1,
    decreases slots.len(),
{
    if slots.len() > 0 {
        assert forall|j: int| 0 <= j < slots.drop_first().len() implies kind_of(
            #[trigger] slots.drop_first()[j],
        ) != k by {
            assert(slots.drop_first()[j] == slots[j + 1]);
        }
        lemma_kind_index_none(slots.drop_first(), k);
    }
}

/// What `set` does: replace the slot of the value's kind, or append a fresh
/// one.
pub open spec fn spec_set(slots: Seq<CtxVal>, v: CtxVal) -> Seq<CtxVal> {
    let i = kind_index(slots, kind_of(v));
    if i < 0 {
        slots.push(v)
    } else {
        slots.update(i, v)
    }
}

/// The session's typed store: at most one value per kind.
pub struct CtxMap {
    slots: Vec<CtxVal>,
}

impl CtxMap {
    pub closed spec fn slots(&self) -> Seq<CtxVal> {
        self.slots@
    }

    pub fn new() -> (r: CtxMap)
        ensures
            r.slots() =~= Seq::<CtxVal>::empty(),
    {
        CtxMap { slots: Vec::new() }
    }

    /// Store a value in its kind's slot, replacing what was there.
    pub fn set(&mut self, v: CtxVal)
        ensures
            final(self).slots() == spec_set(old(self).slots(), v),
    {
        let k = kind_of_val(&v);
        let mut i: usize = 0;
        while i < self.slots.len()
            invariant
                i <= self.slots@.len(),
                k == kind_of(v),
                forall|j: int| 0 <= j < i ==> kind_of(#[trigger] self.slots@[j]) != k,
                self.slots@ == old(self).slots(),
            decreases self.slots@.len() - i,
        {
            let here = kind_of_val(&self.slots[i]);
            if here == k {
                proof {
                    lemma_kind_index_first(self.slots@, k, i as int);
                }
                let ghost before = self.slots@;
                self.slots.remove(i);
                self.slots.insert(i, v);
                proof {
                    assert(self.slots@ =~= before.update(i as int, v));
                }
                return ;
            }
            i = i + 1;
        }
        proof {
            lemma_kind_index_none(self.slots@, k);
        }
        self.slots.push(v);
    }

    /// Borrow the value in a kind's slot.
    pub fn get(&self, k: CtxKind) -> (r: Option<&CtxVal>)
        ensures
            match r {
                Some(v) => kind_index(self.slots(), k) >= 0 && *v == self.slots()[kind_index(
                    self.slots(),
                    k,
                )],
                None => kind_index(self.slots(), k) < 0,
            },
    {
        let mut i: usize = 0;
        while i < self.slots.len()
            invariant
                i <= self.slots@.len(),
                forall|j: int| 0 <= j < i ==> kind_of(#[trigger] self.slots@[j]) != k,
            decreases self.slots@.len() - i,
        {
            let here = kind_of_val(&self.slots[i]);
            if here == k {
                proof {
                    lemma_kind_index_first(self.slots@, k, i as int);
                }
                return Some(&self.slots[i]);
            }
            i = i + 1;
        }
        proof {
            lemma_kind_index_none(self.slots@, k);
        }
        None
    }

    /// Take the value out of a kind's slot, leaving it empty; with `set` this
    /// gives a handler exclusive editing access.
    pub fn take(&mut self, k: CtxKind) -> (r: Option<CtxVal>)
        ensures
            match r {
                Some(v) => kind_index(old(self).slots(), k) >= 0 && v == old(self).slots()[
                    kind_index(old(self).slots(), k)] && final(self).slots() == old(
                    self,
                ).slots().remove(kind_index(old(self).slots(), k)),
                None => kind_index(old(self).slots(), k) < 0 && final(self).slots() == old(
                    self,
                ).slots(),
            },
    {
        let mut i: usize = 0;
        while i < self.slots.len()
            invariant
                i <= self.slots@.len(),
                forall|j: int| 0 <= j < i ==> kind_of(#[trigger] self.slots@[j]) != k,
                self.slots@ == old(self).slots(),
            decreases self.slots@.len() - i,
        {
            let here = kind_of_val(&self.slots[i]);
            if here == k {
                proof {
                    lemma_kind_index_first(self.slots@, k, i as int);
                }
                return Some(self.slots.remove(i));
            }
            i = i + 1;
        }
        proof {
            lemma_kind_index_none(self.slots@, k);
        }
        None
    }
}

} // verus!
