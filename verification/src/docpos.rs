//! Conversion between editor document positions (line and UTF-16 column) and
//! UTF-8 byte offsets over the same text. Lines are delimited by `'\n'` and
//! texts containing `'\r'` are rejected.
use vstd::prelude::*;
use vstd::string::StrSliceExecFns;

use crate::chars::{boff_at, u16len, utf16_len, utf8_len};

verus! {

/// A document position as the editor protocol counts it: `line` counts
/// `'\n'`-delimited lines from the top, `character` counts UTF-16 code units
/// from the start of the line.
#[derive(Clone, Copy, Debug, PartialEq, Eq, Structural)]
pub struct DocPos {
    pub line: usize,
    pub character: usize,
}

impl DocPos {
    pub fn new(line: usize, character: usize) -> (r: DocPos)
        ensures
            r.line == line && r.character == character,
    {
        DocPos { line, character }
    }
}

/// True when the text contains no carriage return.
pub open spec fn no_cr(s: Seq<char>) -> bool {
    forall|i: int| 0 <= i < s.len() ==> s[i] != '\r'
}

/// The (line, UTF-16 column) pair at char index `k` of `s`.
pub open spec fn pos_at(s: Seq<char>, k: int) -> (int, int)
    decreases k,
{
    if k <= 0 {
        (0, 0)
    } else {
        let p = pos_at(s, k - 1);
        if s[k - 1] == '\n' {
            (p.0 + 1, 0)
        } else {
            (p.0, p.1 + u16len(s[k - 1]))
        }
    }
}

/// Strict lexicographic order on (line, column) pairs.
pub open spec fn pos_lt(a: (int, int), b: (int, int)) -> bool {
    a.0 < b.0 || (a.0 == b.0 && a.1 < b.1)
}

pub open spec fn pos_of(p: DocPos) -> (int, int) {
    (p.line as int, p.character as int)
}

/// A position names a character of the text: some char index `k` that does
/// not sit on a line break has exactly this line and column. Positions at the
/// very end of a line (or of the text) name no character.
pub open spec fn valid_pos(s: Seq<char>, p: DocPos) -> bool {
    exists|k: int| 0 <= k < s.len() && s[k] != '\n' && pos_at(s, k) == pos_of(p)
}

/// A byte offset is valid when it is a character boundary of the text; the
/// text's total byte length is a boundary too.
pub open spec fn valid_off(s: Seq<char>, o: int) -> bool {
    exists|k: int| 0 <= k <= s.len() && boff_at(s, k) == o
}

/// The char index a valid position names.
pub open spec fn idx_of_pos(s: Seq<char>, p: DocPos) -> int {
    choose|k: int| 0 <= k < s.len() && s[k] != '\n' && pos_at(s, k) == pos_of(p)
}

/// The char index a valid byte offset names.
pub open spec fn idx_of_off(s: Seq<char>, o: int) -> int {
    choose|k: int| 0 <= k <= s.len() && boff_at(s, k) == o
}

/// The byte offset a valid position converts to.
pub open spec fn bpos_of(s: Seq<char>, p: DocPos) -> int {
    boff_at(s, idx_of_pos(s, p))
}

/// The position a valid byte offset converts to.
pub open spec fn docpos_of(s: Seq<char>, o: int) -> (int, int) {
    pos_at(s, idx_of_off(s, o))
}

/// Lines and columns are never negative.
pub proof fn lemma_pos_nonneg(s: Seq<char>, k: int)
    ensures
        pos_at(s, k).0 >= 0,
        pos_at(s, k).1 >= 0,
    decreases k,
{
    if k > 0 {
        lemma_pos_nonneg(s, k - 1);
        crate::chars::lemma_u16len_le_u8len(s[k - 1]);
    }
}

/// Positions strictly grow along the text, in lexicographic order.
pub proof fn lemma_pos_strict(s: Seq<char>, k1: int, k2: int)
    requires
        0 <= k1 < k2,
    ensures
        pos_lt(pos_at(s, k1), pos_at(s, k2)),
    decreases k2,
{
    crate::chars::lemma_u16len_le_u8len(s[k2 - 1]);
    if k1 < k2 - 1 {
        lemma_pos_strict(s, k1, k2 - 1);
    }
}

/// Hence positions of distinct char indices differ: `pos_at` is injective.
pub proof fn lemma_pos_injective(s: Seq<char>, k1: int, k2: int)
    requires
        0 <= k1,
        0 <= k2,
        pos_at(s, k1) == pos_at(s, k2),
    ensures
        k1 == k2,
{
    if k1 < k2 {
        lemma_pos_strict(s, k1, k2);
    }
    if k2 < k1 {
        lemma_pos_strict(s, k2, k1);
    }
}

/// Byte offsets of distinct char indices differ: `boff_at` is injective.
pub proof fn lemma_boff_injective(s: Seq<char>, k1: int, k2: int)
    requires
        0 <= k1,
        0 <= k2,
        boff_at(s, k1) == boff_at(s, k2),
    ensures
        k1 == k2,
{
    if k1 < k2 {
        crate::chars::lemma_boff_strict(s, k1, k2);
    }
    if k2 < k1 {
        crate::chars::lemma_boff_strict(s, k2, k1);
    }
}

/// Converting a valid position to its byte offset and back recovers it: the
/// round trip through `docpos2bpos` and `bpos2docpos` is the identity on
/// every in-bounds position.
pub proof fn lemma_docpos_roundtrip(s: Seq<char>, p: DocPos)
    requires
        valid_pos(s, p),
    ensures
        valid_off(s, bpos_of(s, p)),
        docpos_of(s, bpos_of(s, p)) == pos_of(p),
{
    let k = idx_of_pos(s, p);
    assert(0 <= k <= s.len() && boff_at(s, k) == bpos_of(s, p));
    let k2 = idx_of_off(s, bpos_of(s, p));
    lemma_boff_injective(s, k, k2);
}

/// Converting a valid byte offset to a position and back recovers it,
/// provided the offset names a character that is not a line break (offsets of
/// line ends convert to positions that name no character).
pub proof fn lemma_bpos_roundtrip(s: Seq<char>, o: int)
    requires
        valid_off(s, o),
        idx_of_off(s, o) < s.len(),
        s[idx_of_off(s, o)] != '\n',
        docpos_of(s, o).0 <= usize::MAX,
        docpos_of(s, o).1 <= usize::MAX,
    ensures
        valid_pos(
            s,
            DocPos { line: docpos_of(s, o).0 as usize, character: docpos_of(s, o).1 as usize },
        ),
        bpos_of(
            s,
            DocPos { line: docpos_of(s, o).0 as usize, character: docpos_of(s, o).1 as usize },
        ) == o,
{
    let k = idx_of_off(s, o);
    lemma_pos_nonneg(s, k);
    let p = DocPos { line: docpos_of(s, o).0 as usize, character: docpos_of(s, o).1 as usize };
    assert(pos_at(s, k) == pos_of(p));
    let k2 = idx_of_pos(s, p);
    lemma_pos_injective(s, k, k2);
}

/// Line and column at a char index never exceed its byte offset.
pub proof fn lemma_pos_le_boff(s: Seq<char>, k: int)
    ensures
        pos_at(s, k).0 <= boff_at(s, k),
        pos_at(s, k).1 <= boff_at(s, k),
    decreases k,
{
    if k > 0 {
        lemma_pos_le_boff(s, k - 1);
        lemma_pos_nonneg(s, k - 1);
        crate::chars::lemma_boff_nonneg(s, k - 1);
        crate::chars::lemma_u16len_le_u8len(s[k - 1]);
    }
}

/// Non-decreasing order of a sequence of positions (with payloads).
pub open spec fn sorted_pos<T>(s: Seq<(DocPos, T)>) -> bool {
    forall|i: int, j: int|
        0 <= i < j < s.len() ==> !pos_lt(pos_of(s[j].0), pos_of(s[i].0))
}

/// `a` comes no later than `b` in document order.
pub fn pos_le(a: DocPos, b: DocPos) -> (r: bool)
    ensures
        r == !pos_lt(pos_of(b), pos_of(a)),
{
    a.line < b.line || (a.line == b.line && a.character <= b.character)
}

proof fn lemma_insert_to_multiset_local<A>(s: Seq<A>, i: int, x: A)
    requires
        0 <= i <= s.len(),
    ensures
        s.insert(i, x).to_multiset() == s.to_multiset().insert(x),
{
    broadcast use vstd::seq_lib::to_multiset_insert;

}

/// Multisets of mapped sequences agree whenever the multisets of the
/// sequences themselves do: mapping a function over a permutation yields a
/// permutation of the mapped values.
pub proof fn lemma_map_multiset<A, B>(a: Seq<A>, b: Seq<A>, f: spec_fn(A) -> B)
    requires
        a.to_multiset() == b.to_multiset(),
    ensures
        a.map_values(f).to_multiset() == b.map_values(f).to_multiset(),
    decreases a.len(),
{
    broadcast use vstd::seq_lib::group_to_multiset_ensures;

    if a.len() == 0 {
        assert(a.to_multiset().len() == a.len());
        assert(b.to_multiset().len() == b.len());
        assert(b.len() == 0);
        assert(a.map_values(f) =~= Seq::<B>::empty());
        assert(b.map_values(f) =~= Seq::<B>::empty());
        assert(a.map_values(f).to_multiset() =~= b.map_values(f).to_multiset());
    } else {
        let x = a.last();
        assert(a.contains(x));
        assert(b.to_multiset().count(x) > 0);
        assert(b.contains(x));
        let i = choose|i: int| 0 <= i < b.len() && b[i] == x;
        let a2 = a.drop_last();
        let b2 = b.remove(i);
        assert(a =~= a2.push(x));
        assert(a.to_multiset() == a2.to_multiset().insert(x));
        assert(b2.to_multiset() == b.to_multiset().remove(x));
        assert(a2.to_multiset() =~= b2.to_multiset()) by {
            assert(a2.to_multiset() == a.to_multiset().remove(x)) by {
                assert(a2.push(x).to_multiset() == a2.to_multiset().insert(x));
            }
        }
        lemma_map_multiset(a2, b2, f);
        assert(a.map_values(f) =~= a2.map_values(f).push(f(x)));
        assert(b2.map_values(f) =~= b.map_values(f).remove(i));
        assert(a.map_values(f).to_multiset() == a2.map_values(f).to_multiset().insert(f(x)));
        assert(b2.map_values(f).to_multiset() == b.map_values(f).to_multiset().remove(f(x)))
            by {
            assert(b.map_values(f)[i] == f(x));
        }
        assert(b.map_values(f).to_multiset().count(f(x)) > 0) by {
            assert(b.map_values(f)[i] == f(x));
            assert(b.map_values(f).contains(f(x)));
        }
        assert(a.map_values(f).to_multiset() =~= b.map_values(f).to_multiset());
    }
}

/// Sort position-keyed pairs into document order. The result is a
/// permutation of the input (duplicate positions are all kept).
pub fn sort_by_pos<T>(input: Vec<(DocPos, T)>) -> (r: Vec<(DocPos, T)>)
    ensures
        r@.to_multiset() == input@.to_multiset(),
        r@.len() == input@.len(),
        sorted_pos(r@),
{
    broadcast use vstd::seq_lib::group_to_multiset_ensures;

    let ghost inp = input@;
    let mut rest = input;
    let mut out: Vec<(DocPos, T)> = Vec::new();
    while rest.len() > 0
        invariant
            out@.to_multiset().add(rest@.to_multiset()) == inp.to_multiset(),
            out@.len() + rest@.len() == inp.len(),
            sorted_pos(out@),
        decreases rest@.len(),
    {
        let ghost rest0 = rest@;
        let x = rest.remove(0);
        proof {
            broadcast use vstd::seq_lib::group_to_multiset_ensures;
            broadcast use vstd::multiset::group_multiset_axioms;

            assert(rest@ == rest0.remove(0));
            assert(rest0.remove(0).to_multiset() == rest0.to_multiset().remove(rest0[0]));
            assert(rest0.to_multiset().count(rest0[0]) > 0) by {
                assert(rest0.contains(rest0[0]));
            }
        }
        let mut idx: usize = 0;
        while idx < out.len() && pos_le(out[idx].0, x.0)
            invariant
                0 <= idx <= out@.len(),
                forall|i: int|
                    0 <= i < idx ==> !pos_lt(pos_of(x.0), pos_of(out@[i].0)),
            decreases out@.len() - idx,
        {
            idx += 1;
        }
        let ghost out0 = out@;
        let ghost past_end = idx >= out0.len();
        proof {
            broadcast use vstd::multiset::group_multiset_axioms;

            lemma_insert_to_multiset_local(out@, idx as int, x);
            assert(past_end || pos_lt(pos_of(x.0), pos_of(out0[idx as int].0)));
        }
        out.insert(idx, x);
        proof {
            assert(out@ == out0.insert(idx as int, x));
            assert forall|i: int, j: int| 0 <= i < j < out@.len() implies !pos_lt(
                pos_of(out@[j].0),
                pos_of(out@[i].0),
            ) by {
                if j < idx {
                    assert(out@[i] == out0[i] && out@[j] == out0[j]);
                } else if i < idx && j == idx {
                    assert(out@[i] == out0[i] && out@[j] == x);
                } else if i == idx && j > idx {
                    assert(out@[i] == x && out@[j] == out0[j - 1]);
                    assert(pos_lt(pos_of(x.0), pos_of(out0[idx as int].0)));
                    if pos_lt(pos_of(out0[j - 1].0), pos_of(x.0)) {
                        assert(!pos_lt(pos_of(out0[j - 1].0), pos_of(out0[idx as int].0)));
                    }
                } else if i < idx && j > idx {
                    assert(out@[i] == out0[i] && out@[j] == out0[j - 1]);
                } else if i > idx {
                    assert(out@[i] == out0[i - 1] && out@[j] == out0[j - 1]);
                }
            }
            assert(out@.to_multiset().add(rest@.to_multiset()) =~= inp.to_multiset());
        }
    }
    proof {
        broadcast use vstd::seq_lib::group_to_multiset_ensures;
        broadcast use vstd::multiset::group_multiset_axioms;

        assert(rest@.to_multiset().len() == 0);
        assert(out@.to_multiset() =~= inp.to_multiset());
    }
    out
}

} // verus!

verus! {

/// The image of position-keyed pairs under conversion to byte offsets.
pub open spec fn bpos_results<T>(s: Seq<char>, inp: Seq<(DocPos, T)>) -> Seq<(usize, T)> {
    inp.map_values(|q: (DocPos, T)| (bpos_of(s, q.0) as usize, q.1))
}

/// The image of offset-keyed pairs under conversion to document positions.
pub open spec fn docpos_results<T>(s: Seq<char>, inp: Seq<(usize, T)>) -> Seq<(DocPos, T)> {
    inp.map_values(
        |q: (usize, T)|
            (
                DocPos {
                    line: docpos_of(s, q.0 as int).0 as usize,
                    character: docpos_of(s, q.0 as int).1 as usize,
                },
                q.1,
            ),
    )
}

/// Converting a permutation of pairs gives a permutation of the conversions.
pub proof fn lemma_bpos_results_multiset<T>(s: Seq<char>, a: Seq<(DocPos, T)>, b: Seq<(DocPos, T)>)
    requires
        a.to_multiset() == b.to_multiset(),
    ensures
        bpos_results(s, a).to_multiset() == bpos_results(s, b).to_multiset(),
{
    let f = |q: (DocPos, T)| (bpos_of(s, q.0) as usize, q.1);
    assert(bpos_results(s, a) =~= a.map_values(f));
    assert(bpos_results(s, b) =~= b.map_values(f));
    lemma_map_multiset(a, b, f);
}

} // verus!

verus! {

/// Convert editor positions to UTF-8 byte offsets into `text`, carrying each
/// payload through. The result is sorted by offset and is exactly the image
/// of the input pairs (duplicates kept) under the conversion. Inputs must be
/// in bounds: each position names a character of `text`.
pub fn docpos2bpos<T>(input: Vec<(DocPos, T)>, text: &str) -> (r: Vec<(usize, T)>)
    requires
        no_cr(text@),
        input@.len() > 0,
        forall|i: int| 0 <= i < input@.len() ==> valid_pos(text@, (#[trigger] input@[i]).0),
    ensures
        r@.len() == input@.len(),
        r@.to_multiset() == bpos_results(text@, input@).to_multiset(),
        forall|i: int, j: int| 0 <= i < j < r@.len() ==> (#[trigger] r@[i]).0 <= (#[trigger] r@[j]).0,
{
    let ghost inp = input@;
    let mut rem = sort_by_pos(input);
    let ghost sos = rem@;
    proof {
        broadcast use vstd::seq_lib::group_to_multiset_ensures;
        broadcast use vstd::multiset::group_multiset_axioms;

        assert forall|idx: int| 0 <= idx < sos.len() implies valid_pos(
            text@,
            (#[trigger] sos[idx]).0,
        ) by {
            assert(sos.contains(sos[idx]));
            assert(sos.to_multiset().count(sos[idx]) > 0);
            assert(inp.contains(sos[idx]));
            let w = choose|w: int| 0 <= w < inp.len() && inp[w] == sos[idx];
            assert(valid_pos(text@, inp[w].0));
        }
    }
    let total = crate::chars::text_byte_len(text);
    let n = text.unicode_len();
    let mut out: Vec<(usize, T)> = Vec::new();
    let mut k: usize = 0;
    let mut line: usize = 0;
    let mut col: usize = 0;
    let mut boff: usize = 0;
    while k < n
        invariant
            n == text@.len(),
            total as int == boff_at(text@, n as int),
            k <= n,
            line as int == pos_at(text@, k as int).0,
            col as int == pos_at(text@, k as int).1,
            boff as int == boff_at(text@, k as int),
            sorted_pos(sos),
            forall|idx: int| 0 <= idx < sos.len() ==> valid_pos(text@, (#[trigger] sos[idx]).0),
            sos.len() == inp.len(),
            sos.to_multiset() == inp.to_multiset(),
            out@.len() + rem@.len() == sos.len(),
            rem@ =~= sos.subrange(out@.len() as int, sos.len() as int),
            out@ =~= bpos_results(text@, sos.take(out@.len() as int)),
            forall|idx: int|
                out@.len() <= idx < sos.len() ==> !pos_lt(
                    pos_of((#[trigger] sos[idx]).0),
                    pos_at(text@, k as int),
                ),
            forall|i: int| 0 <= i < out@.len() ==> (#[trigger] out@[i]).0 <= boff,
            forall|i: int, j: int|
                0 <= i < j < out@.len() ==> (#[trigger] out@[i]).0 <= (#[trigger] out@[j]).0,
        decreases n - k,
    {
        while rem.len() > 0 && rem[0].0.line == line && rem[0].0.character == col
            invariant
                n == text@.len(),
                k < n,
                line as int == pos_at(text@, k as int).0,
                col as int == pos_at(text@, k as int).1,
                boff as int == boff_at(text@, k as int),
                sorted_pos(sos),
                forall|idx: int| 0 <= idx < sos.len() ==> valid_pos(text@, (#[trigger] sos[idx]).0),
                sos.len() == inp.len(),
                out@.len() + rem@.len() == sos.len(),
                rem@ =~= sos.subrange(out@.len() as int, sos.len() as int),
                out@ =~= bpos_results(text@, sos.take(out@.len() as int)),
                forall|idx: int|
                    out@.len() <= idx < sos.len() ==> !pos_lt(
                        pos_of((#[trigger] sos[idx]).0),
                        pos_at(text@, k as int),
                    ),
                forall|i: int| 0 <= i < out@.len() ==> (#[trigger] out@[i]).0 <= boff,
                forall|i: int, j: int|
                    0 <= i < j < out@.len() ==> (#[trigger] out@[i]).0 <= (#[trigger] out@[j]).0,
            decreases rem@.len(),
        {
            let ghost j = out@.len() as int;
            let ghost out0 = out@;
            proof {
                assert(rem@[0] == sos[j]);
                assert(pos_of(sos[j].0) == pos_at(text@, k as int));
                assert(valid_pos(text@, sos[j].0));
                let kc = idx_of_pos(text@, sos[j].0);
                assert(pos_at(text@, kc) == pos_of(sos[j].0));
                lemma_pos_injective(text@, kc, k as int);
                assert(bpos_of(text@, sos[j].0) == boff as int);
            }
            let pt = rem.remove(0);
            out.push((boff, pt.1));
            proof {
                assert(pt == sos[j]);
                assert(out@ =~= out0.push((boff, pt.1)));
                assert(sos.take(j + 1) =~= sos.take(j).push(sos[j]));
                assert(out@ =~= bpos_results(text@, sos.take(j + 1))) by {
                    assert forall|i: int| 0 <= i < out@.len() implies out@[i] == bpos_results(
                        text@,
                        sos.take(j + 1),
                    )[i] by {
                        if i < j {
                            assert(out@[i] == out0[i]);
                            assert(sos.take(j + 1)[i] == sos.take(j)[i]);
                        } else {
                            assert(out@[i] == (boff, pt.1));
                            assert(sos.take(j + 1)[i] == sos[j]);
                        }
                    }
                }
                assert(rem@ =~= sos.subrange(j + 1, sos.len() as int));
                assert forall|idx: int|
                    out@.len() <= idx < sos.len() implies !pos_lt(
                    pos_of((#[trigger] sos[idx]).0),
                    pos_at(text@, k as int),
                ) by {
                    assert(!pos_lt(pos_of(sos[idx].0), pos_of(sos[j].0)));
                }
            }
        }
        let ghost j = out@.len() as int;
        let c = text.get_char(k);
        proof {
            lemma_pos_le_boff(text@, k as int + 1);
            lemma_pos_nonneg(text@, k as int);
            crate::chars::lemma_boff_nonneg(text@, k as int);
            crate::chars::lemma_boff_mono(text@, k as int + 1, n as int);
            crate::chars::lemma_u16len_le_u8len(c);
            // the remaining positions move strictly past the scan point
            assert forall|idx: int| j <= idx < sos.len() implies !pos_lt(
                pos_of((#[trigger] sos[idx]).0),
                pos_at(text@, k as int + 1),
            ) by {
                let p = sos[idx].0;
                assert(valid_pos(text@, p));
                let kw = choose|kw: int|
                    0 <= kw < text@.len() && text@[kw] != '\n' && pos_at(text@, kw) == pos_of(p);
                if kw < k as int {
                    lemma_pos_strict(text@, kw, k as int);
                    assert(false);
                } else if kw == k as int {
                    // the head did not match, so nothing remaining sits at the scan point
                    assert(pos_of(sos[j].0) != pos_at(text@, k as int) || rem@.len() == 0);
                    assert(rem@.len() > 0);
                    assert(!pos_lt(pos_of(sos[idx].0), pos_of(sos[j].0)));
                    if idx > j {
                        assert(!pos_lt(pos_of(sos[idx].0), pos_of(sos[j].0)));
                        assert(pos_of(sos[idx].0) == pos_at(text@, k as int));
                        assert(!pos_lt(pos_at(text@, k as int), pos_of(sos[j].0)));
                        assert(!pos_lt(pos_of(sos[j].0), pos_at(text@, k as int)));
                        assert(pos_of(sos[j].0) == pos_at(text@, k as int));
                        assert(false);
                    } else {
                        assert(false);
                    }
                } else {
                    if kw > k as int + 1 {
                        lemma_pos_strict(text@, k as int + 1, kw);
                    }
                }
            }
        }
        if c == '\n' {
            line = line + 1;
            col = 0;
        } else {
            col = col + utf16_len(c);
        }
        boff = boff + utf8_len(c);
        k = k + 1;
    }
    proof {
        let j = out@.len() as int;
        if j < sos.len() {
            let p = sos[j].0;
            assert(valid_pos(text@, p));
            let kw = choose|kw: int|
                0 <= kw < text@.len() && text@[kw] != '\n' && pos_at(text@, kw) == pos_of(p);
            lemma_pos_strict(text@, kw, n as int);
            assert(false);
        }
        assert(sos.take(sos.len() as int) =~= sos);
        assert(out@ =~= bpos_results(text@, sos));
        lemma_bpos_results_multiset(text@, sos, inp);
    }
    out
}

} // verus!

verus! {

/// Non-decreasing order of a sequence of byte offsets (with payloads).
pub open spec fn sorted_off<T>(s: Seq<(usize, T)>) -> bool {
    forall|i: int, j: int| 0 <= i < j < s.len() ==> (#[trigger] s[i]).0 <= (#[trigger] s[j]).0
}

/// Sort offset-keyed pairs into ascending order; a permutation of the input.
pub fn sort_by_off<T>(input: Vec<(usize, T)>) -> (r: Vec<(usize, T)>)
    ensures
        r@.to_multiset() == input@.to_multiset(),
        r@.len() == input@.len(),
        sorted_off(r@),
{
    broadcast use vstd::seq_lib::group_to_multiset_ensures;

    let ghost inp = input@;
    let mut rest = input;
    let mut out: Vec<(usize, T)> = Vec::new();
    while rest.len() > 0
        invariant
            out@.to_multiset().add(rest@.to_multiset()) == inp.to_multiset(),
            out@.len() + rest@.len() == inp.len(),
            sorted_off(out@),
        decreases rest@.len(),
    {
        let ghost rest0 = rest@;
        let x = rest.remove(0);
        proof {
            broadcast use vstd::seq_lib::group_to_multiset_ensures;
            broadcast use vstd::multiset::group_multiset_axioms;

            assert(rest@ == rest0.remove(0));
            assert(rest0.remove(0).to_multiset() == rest0.to_multiset().remove(rest0[0]));
            assert(rest0.to_multiset().count(rest0[0]) > 0) by {
                assert(rest0.contains(rest0[0]));
            }
        }
        let mut idx: usize = 0;
        while idx < out.len() && out[idx].0 <= x.0
            invariant
                idx <= out@.len(),
                forall|i: int| 0 <= i < idx ==> (#[trigger] out@[i]).0 <= x.0,
            decreases out@.len() - idx,
        {
            idx += 1;
        }
        let ghost out0 = out@;
        proof {
            broadcast use vstd::multiset::group_multiset_axioms;

            lemma_insert_to_multiset_local(out@, idx as int, x);
            assert(idx as int >= out0.len() || x.0 < out0[idx as int].0);
        }
        out.insert(idx, x);
        proof {
            broadcast use vstd::multiset::group_multiset_axioms;

            assert(out@ == out0.insert(idx as int, x));
            assert forall|i: int, j: int| 0 <= i < j < out@.len() implies (#[trigger] out@[i]).0
                <= (#[trigger] out@[j]).0 by {
                if j < idx {
                    assert(out@[i] == out0[i] && out@[j] == out0[j]);
                } else if i < idx && j == idx {
                    assert(out@[i] == out0[i] && out@[j] == x);
                } else if i == idx && j > idx {
                    assert(out@[i] == x && out@[j] == out0[j - 1]);
                    assert(x.0 < out0[idx as int].0);
                } else if i < idx && j > idx {
                    assert(out@[i] == out0[i] && out@[j] == out0[j - 1]);
                } else if i > idx {
                    assert(out@[i] == out0[i - 1] && out@[j] == out0[j - 1]);
                }
            }
            assert(out@.to_multiset().add(rest@.to_multiset()) =~= inp.to_multiset());
        }
    }
    proof {
        broadcast use vstd::seq_lib::group_to_multiset_ensures;
        broadcast use vstd::multiset::group_multiset_axioms;

        assert(rest@.to_multiset().len() == 0);
        assert(out@.to_multiset() =~= inp.to_multiset());
    }
    out
}

/// Converting a permutation of offset pairs gives a permutation of the
/// converted positions.
pub proof fn lemma_docpos_results_multiset<T>(
    s: Seq<char>,
    a: Seq<(usize, T)>,
    b: Seq<(usize, T)>,
)
    requires
        a.to_multiset() == b.to_multiset(),
    ensures
        docpos_results(s, a).to_multiset() == docpos_results(s, b).to_multiset(),
{
    let f = |q: (usize, T)|
        (
            DocPos {
                line: docpos_of(s, q.0 as int).0 as usize,
                character: docpos_of(s, q.0 as int).1 as usize,
            },
            q.1,
        );
    assert(docpos_results(s, a) =~= a.map_values(f));
    assert(docpos_results(s, b) =~= b.map_values(f));
    lemma_map_multiset(a, b, f);
}

/// Convert UTF-8 byte offsets into `text` to editor positions, carrying each
/// payload through. The result is sorted by position and is exactly the image
/// of the input pairs under the conversion. Inputs must be in bounds: each
/// offset is a character boundary of `text` (its total byte length counts as
/// one).
pub fn bpos2docpos<T>(input: Vec<(usize, T)>, text: &str) -> (r: Vec<(DocPos, T)>)
    requires
        no_cr(text@),
        input@.len() > 0,
        forall|i: int| 0 <= i < input@.len() ==> valid_off(text@, (#[trigger] input@[i]).0 as int),
    ensures
        r@.len() == input@.len(),
        r@.to_multiset() == docpos_results(text@, input@).to_multiset(),
        forall|i: int, j: int|
            0 <= i < j < r@.len() ==> !pos_lt(pos_of((#[trigger] r@[j]).0), pos_of((#[trigger] r@[i]).0)),
{
    let ghost inp = input@;
    let mut rem = sort_by_off(input);
    let ghost sos = rem@;
    proof {
        broadcast use vstd::seq_lib::group_to_multiset_ensures;
        broadcast use vstd::multiset::group_multiset_axioms;

        assert forall|idx: int| 0 <= idx < sos.len() implies valid_off(
            text@,
            (#[trigger] sos[idx]).0 as int,
        ) by {
            assert(sos.contains(sos[idx]));
            assert(sos.to_multiset().count(sos[idx]) > 0);
            assert(inp.contains(sos[idx]));
            let w = choose|w: int| 0 <= w < inp.len() && inp[w] == sos[idx];
            assert(valid_off(text@, inp[w].0 as int));
        }
    }
    let total = crate::chars::text_byte_len(text);
    let n = text.unicode_len();
    let mut out: Vec<(DocPos, T)> = Vec::new();
    let mut k: usize = 0;
    let mut line: usize = 0;
    let mut col: usize = 0;
    let mut boff: usize = 0;
    while k < n
        invariant
            n == text@.len(),
            total as int == boff_at(text@, n as int),
            k <= n,
            line as int == pos_at(text@, k as int).0,
            col as int == pos_at(text@, k as int).1,
            boff as int == boff_at(text@, k as int),
            sorted_off(sos),
            forall|idx: int| 0 <= idx < sos.len() ==> valid_off(text@, (#[trigger] sos[idx]).0 as int),
            sos.len() == inp.len(),
            sos.to_multiset() == inp.to_multiset(),
            out@.len() + rem@.len() == sos.len(),
            rem@ =~= sos.subrange(out@.len() as int, sos.len() as int),
            out@ =~= docpos_results(text@, sos.take(out@.len() as int)),
            forall|idx: int|
                out@.len() <= idx < sos.len() ==> (#[trigger] sos[idx]).0 >= boff,
            forall|i: int|
                0 <= i < out@.len() ==> !pos_lt(
                    pos_at(text@, k as int),
                    pos_of((#[trigger] out@[i]).0),
                ),
            forall|i: int, j: int|
                0 <= i < j < out@.len() ==> !pos_lt(
                    pos_of((#[trigger] out@[j]).0),
                    pos_of((#[trigger] out@[i]).0),
                ),
        decreases n - k,
    {
        while rem.len() > 0 && rem[0].0 == boff
            invariant
                n == text@.len(),
                k < n,
                line as int == pos_at(text@, k as int).0,
                col as int == pos_at(text@, k as int).1,
                boff as int == boff_at(text@, k as int),
                sorted_off(sos),
                forall|idx: int|
                    0 <= idx < sos.len() ==> valid_off(text@, (#[trigger] sos[idx]).0 as int),
                sos.len() == inp.len(),
                out@.len() + rem@.len() == sos.len(),
                rem@ =~= sos.subrange(out@.len() as int, sos.len() as int),
                out@ =~= docpos_results(text@, sos.take(out@.len() as int)),
                forall|idx: int|
                    out@.len() <= idx < sos.len() ==> (#[trigger] sos[idx]).0 >= boff,
                forall|i: int|
                    0 <= i < out@.len() ==> !pos_lt(
                        pos_at(text@, k as int),
                        pos_of((#[trigger] out@[i]).0),
                    ),
                forall|i: int, j: int|
                    0 <= i < j < out@.len() ==> !pos_lt(
                        pos_of((#[trigger] out@[j]).0),
                        pos_of((#[trigger] out@[i]).0),
                    ),
            decreases rem@.len(),
        {
            let ghost j = out@.len() as int;
            let ghost out0 = out@;
            proof {
                assert(rem@[0] == sos[j]);
                assert(sos[j].0 as int == boff_at(text@, k as int));
                let kc = idx_of_off(text@, sos[j].0 as int);
                assert(boff_at(text@, kc) == sos[j].0 as int);
                lemma_boff_injective(text@, kc, k as int);
                assert(docpos_of(text@, sos[j].0 as int) == pos_at(text@, k as int));
            }
            let pt = rem.remove(0);
            out.push((DocPos { line, character: col }, pt.1));
            proof {
                assert(pt == sos[j]);
                assert(out@ =~= out0.push((DocPos { line, character: col }, pt.1)));
                assert(sos.take(j + 1) =~= sos.take(j).push(sos[j]));
                assert(out@ =~= docpos_results(text@, sos.take(j + 1))) by {
                    assert forall|i: int| 0 <= i < out@.len() implies out@[i] == docpos_results(
                        text@,
                        sos.take(j + 1),
                    )[i] by {
                        if i < j {
                            assert(out@[i] == out0[i]);
                            assert(sos.take(j + 1)[i] == sos.take(j)[i]);
                        } else {
                            assert(sos.take(j + 1)[i] == sos[j]);
                        }
                    }
                }
                assert(rem@ =~= sos.subrange(j + 1, sos.len() as int));
            }
        }
        let ghost j = out@.len() as int;
        let c = text.get_char(k);
        proof {
            lemma_pos_le_boff(text@, k as int + 1);
            lemma_pos_nonneg(text@, k as int);
            crate::chars::lemma_boff_nonneg(text@, k as int);
            crate::chars::lemma_boff_mono(text@, k as int + 1, n as int);
            crate::chars::lemma_u16len_le_u8len(c);
            lemma_pos_strict(text@, k as int, k as int + 1);
            // remaining offsets move strictly past the scan point
            assert forall|idx: int| j <= idx < sos.len() implies (#[trigger] sos[idx]).0 as int
                >= boff_at(text@, k as int + 1) by {
                let o = sos[idx].0 as int;
                assert(valid_off(text@, o));
                let kw = choose|kw: int| 0 <= kw <= text@.len() && boff_at(text@, kw) == o;
                if o == boff as int {
                    assert(rem@.len() > 0);
                    assert(sos[j].0 <= sos[idx].0);
                    assert(sos[j].0 >= boff);
                    assert(sos[j].0 != boff);
                    assert(false);
                } else {
                    if kw <= k as int {
                        crate::chars::lemma_boff_mono(text@, kw, k as int);
                        assert(false);
                    }
                    crate::chars::lemma_boff_mono(text@, k as int + 1, kw);
                }
            }
            // earlier outputs stay before the new scan point
            assert forall|i: int| 0 <= i < out@.len() implies !pos_lt(
                pos_at(text@, k as int + 1),
                pos_of((#[trigger] out@[i]).0),
            ) by {
                assert(!pos_lt(pos_at(text@, k as int), pos_of(out@[i].0)));
            }
        }
        if c == '\n' {
            line = line + 1;
            col = 0;
        } else {
            col = col + utf16_len(c);
        }
        boff = boff + utf8_len(c);
        k = k + 1;
    }
    // offsets equal to the text's byte length name its very end
    while rem.len() > 0
        invariant
            n == text@.len(),
            total as int == boff_at(text@, n as int),
            k == n,
            line as int == pos_at(text@, n as int).0,
            col as int == pos_at(text@, n as int).1,
            boff as int == boff_at(text@, n as int),
            sorted_off(sos),
            forall|idx: int| 0 <= idx < sos.len() ==> valid_off(text@, (#[trigger] sos[idx]).0 as int),
            sos.len() == inp.len(),
            out@.len() + rem@.len() == sos.len(),
            rem@ =~= sos.subrange(out@.len() as int, sos.len() as int),
            out@ =~= docpos_results(text@, sos.take(out@.len() as int)),
            forall|idx: int|
                out@.len() <= idx < sos.len() ==> (#[trigger] sos[idx]).0 >= boff,
            forall|i: int|
                0 <= i < out@.len() ==> !pos_lt(
                    pos_at(text@, n as int),
                    pos_of((#[trigger] out@[i]).0),
                ),
            forall|i: int, j: int|
                0 <= i < j < out@.len() ==> !pos_lt(
                    pos_of((#[trigger] out@[j]).0),
                    pos_of((#[trigger] out@[i]).0),
                ),
        decreases rem@.len(),
    {
        let ghost j = out@.len() as int;
        let ghost out0 = out@;
        proof {
            assert(rem@[0] == sos[j]);
            let o = sos[j].0 as int;
            let kw = choose|kw: int| 0 <= kw <= text@.len() && boff_at(text@, kw) == o;
            assert(boff_at(text@, kw) == o);
            if kw < n as int {
                crate::chars::lemma_boff_strict(text@, kw, n as int);
            }
            assert(o <= boff_at(text@, n as int));
            assert(o == boff as int);
            let kc = idx_of_off(text@, o);
            lemma_boff_injective(text@, kc, n as int);
            assert(docpos_of(text@, o) == pos_at(text@, n as int));
        }
        let pt = rem.remove(0);
        out.push((DocPos { line, character: col }, pt.1));
        proof {
            assert(pt == sos[j]);
            assert(sos.take(j + 1) =~= sos.take(j).push(sos[j]));
            assert(out@ =~= docpos_results(text@, sos.take(j + 1))) by {
                assert forall|i: int| 0 <= i < out@.len() implies out@[i] == docpos_results(
                    text@,
                    sos.take(j + 1),
                )[i] by {
                    if i < j {
                        assert(out@[i] == out0[i]);
                        assert(sos.take(j + 1)[i] == sos.take(j)[i]);
                    } else {
                        assert(sos.take(j + 1)[i] == sos[j]);
                    }
                }
            }
            assert(rem@ =~= sos.subrange(j + 1, sos.len() as int));
        }
    }
    proof {
        assert(sos.take(sos.len() as int) =~= sos);
        assert(out@ =~= docpos_results(text@, sos));
        lemma_docpos_results_multiset(text@, sos, inp);
    }
    out
}

} // verus!

verus! {

/// The codec round trip at the sequence level: converting in-bounds positions
/// to byte offsets and the offsets back to positions recovers every pair,
/// payloads included. (The text's byte length must fit the machine word, as
/// it does for every real text.)
pub proof fn lemma_codec_roundtrip_seq<T>(s: Seq<char>, inp: Seq<(DocPos, T)>)
    requires
        forall|i: int| 0 <= i < inp.len() ==> valid_pos(s, (#[trigger] inp[i]).0),
        boff_at(s, s.len() as int) <= usize::MAX,
    ensures
        docpos_results(s, bpos_results(s, inp)) =~= inp,
{
    assert forall|i: int| 0 <= i < inp.len() implies docpos_results(s, bpos_results(s, inp))[i]
        == inp[i] by {
        let p = inp[i].0;
        let k = idx_of_pos(s, p);
        assert(0 <= k < s.len() && boff_at(s, k) == bpos_of(s, p));
        crate::chars::lemma_boff_nonneg(s, k);
        crate::chars::lemma_boff_mono(s, k, s.len() as int);
        assert(0 <= bpos_of(s, p) <= usize::MAX);
        let off = bpos_of(s, p) as usize;
        assert(off as int == bpos_of(s, p));
        lemma_docpos_roundtrip(s, p);
        lemma_pos_nonneg(s, idx_of_off(s, off as int));
        assert(bpos_results(s, inp)[i] == (off, inp[i].1));
        assert(docpos_results(s, bpos_results(s, inp))[i] == (
            DocPos {
                line: docpos_of(s, off as int).0 as usize,
                character: docpos_of(s, off as int).1 as usize,
            },
            inp[i].1,
        ));
        assert(docpos_of(s, off as int) == pos_of(p));
    }
}

} // verus!
