//! Semantic tokens: classified source regions, their splitting into
//! single-line fragments, and transcoding into absolute editor positions with
//! UTF-16 lengths.
use vstd::prelude::*;
use vstd::string::StrSliceExecFns;

use crate::chars::{boff_at, text_byte_len, utf16_len, utf8_len};
use crate::docpos::{
    docpos_of, idx_of_off, lemma_boff_injective, lemma_map_multiset, lemma_pos_le_boff,
    lemma_pos_nonneg, pos_at, pos_lt, pos_of, sort_by_pos, valid_off, DocPos,
};

verus! {

/// The classification of a source region, one of the entries of the token
/// legend sent to the editor.
#[derive(Clone, Copy, Debug, PartialEq, Eq, Hash, Structural)]
pub enum TokenType {
    Namespace,
    Variable,
    Parameter,
    Function,
    Macro,
    Comment,
    Operator,
    Str,
    Number,
    Keyword,
}

/// The ordered token legend, as sequences of characters.
pub open spec fn legend_seq() -> Seq<Seq<char>> {
    seq![
        "namespace"@,
        "variable"@,
        "parameter"@,
        "function"@,
        "macro"@,
        "comment"@,
        "operator"@,
        "string"@,
        "number"@,
        "keyword"@,
    ]
}

/// Index of a token type in the legend.
pub open spec fn legend_index_of(t: TokenType) -> int {
    match t {
        TokenType::Namespace => 0,
        TokenType::Variable => 1,
        TokenType::Parameter => 2,
        TokenType::Function => 3,
        TokenType::Macro => 4,
        TokenType::Comment => 5,
        TokenType::Operator => 6,
        TokenType::Str => 7,
        TokenType::Number => 8,
        TokenType::Keyword => 9,
    }
}

/// The ordered legend of token type names sent to the editor.
pub fn ttypes() -> (r: Vec<String>)
    ensures
        r@.len() == legend_seq().len(),
        forall|i: int| 0 <= i < r@.len() ==> (#[trigger] r@[i])@ == legend_seq()[i],
{
    let mut r: Vec<String> = Vec::new();
    r.push("namespace".to_owned());
    r.push("variable".to_owned());
    r.push("parameter".to_owned());
    r.push("function".to_owned());
    r.push("macro".to_owned());
    r.push("comment".to_owned());
    r.push("operator".to_owned());
    r.push("string".to_owned());
    r.push("number".to_owned());
    r.push("keyword".to_owned());
    proof {
        assert forall|i: int| 0 <= i < r@.len() implies (#[trigger] r@[i])@ == legend_seq()[i] by {
        }
    }
    r
}

/// Position of a token type in the legend.
pub fn legend_index(t: TokenType) -> (r: usize)
    ensures
        r == legend_index_of(t),
        r < legend_seq().len(),
{
    match t {
        TokenType::Namespace => 0,
        TokenType::Variable => 1,
        TokenType::Parameter => 2,
        TokenType::Function => 3,
        TokenType::Macro => 4,
        TokenType::Comment => 5,
        TokenType::Operator => 6,
        TokenType::Str => 7,
        TokenType::Number => 8,
        TokenType::Keyword => 9,
    }
}

/// One semantically classified source region: a byte range into a source text
/// and its classification.
#[derive(Clone, Copy, Debug, PartialEq, Eq, Hash, Structural)]
pub struct SemToken {
    pub start: usize,
    pub end: usize,
    pub typ: TokenType,
}

/// A token is well formed for a text when both ends are character boundaries
/// of the text, in order.
pub open spec fn tok_wf(s: Seq<char>, t: SemToken) -> bool {
    &&& valid_off(s, t.start as int)
    &&& valid_off(s, t.end as int)
    &&& idx_of_off(s, t.start as int) <= idx_of_off(s, t.end as int)
}

impl SemToken {
    pub fn new(start: usize, end: usize, typ: TokenType) -> (r: SemToken)
        requires
            start <= end,
        ensures
            r == (SemToken { start, end, typ }),
    {
        SemToken { start, end, typ }
    }

    pub fn typ(&self) -> (r: TokenType)
        ensures
            r == self.typ,
    {
        self.typ
    }

    pub fn start(&self) -> (r: usize)
        ensures
            r == self.start,
    {
        self.start
    }

    pub fn end(&self) -> (r: usize)
        ensures
            r == self.end,
    {
        self.end
    }
}

/// The per-line sub-ranges of the char range `[i, j)`: maximal stretches
/// free of line breaks, the breaks themselves excluded and empty stretches
/// dropped.
pub open spec fn split_ranges(s: Seq<char>, i: int, j: int) -> Seq<(int, int)>
    decreases j - i,
{
    if i >= j {
        Seq::empty()
    } else if s[i] == '\n' {
        split_ranges(s, i + 1, j)
    } else {
        let rest = split_ranges(s, i + 1, j);
        if rest.len() > 0 && rest[0].0 == i + 1 {
            seq![(i, rest[0].1)] + rest.drop_first()
        } else {
            seq![(i, i + 1)] + rest
        }
    }
}

/// A sub-range sits inside `[lo, hi)`, is not empty, and holds no line break.
pub open spec fn piece_range_ok(s: Seq<char>, lo: int, hi: int, r: (int, int)) -> bool {
    &&& lo <= r.0 < r.1 <= hi
    &&& forall|m: int| r.0 <= m < r.1 ==> s[m] != '\n'
}

pub proof fn lemma_split_props(s: Seq<char>, i: int, j: int)
    requires
        i <= j,
    ensures
        forall|idx: int|
            0 <= idx < split_ranges(s, i, j).len() ==> piece_range_ok(
                s,
                i,
                j,
                #[trigger] split_ranges(s, i, j)[idx],
            ),
    decreases j - i,
{
    if i < j {
        lemma_split_props(s, i + 1, j);
        let rest = split_ranges(s, i + 1, j);
        if s[i] == '\n' {
        } else if rest.len() > 0 && rest[0].0 == i + 1 {
            assert forall|idx: int| 0 <= idx < split_ranges(s, i, j).len() implies piece_range_ok(
                s,
                i,
                j,
                #[trigger] split_ranges(s, i, j)[idx],
            ) by {
                if idx == 0 {
                    assert(split_ranges(s, i, j)[0] == (i, rest[0].1));
                    assert(piece_range_ok(s, i + 1, j, rest[0]));
                } else {
                    assert(split_ranges(s, i, j)[idx] == rest.drop_first()[idx - 1]);
                    assert(rest.drop_first()[idx - 1] == rest[idx]);
                    assert(piece_range_ok(s, i + 1, j, rest[idx]));
                }
            }
        } else {
            assert forall|idx: int| 0 <= idx < split_ranges(s, i, j).len() implies piece_range_ok(
                s,
                i,
                j,
                #[trigger] split_ranges(s, i, j)[idx],
            ) by {
                if idx == 0 {
                    assert(split_ranges(s, i, j)[0] == (i, i + 1));
                } else {
                    assert(split_ranges(s, i, j)[idx] == rest[idx - 1]);
                    assert(piece_range_ok(s, i + 1, j, rest[idx - 1]));
                }
            }
        }
    }
}

/// Unfolding of `split_ranges` at a line break: everything before the first
/// break is one piece (unless empty), the rest starts after the break.
pub proof fn lemma_split_unfold(s: Seq<char>, a: int, e: int, j: int)
    requires
        a <= e < j,
        s[e] == '\n',
        forall|m: int| a <= m < e ==> s[m] != '\n',
    ensures
        e > a ==> split_ranges(s, a, j) == seq![(a, e)] + split_ranges(s, e + 1, j),
        e == a ==> split_ranges(s, a, j) == split_ranges(s, e + 1, j),
    decreases e - a,
{
    if a < e {
        lemma_split_unfold(s, a + 1, e, j);
        lemma_split_props(s, e + 1, j);
        let rest = split_ranges(s, a + 1, j);
        if e == a + 1 {
            assert(rest == split_ranges(s, e + 1, j));
            if rest.len() > 0 {
                assert(piece_range_ok(s, e + 1, j, rest[0]));
                assert(rest[0].0 != a + 1);
            }
            assert(split_ranges(s, a, j) == seq![(a, a + 1)] + rest);
        } else {
            assert(rest == seq![(a + 1, e)] + split_ranges(s, e + 1, j));
            assert(rest[0] == (a + 1, e));
            assert(rest.len() > 0 && rest[0].0 == a + 1);
            assert(split_ranges(s, a, j) == seq![(a, e)] + rest.drop_first());
            assert(rest.drop_first() =~= split_ranges(s, e + 1, j));
        }
    }
}

/// `split_ranges` on a break-free range: the whole range is the only piece,
/// unless it is empty.
pub proof fn lemma_split_last(s: Seq<char>, a: int, j: int)
    requires
        a <= j,
        forall|m: int| a <= m < j ==> s[m] != '\n',
    ensures
        j > a ==> split_ranges(s, a, j) == seq![(a, j)],
        j == a ==> split_ranges(s, a, j) == Seq::<(int, int)>::empty(),
    decreases j - a,
{
    if a < j {
        lemma_split_last(s, a + 1, j);
        let rest = split_ranges(s, a + 1, j);
        if j == a + 1 {
            assert(split_ranges(s, a, j) == seq![(a, a + 1)] + rest);
            assert(split_ranges(s, a, j) =~= seq![(a, j)]);
        } else {
            assert(rest == seq![(a + 1, j)]);
            assert(split_ranges(s, a, j) == seq![(a, j)] + rest.drop_first());
            assert(split_ranges(s, a, j) =~= seq![(a, j)]);
        }
    }
}

/// The single-line fragments a token splits into, as tokens over byte
/// offsets.
pub open spec fn token_pieces(s: Seq<char>, t: SemToken) -> Seq<SemToken> {
    split_ranges(s, idx_of_off(s, t.start as int), idx_of_off(s, t.end as int)).map_values(
        |r: (int, int)|
            SemToken { start: boff_at(s, r.0) as usize, end: boff_at(s, r.1) as usize, typ: t.typ },
    )
}

impl SemToken {
    /// Replace this token by its single-line fragments: one token per line it
    /// crosses, the line breaks themselves excluded, empty fragments dropped.
    pub fn split(self, text: &str) -> (r: Vec<SemToken>)
        requires
            tok_wf(text@, self),
        ensures
            r@ =~= token_pieces(text@, self),
    {
        let ghost s = text@;
        let ghost ca = idx_of_off(s, self.start as int);
        let ghost cb = idx_of_off(s, self.end as int);
        proof {
            assert(valid_off(s, self.start as int));
            assert(valid_off(s, self.end as int));
            assert(0 <= ca <= s.len() && boff_at(s, ca) == self.start as int);
            assert(0 <= cb <= s.len() && boff_at(s, cb) == self.end as int);
            crate::chars::lemma_boff_nonneg(s, ca);
            crate::chars::lemma_boff_mono(s, 0, ca);
        }
        let total = text_byte_len(text);
        let n = text.unicode_len();
        let mut k: usize = 0;
        let mut boff: usize = 0;
        while boff != self.start
            invariant
                s == text@,
                n == s.len(),
                total as int == boff_at(s, n as int),
                boff as int == boff_at(s, k as int),
                k <= ca,
                0 <= ca <= n,
                boff_at(s, ca) == self.start as int,
            decreases ca - k,
        {
            proof {
                if k as int == ca {
                    assert(false);
                }
                assert(k < ca);
                crate::chars::lemma_boff_mono(s, k as int + 1, n as int);
                crate::chars::lemma_boff_nonneg(s, k as int);
            }
            let c = text.get_char(k);
            proof {
                crate::chars::lemma_u16len_le_u8len(c);
            }
            boff = boff + utf8_len(c);
            k = k + 1;
        }
        proof {
            lemma_boff_injective(s, k as int, ca);
            assert(k as int == ca);
        }
        let mut out: Vec<SemToken> = Vec::new();
        let mut seg_k: usize = k;
        let mut seg_b: usize = boff;
        while boff != self.end
            invariant
                s == text@,
                n == s.len(),
                total as int == boff_at(s, n as int),
                boff as int == boff_at(s, k as int),
                seg_b as int == boff_at(s, seg_k as int),
                ca <= seg_k <= k <= cb,
                0 <= ca,
                cb <= n,
                boff_at(s, cb) == self.end as int,
                forall|m: int| seg_k <= m < k ==> s[m] != '\n',
                token_pieces(s, self) =~= out@ + split_ranges(s, seg_k as int, cb).map_values(
                    |r: (int, int)|
                        SemToken {
                            start: boff_at(s, r.0) as usize,
                            end: boff_at(s, r.1) as usize,
                            typ: self.typ,
                        },
                ),
            decreases cb - k,
        {
            proof {
                if k as int == cb {
                    assert(boff as int == self.end as int);
                    assert(false);
                }
                assert(k < cb);
                crate::chars::lemma_boff_mono(s, k as int + 1, n as int);
                crate::chars::lemma_boff_nonneg(s, k as int);
            }
            let c = text.get_char(k);
            proof {
                crate::chars::lemma_u16len_le_u8len(c);
            }
            if c == '\n' {
                let ghost pieces_left = split_ranges(s, seg_k as int, cb);
                proof {
                    lemma_split_unfold(s, seg_k as int, k as int, cb);
                }
                if seg_b < boff {
                    proof {
                        if seg_k as int == k as int {
                            assert(false);
                        }
                        assert(seg_k < k);
                        assert(pieces_left =~= seq![(seg_k as int, k as int)] + split_ranges(
                            s,
                            k as int + 1,
                            cb,
                        ));
                    }
                    let ghost out0 = out@;
                    out.push(SemToken { start: seg_b, end: boff, typ: self.typ });
                    proof {
                        let f = |r: (int, int)|
                            SemToken {
                                start: boff_at(s, r.0) as usize,
                                end: boff_at(s, r.1) as usize,
                                typ: self.typ,
                            };
                        assert(token_pieces(s, self) =~= out@ + split_ranges(
                            s,
                            k as int + 1,
                            cb,
                        ).map_values(f)) by {
                            assert(pieces_left.map_values(f) =~= seq![
                                SemToken { start: seg_b, end: boff, typ: self.typ },
                            ] + split_ranges(s, k as int + 1, cb).map_values(f));
                            assert(token_pieces(s, self) =~= out0 + pieces_left.map_values(f));
                        }
                    }
                } else {
                    proof {
                        crate::chars::lemma_boff_mono(s, seg_k as int, k as int);
                        if seg_k < k {
                            crate::chars::lemma_boff_strict(s, seg_k as int, k as int);
                        }
                        assert(seg_k as int == k as int);
                        assert(split_ranges(s, seg_k as int, cb) =~= split_ranges(
                            s,
                            k as int + 1,
                            cb,
                        ));
                    }
                }
                seg_k = k + 1;
                seg_b = boff + 1;
            }
            boff = boff + utf8_len(c);
            k = k + 1;
        }
        proof {
            lemma_boff_injective(s, k as int, cb);
            assert(k as int == cb);
            lemma_split_last(s, seg_k as int, cb);
        }
        if seg_b < boff {
            proof {
                if seg_k as int == k as int {
                    assert(false);
                }
            }
            out.push(SemToken { start: seg_b, end: boff, typ: self.typ });
        } else {
            proof {
                crate::chars::lemma_boff_mono(s, seg_k as int, k as int);
                if seg_k < k {
                    crate::chars::lemma_boff_strict(s, seg_k as int, k as int);
                }
                assert(seg_k as int == k as int);
            }
        }
        out
    }
}

} // verus!

verus! {

/// Two char indices with no line break between them sit on the same line,
/// and the column never decreases between them.
pub proof fn lemma_same_line(s: Seq<char>, k1: int, k2: int)
    requires
        0 <= k1 <= k2,
        forall|m: int| k1 <= m < k2 ==> s[m] != '\n',
    ensures
        pos_at(s, k2).0 == pos_at(s, k1).0,
        pos_at(s, k1).1 <= pos_at(s, k2).1,
    decreases k2 - k1,
{
    if k1 < k2 {
        lemma_same_line(s, k1, k2 - 1);
        crate::chars::lemma_u16len_le_u8len(s[k2 - 1]);
    }
}

/// Scan to the document position of a valid byte offset.
pub fn offset_to_docpos(text: &str, off: usize) -> (r: DocPos)
    requires
        valid_off(text@, off as int),
    ensures
        pos_of(r) == docpos_of(text@, off as int),
{
    let ghost s = text@;
    let ghost kc = idx_of_off(s, off as int);
    proof {
        assert(valid_off(s, off as int));
        assert(0 <= kc <= s.len() && boff_at(s, kc) == off as int);
    }
    let total = text_byte_len(text);
    let n = text.unicode_len();
    let mut k: usize = 0;
    let mut line: usize = 0;
    let mut col: usize = 0;
    let mut boff: usize = 0;
    while boff != off
        invariant
            s == text@,
            n == s.len(),
            total as int == boff_at(s, n as int),
            boff as int == boff_at(s, k as int),
            line as int == pos_at(s, k as int).0,
            col as int == pos_at(s, k as int).1,
            k <= kc,
            0 <= kc <= n,
            boff_at(s, kc) == off as int,
        decreases kc - k,
    {
        proof {
            if k as int == kc {
                assert(false);
            }
            assert(k < kc);
            crate::chars::lemma_boff_mono(s, k as int + 1, n as int);
            crate::chars::lemma_boff_nonneg(s, k as int);
            lemma_pos_le_boff(s, k as int + 1);
            lemma_pos_nonneg(s, k as int);
        }
        let c = text.get_char(k);
        proof {
            crate::chars::lemma_u16len_le_u8len(c);
        }
        if c == '\n' {
            line = line + 1;
            col = 0;
        } else {
            col = col + utf16_len(c);
        }
        boff = boff + utf8_len(c);
        k = k + 1;
    }
    proof {
        lemma_boff_injective(s, k as int, kc);
    }
    DocPos { line, character: col }
}

/// The single-line fragments of a whole token list, in order.
pub open spec fn split_tokens(s: Seq<char>, ts: Seq<SemToken>) -> Seq<SemToken>
    decreases ts.len(),
{
    if ts.len() == 0 {
        Seq::empty()
    } else {
        token_pieces(s, ts[0]) + split_tokens(s, ts.drop_first())
    }
}

pub proof fn lemma_split_tokens_push(s: Seq<char>, ts: Seq<SemToken>, t: SemToken)
    ensures
        split_tokens(s, ts.push(t)) == split_tokens(s, ts) + token_pieces(s, t),
    decreases ts.len(),
{
    if ts.len() == 0 {
        assert(ts.push(t)[0] == t);
        assert(ts.push(t).drop_first() =~= Seq::<SemToken>::empty());
        assert(ts.push(t).drop_first() == Seq::<SemToken>::empty());
        assert(split_tokens(s, Seq::<SemToken>::empty()) == Seq::<SemToken>::empty());
        assert(split_tokens(s, ts.push(t)) == token_pieces(s, t) + Seq::<SemToken>::empty());
        assert(split_tokens(s, ts) == Seq::<SemToken>::empty());
        assert(split_tokens(s, ts.push(t)) =~= split_tokens(s, ts) + token_pieces(s, t));
    } else {
        assert(ts.push(t).drop_first() =~= ts.drop_first().push(t));
        lemma_split_tokens_push(s, ts.drop_first(), t);
        assert(ts.push(t)[0] == ts[0]);
        assert(split_tokens(s, ts.push(t)) == token_pieces(s, ts[0]) + (split_tokens(
            s,
            ts.drop_first(),
        ) + token_pieces(s, t)));
        assert(split_tokens(s, ts.push(t)) =~= split_tokens(s, ts) + token_pieces(s, t));
    }
}

/// A single-line fragment: its ends are boundaries, it is not empty, and it
/// holds no line break.
pub open spec fn piece_ok(s: Seq<char>, p: SemToken) -> bool {
    exists|ka: int, kb: int|
        0 <= ka < kb <= s.len() && p.start as int == boff_at(s, ka) && p.end as int == boff_at(
            s,
            kb,
        ) && (forall|m: int| ka <= m < kb ==> s[m] != '\n')
}

/// The absolute triple a fragment transcodes to: its start position, its
/// length in UTF-16 code units, and the fragment itself. Start and end sit on
/// the same line.
pub open spec fn triple_of(s: Seq<char>, p: SemToken) -> (DocPos, usize, SemToken) {
    let a = docpos_of(s, p.start as int);
    let b = docpos_of(s, p.end as int);
    (DocPos { line: a.0 as usize, character: a.1 as usize }, (b.1 - a.1) as usize, p)
}

impl SemToken {
    /// Transcode tokens to single-line fragments with absolute start
    /// positions and UTF-16 lengths, sorted by position: every fragment of
    /// every token appears exactly once, converted through the document
    /// position codec.
    pub fn vscode(tokens: Vec<SemToken>, text: &str) -> (r: Vec<(DocPos, usize, SemToken)>)
        requires
            crate::docpos::no_cr(text@),
            forall|i: int| 0 <= i < tokens@.len() ==> tok_wf(text@, #[trigger] tokens@[i]),
        ensures
            r@.to_multiset() == split_tokens(text@, tokens@).map_values(
                |p: SemToken| triple_of(text@, p),
            ).to_multiset(),
            forall|i: int, j: int|
                0 <= i < j < r@.len() ==> !pos_lt(
                    pos_of((#[trigger] r@[j]).0),
                    pos_of((#[trigger] r@[i]).0),
                ),
    {
        let ghost s = text@;
        let total = text_byte_len(text);
        let n = text.unicode_len();
        let mut pieces: Vec<SemToken> = Vec::new();
        let mut i: usize = 0;
        while i < tokens.len()
            invariant
                s == text@,
                n == s.len(),
                total as int == boff_at(s, n as int),
                i <= tokens@.len(),
                forall|t: int| 0 <= t < tokens@.len() ==> tok_wf(s, #[trigger] tokens@[t]),
                pieces@ =~= split_tokens(s, tokens@.take(i as int)),
                forall|t: int| 0 <= t < pieces@.len() ==> piece_ok(s, #[trigger] pieces@[t]),
            decreases tokens@.len() - i,
        {
            let tok = tokens[i];
            let ghost pieces0 = pieces@;
            let mut sub = tok.split(text);
            proof {
                let ca = idx_of_off(s, tok.start as int);
                let cb = idx_of_off(s, tok.end as int);
                assert(0 <= ca <= s.len() && boff_at(s, ca) == tok.start as int);
                assert(0 <= cb <= s.len() && boff_at(s, cb) == tok.end as int);
                lemma_split_props(s, ca, cb);
                assert forall|t: int| 0 <= t < sub@.len() implies piece_ok(
                    s,
                    #[trigger] sub@[t],
                ) by {
                    let r = split_ranges(s, ca, cb)[t];
                    assert(piece_range_ok(s, ca, cb, r));
                    crate::chars::lemma_boff_nonneg(s, r.0);
                    crate::chars::lemma_boff_nonneg(s, r.1);
                    crate::chars::lemma_boff_mono(s, r.0, n as int);
                    crate::chars::lemma_boff_mono(s, r.1, n as int);
                    assert(sub@[t].start as int == boff_at(s, r.0));
                    assert(sub@[t].end as int == boff_at(s, r.1));
                }
            }
            pieces.append(&mut sub);
            proof {
                lemma_split_tokens_push(s, tokens@.take(i as int), tok);
                assert(tokens@.take(i as int + 1) =~= tokens@.take(i as int).push(tok));
                assert(pieces@ =~= split_tokens(s, tokens@.take(i as int + 1)));
            }
            i = i + 1;
        }
        proof {
            assert(tokens@.take(tokens@.len() as int) =~= tokens@);
        }
        let mut pairs: Vec<(DocPos, (usize, SemToken))> = Vec::new();
        let mut i: usize = 0;
        while i < pieces.len()
            invariant
                s == text@,
                n == s.len(),
                total as int == boff_at(s, n as int),
                i <= pieces@.len(),
                forall|t: int| 0 <= t < pieces@.len() ==> piece_ok(s, #[trigger] pieces@[t]),
                pairs@.len() == i,
                forall|t: int|
                    0 <= t < i ==> #[trigger] pairs@[t] == (
                        triple_of(s, pieces@[t]).0,
                        (triple_of(s, pieces@[t]).1, triple_of(s, pieces@[t]).2),
                    ),
            decreases pieces@.len() - i,
        {
            let p = pieces[i];
            proof {
                assert(piece_ok(s, p));
                let (ka, kb) = choose|ka: int, kb: int|
                    0 <= ka < kb <= s.len() && p.start as int == boff_at(s, ka) && p.end as int
                        == boff_at(s, kb) && (forall|m: int| ka <= m < kb ==> s[m] != '\n');
                assert(valid_off(s, p.start as int));
                assert(valid_off(s, p.end as int));
                let ka2 = idx_of_off(s, p.start as int);
                let kb2 = idx_of_off(s, p.end as int);
                lemma_boff_injective(s, ka, ka2);
                lemma_boff_injective(s, kb, kb2);
                lemma_same_line(s, ka, kb);
                lemma_pos_nonneg(s, ka);
                lemma_pos_nonneg(s, kb);
                lemma_pos_le_boff(s, ka);
                lemma_pos_le_boff(s, kb);
                crate::chars::lemma_boff_mono(s, ka, n as int);
                crate::chars::lemma_boff_mono(s, kb, n as int);
            }
            let sp = offset_to_docpos(text, p.start);
            let ep = offset_to_docpos(text, p.end);
            let len = ep.character - sp.character;
            pairs.push((sp, (len, p)));
            i = i + 1;
        }
        let sorted = sort_by_pos(pairs);
        let ghost srt = sorted@;
        let mut out: Vec<(DocPos, usize, SemToken)> = Vec::new();
        let mut i: usize = 0;
        while i < sorted.len()
            invariant
                srt == sorted@,
                i <= srt.len(),
                out@.len() == i,
                forall|t: int|
                    0 <= t < i ==> #[trigger] out@[t] == (srt[t].0, srt[t].1.0, srt[t].1.1),
            decreases srt.len() - i,
        {
            let d = sorted[i].0;
            let lp = sorted[i].1;
            out.push((d, lp.0, lp.1));
            i = i + 1;
        }
        proof {
            let unpair = |q: (DocPos, (usize, SemToken))| (q.0, q.1.0, q.1.1);
            let repair = |p: SemToken|
                (triple_of(s, p).0, (triple_of(s, p).1, triple_of(s, p).2));
            assert(out@ =~= srt.map_values(unpair));
            lemma_map_multiset(srt, pairs@, unpair);
            assert(pairs@.map_values(unpair) =~= split_tokens(s, tokens@).map_values(
                |p: SemToken| triple_of(s, p),
            ));
            assert(out@.to_multiset() == srt.map_values(unpair).to_multiset());
            // order carries over from the sorted pairs
            assert(crate::docpos::sorted_pos(srt));
            assert forall|a: int, b: int| 0 <= a < b < out@.len() implies !pos_lt(
                pos_of((#[trigger] out@[b]).0),
                pos_of((#[trigger] out@[a]).0),
            ) by {
                assert(out@[a].0 == srt[a].0 && out@[b].0 == srt[b].0);
            }
        }
        out
    }
}

} // verus!
