//! The expression tree the analysis classifies, and the classification rules:
//! bound names are variables, free names in the expanded tree are functions,
//! single-name lambda arguments are parameters, leftover names in the source
//! tree are keywords or operators by their first character, and atoms are
//! numbers, keywords or strings by their kind. Tokens are de-duplicated by
//! source range: among the expanded tree's name tokens the later
//! classification wins, and a source-tree token never displaces one the
//! expanded tree already claimed.
use vstd::prelude::*;
use vstd::string::StrSliceExecFns;

use crate::tokens::{SemToken, TokenType};

verus! {

/// What kind of literal an atom is: a number (integer or float), a truth
/// value, or anything else.
#[derive(Clone, Copy, Debug, PartialEq, Eq, Structural)]
pub enum AtomKind {
    Num,
    Truth,
    Other,
}

/// One clause of an expression: a (possibly qualified) name, an atom, a
/// lambda with its argument and body, a bracketed sequence, or anything the
/// classifier ignores.
#[derive(Debug)]
pub enum Clause {
    Name(Vec<String>),
    Atom(AtomKind),
    Lambda(Vec<ExprNode>, Vec<ExprNode>),
    S(Vec<ExprNode>),
    Other,
}

/// An expression with its byte range in the source and whether that range
/// lies in the file under analysis (ranges introduced from other files are
/// not classified).
#[derive(Debug)]
pub struct ExprNode {
    pub clause: Clause,
    pub start: usize,
    pub end: usize,
    pub in_file: bool,
}

/// Relies on `char::is_alphabetic`: whether a character is alphabetic (the
/// Unicode property) depends on the character alone.
#[verifier::external_body]
fn alphabetic(c: char) -> (r: bool)
    ensures
        r == is_alpha(c),
{
    c.is_alphabetic()
}

pub uninterp spec fn is_alpha(c: char) -> bool;

/// A character that can start a name: alphabetic or an underscore.
pub open spec fn spec_namestart(c: char) -> bool {
    is_alpha(c) || c == '_'
}

pub fn namestart(c: char) -> (r: bool)
    ensures
        r == spec_namestart(c),
{
    alphabetic(c) || c == '_'
}

/// The view of a qualified name: its segments as character sequences.
pub open spec fn name_view(n: Seq<String>) -> Seq<Seq<char>> {
    n.map_values(|s: String| s@)
}

/// Whether a name's last segment starts with a name-start character.
pub open spec fn name_like(n: Seq<Seq<char>>) -> bool {
    n.len() > 0 && n.last().len() > 0 && spec_namestart(n.last()[0])
}

/// The one name a lambda argument list binds, when it is a single in-file
/// name.
pub open spec fn lambda_binding(arg: Seq<ExprNode>) -> Option<ExprNode> {
    if arg.len() == 1 && arg[0].clause matches Clause::Name(_) {
        Option::Some(arg[0])
    } else {
        Option::None
    }
}

/// Index of the first token covering the byte range, from position `j` on; a
/// negative number when none does.
pub open spec fn range_index(m: Seq<SemToken>, j: int, start: usize, end: usize) -> int
    decreases m.len() - j,
{
    if j < 0 || j >= m.len() {
        -1
    } else if m[j].start == start && m[j].end == end {
        j
    } else {
        range_index(m, j + 1, start, end)
    }
}

/// Whether a token list already covers a byte range.
pub open spec fn covers_range(m: Seq<SemToken>, start: usize, end: usize) -> bool {
    range_index(m, 0, start, end) >= 0
}

pub proof fn lemma_range_index_from(m: Seq<SemToken>, j: int, start: usize, end: usize)
    requires
        0 <= j,
    ensures
        range_index(m, j, start, end) >= 0 ==> j <= range_index(m, j, start, end) < m.len()
            && m[range_index(m, j, start, end)].start == start && m[range_index(
            m,
            j,
            start,
            end,
        )].end == end,
        range_index(m, j, start, end) < 0 ==> forall|t: int|
            j <= t < m.len() ==> !((#[trigger] m[t]).start == start && m[t].end == end),
    decreases m.len() - j,
{
    if j < m.len() && !(m[j].start == start && m[j].end == end) {
        lemma_range_index_from(m, j + 1, start, end);
    }
}

/// Insert a token, replacing any token already covering its range: the later
/// classification of a range wins.
pub open spec fn put_tok(m: Seq<SemToken>, t: SemToken) -> Seq<SemToken> {
    let i = range_index(m, 0, t.start, t.end);
    if i < 0 {
        m.push(t)
    } else {
        m.update(i, t)
    }
}

/// Insert a token unless its range is already covered: the earlier
/// classification of a range wins.
pub open spec fn add_tok(m: Seq<SemToken>, t: SemToken) -> Seq<SemToken> {
    if covers_range(m, t.start, t.end) {
        m
    } else {
        m.push(t)
    }
}

/// The name tokens of the expanded (post-macro) tree, folded into `acc`: a
/// single-name lambda argument in this file is a parameter and binds its name
/// over the body; an in-file name is a variable when bound, a function when
/// free; each range keeps one token, the last classification.
pub open spec fn name_toks_into(
    e: ExprNode,
    bnd: Seq<Seq<Seq<char>>>,
    acc: Seq<SemToken>,
) -> Seq<SemToken>
    decreases e,
{
    match e.clause {
        Clause::Lambda(arg, body) => {
            match lambda_binding(arg@) {
                Option::Some(a) => {
                    let acc1 = if a.in_file {
                        put_tok(
                            acc,
                            SemToken { start: a.start, end: a.end, typ: TokenType::Parameter },
                        )
                    } else {
                        acc
                    };
                    let n = (match a.clause {
                        Clause::Name(n) => name_view(n@),
                        _ => Seq::empty(),
                    });
                    body_toks_into(body@, 0, bnd.push(n), acc1)
                },
                Option::None => body_toks_into(body@, 0, bnd, acc),
            }
        },
        Clause::Name(n) => if e.in_file {
            put_tok(
                acc,
                SemToken {
                    start: e.start,
                    end: e.end,
                    typ: if bnd.contains(name_view(n@)) {
                        TokenType::Variable
                    } else {
                        TokenType::Function
                    },
                },
            )
        } else {
            acc
        },
        Clause::S(b) => body_toks_into(b@, 0, bnd, acc),
        _ => acc,
    }
}

/// The name tokens of a run of expressions from index `j` on, folded into
/// `acc` in order.
pub open spec fn body_toks_into(
    b: Seq<ExprNode>,
    j: int,
    bnd: Seq<Seq<Seq<char>>>,
    acc: Seq<SemToken>,
) -> Seq<SemToken>
    decreases b, b.len() - j,
{
    if j < 0 || j >= b.len() {
        acc
    } else {
        body_toks_into(b, j + 1, bnd, name_toks_into(b[j], bnd, acc))
    }
}

/// The leftover tokens of the source (pre-macro) tree, folded into `acc` (the
/// expanded tree's name tokens): an in-file name or atom at a range not yet
/// covered is classified — a name as keyword or operator by its first
/// character, an atom as number, keyword or string by its kind; covered
/// ranges keep their earlier token; every child is searched.
pub open spec fn parsed_into(e: ExprNode, acc: Seq<SemToken>) -> Seq<SemToken>
    decreases e,
{
    let acc1 = if e.in_file {
        match e.clause {
            Clause::Name(n) => add_tok(
                acc,
                SemToken {
                    start: e.start,
                    end: e.end,
                    typ: if name_like(name_view(n@)) {
                        TokenType::Keyword
                    } else {
                        TokenType::Operator
                    },
                },
            ),
            Clause::Atom(k) => add_tok(
                acc,
                SemToken {
                    start: e.start,
                    end: e.end,
                    typ: match k {
                        AtomKind::Num => TokenType::Number,
                        AtomKind::Truth => TokenType::Keyword,
                        AtomKind::Other => TokenType::Str,
                    },
                },
            ),
            _ => acc,
        }
    } else {
        acc
    };
    match e.clause {
        Clause::Lambda(arg, body) => parsed_body_into(body@, 0, parsed_body_into(arg@, 0, acc1)),
        Clause::S(b) => parsed_body_into(b@, 0, acc1),
        _ => acc1,
    }
}

pub open spec fn parsed_body_into(b: Seq<ExprNode>, j: int, acc: Seq<SemToken>) -> Seq<SemToken>
    decreases b, b.len() - j,
{
    if j < 0 || j >= b.len() {
        acc
    } else {
        parsed_body_into(b, j + 1, parsed_into(b[j], acc))
    }
}

/// All tokens of one constant: the expanded tree's name tokens, then the
/// source tree's leftovers at ranges the names did not claim; nothing when
/// macro expansion yielded no tree.
pub open spec fn tokens_spec(parsed: ExprNode, postmacro: Option<ExprNode>) -> Seq<SemToken> {
    match postmacro {
        Option::None => Seq::empty(),
        Option::Some(pm) => parsed_into(
            parsed,
            name_toks_into(pm, Seq::empty(), Seq::empty()),
        ),
    }
}

/// No two tokens cover the same byte range.
pub open spec fn unique_ranges(m: Seq<SemToken>) -> bool {
    forall|i: int, j: int|
        0 <= i < j < m.len() ==> !((#[trigger] m[i]).start == (#[trigger] m[j]).start && m[i].end
            == m[j].end)
}

pub proof fn lemma_put_tok_unique(m: Seq<SemToken>, t: SemToken)
    requires
        unique_ranges(m),
    ensures
        unique_ranges(put_tok(m, t)),
{
    lemma_range_index_from(m, 0, t.start, t.end);
    let i = range_index(m, 0, t.start, t.end);
    if i < 0 {
        assert forall|a: int, b: int| 0 <= a < b < m.push(t).len() implies !((#[trigger] m.push(
            t,
        )[a]).start == (#[trigger] m.push(t)[b]).start && m.push(t)[a].end == m.push(t)[b].end) by {
            if b == m.len() {
                assert(m.push(t)[a] == m[a]);
            }
        }
    } else {
        let m2 = m.update(i, t);
        assert forall|a: int, b: int| 0 <= a < b < m2.len() implies !((#[trigger] m2[a]).start == (
        #[trigger] m2[b]).start && m2[a].end == m2[b].end) by {
            assert(m2[a].start == m[a].start && m2[a].end == m[a].end);
            assert(m2[b].start == m[b].start && m2[b].end == m[b].end);
        }
    }
}

pub proof fn lemma_add_tok_unique(m: Seq<SemToken>, t: SemToken)
    requires
        unique_ranges(m),
    ensures
        unique_ranges(add_tok(m, t)),
{
    lemma_range_index_from(m, 0, t.start, t.end);
    if !covers_range(m, t.start, t.end) {
        assert forall|a: int, b: int| 0 <= a < b < m.push(t).len() implies !((#[trigger] m.push(
            t,
        )[a]).start == (#[trigger] m.push(t)[b]).start && m.push(t)[a].end == m.push(t)[b].end) by {
            if b == m.len() {
                assert(m.push(t)[a] == m[a]);
            }
        }
    }
}

pub proof fn lemma_name_into_unique(e: ExprNode, bnd: Seq<Seq<Seq<char>>>, acc: Seq<SemToken>)
    requires
        unique_ranges(acc),
    ensures
        unique_ranges(name_toks_into(e, bnd, acc)),
    decreases e,
{
    match e.clause {
        Clause::Lambda(arg, body) => {
            match lambda_binding(arg@) {
                Option::Some(a) => {
                    let acc1 = if a.in_file {
                        put_tok(
                            acc,
                            SemToken { start: a.start, end: a.end, typ: TokenType::Parameter },
                        )
                    } else {
                        acc
                    };
                    if a.in_file {
                        lemma_put_tok_unique(
                            acc,
                            SemToken { start: a.start, end: a.end, typ: TokenType::Parameter },
                        );
                    }
                    let n = (match a.clause {
                        Clause::Name(n) => name_view(n@),
                        _ => Seq::empty(),
                    });
                    lemma_body_into_unique(body@, 0, bnd.push(n), acc1);
                },
                Option::None => {
                    lemma_body_into_unique(body@, 0, bnd, acc);
                },
            }
        },
        Clause::Name(n) => {
            if e.in_file {
                lemma_put_tok_unique(
                    acc,
                    SemToken {
                        start: e.start,
                        end: e.end,
                        typ: if bnd.contains(name_view(n@)) {
                            TokenType::Variable
                        } else {
                            TokenType::Function
                        },
                    },
                );
            }
        },
        Clause::S(b) => {
            lemma_body_into_unique(b@, 0, bnd, acc);
        },
        _ => {},
    }
}

pub proof fn lemma_body_into_unique(
    b: Seq<ExprNode>,
    j: int,
    bnd: Seq<Seq<Seq<char>>>,
    acc: Seq<SemToken>,
)
    requires
        unique_ranges(acc),
    ensures
        unique_ranges(body_toks_into(b, j, bnd, acc)),
    decreases b, b.len() - j,
{
    if 0 <= j < b.len() {
        lemma_name_into_unique(b[j], bnd, acc);
        lemma_body_into_unique(b, j + 1, bnd, name_toks_into(b[j], bnd, acc));
    }
}

pub proof fn lemma_parsed_into_unique(e: ExprNode, acc: Seq<SemToken>)
    requires
        unique_ranges(acc),
    ensures
        unique_ranges(parsed_into(e, acc)),
    decreases e,
{
    let acc1 = if e.in_file {
        match e.clause {
            Clause::Name(n) => add_tok(
                acc,
                SemToken {
                    start: e.start,
                    end: e.end,
                    typ: if name_like(name_view(n@)) {
                        TokenType::Keyword
                    } else {
                        TokenType::Operator
                    },
                },
            ),
            Clause::Atom(k) => add_tok(
                acc,
                SemToken {
                    start: e.start,
                    end: e.end,
                    typ: match k {
                        AtomKind::Num => TokenType::Number,
                        AtomKind::Truth => TokenType::Keyword,
                        AtomKind::Other => TokenType::Str,
                    },
                },
            ),
            _ => acc,
        }
    } else {
        acc
    };
    assert(unique_ranges(acc1)) by {
        if e.in_file {
            match e.clause {
                Clause::Name(n) => {
                    lemma_add_tok_unique(
                        acc,
                        SemToken {
                            start: e.start,
                            end: e.end,
                            typ: if name_like(name_view(n@)) {
                                TokenType::Keyword
                            } else {
                                TokenType::Operator
                            },
                        },
                    );
                },
                Clause::Atom(k) => {
                    lemma_add_tok_unique(
                        acc,
                        SemToken {
                            start: e.start,
                            end: e.end,
                            typ: match k {
                                AtomKind::Num => TokenType::Number,
                                AtomKind::Truth => TokenType::Keyword,
                                AtomKind::Other => TokenType::Str,
                            },
                        },
                    );
                },
                _ => {},
            }
        }
    }
    match e.clause {
        Clause::Lambda(arg, body) => {
            lemma_parsed_body_into_unique(arg@, 0, acc1);
            lemma_parsed_body_into_unique(body@, 0, parsed_body_into(arg@, 0, acc1));
        },
        Clause::S(b) => {
            lemma_parsed_body_into_unique(b@, 0, acc1);
        },
        _ => {},
    }
}

pub proof fn lemma_parsed_body_into_unique(b: Seq<ExprNode>, j: int, acc: Seq<SemToken>)
    requires
        unique_ranges(acc),
    ensures
        unique_ranges(parsed_body_into(b, j, acc)),
    decreases b, b.len() - j,
{
    if 0 <= j < b.len() {
        lemma_parsed_into_unique(b[j], acc);
        lemma_parsed_body_into_unique(b, j + 1, parsed_into(b[j], acc));
    }
}

/// The classifier de-duplicates by source range: a constant's token list
/// never carries two tokens over the same byte range.
pub proof fn lemma_tokens_unique_ranges(parsed: ExprNode, postmacro: Option<ExprNode>)
    ensures
        unique_ranges(tokens_spec(parsed, postmacro)),
{
    match postmacro {
        Option::None => {},
        Option::Some(pm) => {
            lemma_name_into_unique(pm, Seq::empty(), Seq::empty());
            lemma_parsed_into_unique(parsed, name_toks_into(pm, Seq::empty(), Seq::empty()));
        },
    }
}

fn names_eq(a: &Vec<String>, b: &Vec<String>) -> (r: bool)
    ensures
        r == (name_view(a@) == name_view(b@)),
{
    if a.len() != b.len() {
        proof {
            assert(name_view(a@).len() != name_view(b@).len());
        }
        return false;
    }
    let mut i: usize = 0;
    while i < a.len()
        invariant
            i <= a@.len() == b@.len(),
            forall|t: int| 0 <= t < i ==> (#[trigger] a@[t])@ == b@[t]@,
        decreases a@.len() - i,
    {
        if !(a[i] == b[i]) {
            proof {
                assert(name_view(a@)[i as int] != name_view(b@)[i as int]);
            }
            return false;
        }
        i = i + 1;
    }
    proof {
        assert forall|t: int| 0 <= t < name_view(a@).len() implies #[trigger] name_view(a@)[t]
            == name_view(b@)[t] by {
            assert(name_view(a@)[t] == a@[t]@ && name_view(b@)[t] == b@[t]@);
        }
        assert(name_view(a@) =~= name_view(b@));
    }
    true
}

fn binding_contains(bnd: &Vec<Vec<String>>, n: &Vec<String>) -> (r: bool)
    ensures
        r == bnd@.map_values(|q: Vec<String>| name_view(q@)).contains(name_view(n@)),
{
    let ghost bv = bnd@.map_values(|q: Vec<String>| name_view(q@));
    let mut i: usize = 0;
    while i < bnd.len()
        invariant
            bv == bnd@.map_values(|q: Vec<String>| name_view(q@)),
            i <= bnd@.len(),
            bv.len() == bnd@.len(),
            forall|t: int| 0 <= t < i ==> bv[t] != name_view(n@),
        decreases bnd@.len() - i,
    {
        if names_eq(&bnd[i], n) {
            proof {
                assert(bv[i as int] == name_view(n@));
            }
            return true;
        }
        proof {
            assert(bv[i as int] == name_view(bnd@[i as int]@));
        }
        i = i + 1;
    }
    proof {
        assert(!bv.contains(name_view(n@)));
    }
    false
}

fn clone_name(n: &Vec<String>) -> (r: Vec<String>)
    ensures
        r@ == n@,
{
    let mut out: Vec<String> = Vec::new();
    let mut i: usize = 0;
    while i < n.len()
        invariant
            i <= n@.len(),
            out@.len() == i,
            forall|t: int| 0 <= t < i ==> #[trigger] out@[t] == n@[t],
        decreases n@.len() - i,
    {
        out.push(n[i].clone());
        i = i + 1;
    }
    proof {
        assert(out@ =~= n@);
    }
    out
}

/// The views of a binding stack.
pub open spec fn bindings_view(bnd: Seq<Vec<String>>) -> Seq<Seq<Seq<char>>> {
    bnd.map_values(|q: Vec<String>| name_view(q@))
}

fn clone_bindings(bnd: &Vec<Vec<String>>) -> (r: Vec<Vec<String>>)
    ensures
        bindings_view(r@) == bindings_view(bnd@),
{
    let mut out: Vec<Vec<String>> = Vec::new();
    let mut i: usize = 0;
    while i < bnd.len()
        invariant
            i <= bnd@.len(),
            out@.len() == i,
            forall|t: int| 0 <= t < i ==> (#[trigger] out@[t])@ == bnd@[t]@,
        decreases bnd@.len() - i,
    {
        out.push(clone_name(&bnd[i]));
        i = i + 1;
    }
    proof {
        assert forall|t: int| 0 <= t < out@.len() implies #[trigger] bindings_view(out@)[t]
            == bindings_view(bnd@)[t] by {
            assert(bindings_view(out@)[t] == name_view(out@[t]@));
            assert(bindings_view(bnd@)[t] == name_view(bnd@[t]@));
        }
        assert(bindings_view(out@) =~= bindings_view(bnd@));
    }
    out
}

/// Insert a token, replacing the token already covering its range if one is
/// there.
fn put_token(tok: SemToken, acc: Vec<SemToken>) -> (r: Vec<SemToken>)
    ensures
        r@ == put_tok(acc@, tok),
{
    let ghost a0 = acc@;
    let mut out = acc;
    let mut j: usize = 0;
    while j < out.len()
        invariant
            a0 == acc@,
            out@ == a0,
            j <= a0.len(),
            range_index(a0, 0, tok.start, tok.end) == range_index(a0, j as int, tok.start, tok.end),
        decreases a0.len() - j,
    {
        if out[j].start == tok.start && out[j].end == tok.end {
            out.remove(j);
            out.insert(j, tok);
            proof {
                assert(out@ =~= a0.update(j as int, tok));
            }
            return out;
        }
        j = j + 1;
    }
    out.push(tok);
    out
}

/// Insert a token unless its range is already covered.
fn add_token(tok: SemToken, acc: Vec<SemToken>) -> (r: Vec<SemToken>)
    ensures
        r@ == add_tok(acc@, tok),
{
    let ghost a0 = acc@;
    let mut out = acc;
    let mut j: usize = 0;
    while j < out.len()
        invariant
            a0 == acc@,
            out@ == a0,
            j <= a0.len(),
            range_index(a0, 0, tok.start, tok.end) == range_index(a0, j as int, tok.start, tok.end),
        decreases a0.len() - j,
    {
        if out[j].start == tok.start && out[j].end == tok.end {
            return out;
        }
        j = j + 1;
    }
    out.push(tok);
    out
}

fn is_name_like(n: &Vec<String>) -> (r: bool)
    ensures
        r == name_like(name_view(n@)),
{
    if n.len() == 0 {
        proof {
            assert(!name_like(name_view(n@)));
        }
        return false;
    }
    let last = &n[n.len() - 1];
    let ghost lv = name_view(n@).last();
    proof {
        assert(name_view(n@).last() == n@[n@.len() - 1]@);
    }
    if last.as_str().unicode_len() == 0 {
        proof {
            assert(lv.len() == 0);
        }
        return false;
    }
    let c = last.as_str().get_char(0);
    proof {
        assert(c == lv[0]);
    }
    namestart(c)
}

/// Fold the name tokens of an expanded tree into `acc` under the given
/// bindings.
pub fn name_toks(e: &ExprNode, bnd: &Vec<Vec<String>>, acc: Vec<SemToken>) -> (r: Vec<SemToken>)
    ensures
        r@ == name_toks_into(*e, bindings_view(bnd@), acc@),
    decreases *e,
{
    let ghost bv = bindings_view(bnd@);
    let ghost acc0 = acc@;
    match &e.clause {
        Clause::Name(n) => {
            if e.in_file {
                let bound = binding_contains(bnd, n);
                put_token(
                    SemToken {
                        start: e.start,
                        end: e.end,
                        typ: if bound {
                            TokenType::Variable
                        } else {
                            TokenType::Function
                        },
                    },
                    acc,
                )
            } else {
                acc
            }
        },
        Clause::Lambda(arg, body) => {
            let mut out = acc;
            let mut bnd2: Vec<Vec<String>> = clone_bindings(bnd);
            if arg.len() == 1 {
                match &arg[0].clause {
                    Clause::Name(n) => {
                        proof {
                            assert(lambda_binding(arg@) == Option::Some(arg@[0]));
                        }
                        if arg[0].in_file {
                            out = put_token(
                                SemToken {
                                    start: arg[0].start,
                                    end: arg[0].end,
                                    typ: TokenType::Parameter,
                                },
                                out,
                            );
                        }
                        let ghost b0 = bnd2@;
                        bnd2.push(clone_name(n));
                        proof {
                            assert(bindings_view(bnd2@) =~= bindings_view(b0).push(
                                name_view(n@),
                            )) by {
                                assert(bnd2@ =~= b0.push(bnd2@.last()));
                                assert(bnd2@.last()@ == n@);
                                assert forall|t: int|
                                    0 <= t < bindings_view(bnd2@).len() implies #[trigger] bindings_view(
                                    bnd2@,
                                )[t] == bindings_view(b0).push(name_view(n@))[t] by {
                                    assert(bindings_view(bnd2@)[t] == name_view(bnd2@[t]@));
                                    if t < b0.len() {
                                        assert(bindings_view(b0)[t] == name_view(b0[t]@));
                                    }
                                }
                            }
                        }
                    },
                    _ => {
                        proof {
                            assert(lambda_binding(arg@) is None);
                        }
                    },
                }
            } else {
                proof {
                    assert(lambda_binding(arg@) is None);
                }
            }
            let ghost acc_head = out@;
            let ghost bv2 = bindings_view(bnd2@);
            proof {
                match lambda_binding(arg@) {
                    Option::Some(a) => {
                        assert(bv2 =~= bv.push(
                            match a.clause {
                                Clause::Name(n) => name_view(n@),
                                _ => Seq::empty(),
                            },
                        ));
                    },
                    Option::None => {
                        assert(bv2 =~= bv);
                    },
                }
            }
            let mut j: usize = 0;
            while j < body.len()
                invariant
                    e.clause matches Clause::Lambda(a2, b2) && b2 == *body,
                    j <= body@.len(),
                    bv2 == bindings_view(bnd2@),
                    body_toks_into(body@, j as int, bv2, out@) == body_toks_into(
                        body@,
                        0,
                        bv2,
                        acc_head,
                    ),
                decreases body@.len() - j,
            {
                proof {
                    assert(decreases_to!(*e => e.clause));
                    assert(decreases_to!(e.clause => e.clause->Lambda_1));
                    assert(e.clause->Lambda_1 == *body);
                    assert(decreases_to!(*body => body@));
                    assert(decreases_to!(body@ => body@[j as int]));
                }
                out = name_toks(&body[j], &bnd2, out);
                j = j + 1;
            }
            out
        },
        Clause::S(b) => {
            let mut out = acc;
            let mut j: usize = 0;
            while j < b.len()
                invariant
                    e.clause matches Clause::S(b2) && b2 == *b,
                    j <= b@.len(),
                    bv == bindings_view(bnd@),
                    body_toks_into(b@, j as int, bv, out@) == body_toks_into(b@, 0, bv, acc0),
                decreases b@.len() - j,
            {
                proof {
                    assert(decreases_to!(*e => e.clause));
                    assert(decreases_to!(e.clause => e.clause->S_0));
                    assert(e.clause->S_0 == *b);
                    assert(decreases_to!(*b => b@));
                    assert(decreases_to!(b@ => b@[j as int]));
                }
                out = name_toks(&b[j], bnd, out);
                j = j + 1;
            }
            out
        },
        Clause::Atom(_) => acc,
        Clause::Other => acc,
    }
}

/// Fold the leftover tokens of a source tree into `acc` (the expanded tree's
/// name tokens), skipping ranges already covered.
pub fn parsed_toks(e: &ExprNode, acc: Vec<SemToken>) -> (r: Vec<SemToken>)
    ensures
        r@ == parsed_into(*e, acc@),
    decreases *e,
{
    let mut out = acc;
    if e.in_file {
        match &e.clause {
            Clause::Name(n) => {
                let kw = is_name_like(n);
                out = add_token(
                    SemToken {
                        start: e.start,
                        end: e.end,
                        typ: if kw {
                            TokenType::Keyword
                        } else {
                            TokenType::Operator
                        },
                    },
                    out,
                );
            },
            Clause::Atom(k) => {
                let typ = match k {
                    AtomKind::Num => TokenType::Number,
                    AtomKind::Truth => TokenType::Keyword,
                    AtomKind::Other => TokenType::Str,
                };
                out = add_token(SemToken { start: e.start, end: e.end, typ }, out);
            },
            _ => {},
        }
    }
    let ghost acc1 = out@;
    match &e.clause {
        Clause::Lambda(arg, body) => {
            let mut j: usize = 0;
            while j < arg.len()
                invariant
                    e.clause matches Clause::Lambda(a2, b2) && a2 == *arg,
                    j <= arg@.len(),
                    parsed_body_into(arg@, j as int, out@) == parsed_body_into(arg@, 0, acc1),
                decreases arg@.len() - j,
            {
                proof {
                    assert(decreases_to!(*e => e.clause));
                    assert(decreases_to!(e.clause => e.clause->Lambda_0));
                    assert(e.clause->Lambda_0 == *arg);
                    assert(decreases_to!(*arg => arg@));
                    assert(decreases_to!(arg@ => arg@[j as int]));
                }
                out = parsed_toks(&arg[j], out);
                j = j + 1;
            }
            let ghost mid = out@;
            let mut j: usize = 0;
            while j < body.len()
                invariant
                    e.clause matches Clause::Lambda(a2, b2) && b2 == *body,
                    j <= body@.len(),
                    parsed_body_into(body@, j as int, out@) == parsed_body_into(body@, 0, mid),
                decreases body@.len() - j,
            {
                proof {
                    assert(decreases_to!(*e => e.clause));
                    assert(decreases_to!(e.clause => e.clause->Lambda_1));
                    assert(e.clause->Lambda_1 == *body);
                    assert(decreases_to!(*body => body@));
                    assert(decreases_to!(body@ => body@[j as int]));
                }
                out = parsed_toks(&body[j], out);
                j = j + 1;
            }
            out
        },
        Clause::S(b) => {
            let mut j: usize = 0;
            while j < b.len()
                invariant
                    e.clause matches Clause::S(b2) && b2 == *b,
                    j <= b@.len(),
                    parsed_body_into(b@, j as int, out@) == parsed_body_into(b@, 0, acc1),
                decreases b@.len() - j,
            {
                proof {
                    assert(decreases_to!(*e => e.clause));
                    assert(decreases_to!(e.clause => e.clause->S_0));
                    assert(e.clause->S_0 == *b);
                    assert(decreases_to!(*b => b@));
                    assert(decreases_to!(b@ => b@[j as int]));
                }
                out = parsed_toks(&b[j], out);
                j = j + 1;
            }
            out
        },
        _ => out,
    }
}

/// All tokens of one constant: what its expanded tree names, then what is
/// left over in its source tree at unclaimed ranges; nothing when macro
/// expansion yielded no expanded tree for it. Each source range carries at
/// most one token.
pub fn tokens(parsed: &ExprNode, postmacro: Option<&ExprNode>) -> (r: Vec<SemToken>)
    ensures
        r@ == tokens_spec(*parsed, match postmacro {
            Option::Some(pm) => Option::Some(*pm),
            Option::None => Option::None,
        }),
{
    match postmacro {
        None => Vec::new(),
        Some(pm) => {
            let bnd: Vec<Vec<String>> = Vec::new();
            proof {
                assert(bindings_view(bnd@) =~= Seq::<Seq<Seq<char>>>::empty());
            }
            let nmap = name_toks(pm, &bnd, Vec::new());
            proof {
                assert(nmap@ == name_toks_into(*pm, Seq::empty(), Seq::empty()));
            }
            parsed_toks(parsed, nmap)
        },
    }
}

} // verus!
