//! File URIs and virtual paths: the canonical identifiers of documents and of
//! locations inside a workspace, with prefix arithmetic and the
//! percent-decoded segment equality that keeps encoding differences from
//! splitting identities.
use vstd::prelude::*;
use vstd::string::StrSliceExecFns;
use vstd::string::StringExecFns;

use crate::docpos::DocPos;

verus! {

/// An ordered sequence of path segments locating something inside a
/// workspace.
#[derive(Debug)]
pub struct VPath(pub Vec<String>);

impl Clone for VPath {
    fn clone(&self) -> (r: VPath)
        ensures
            r@ == self@,
            r.0@ == self.0@,
    {
        let mut segs: Vec<String> = Vec::new();
        let mut i: usize = 0;
        while i < self.0.len()
            invariant
                i <= self.0@.len(),
                segs@.len() == i,
                forall|t: int| 0 <= t < i ==> #[trigger] segs@[t] == self.0@[t],
            decreases self.0@.len() - i,
        {
            segs.push(self.0[i].clone());
            i = i + 1;
        }
        proof {
            assert(segs@ =~= self.0@);
        }
        VPath(segs)
    }
}

impl View for VPath {
    type V = Seq<Seq<char>>;

    open spec fn view(&self) -> Seq<Seq<char>> {
        self.0@.map_values(|s: String| s@)
    }
}

impl VPath {
    pub fn new(segments: Vec<String>) -> (r: VPath)
        ensures
            r@ == segments@.map_values(|s: String| s@),
    {
        VPath(segments)
    }

    pub fn empty() -> (r: VPath)
        ensures
            r@ =~= Seq::<Seq<char>>::empty(),
    {
        VPath(Vec::new())
    }

    pub fn len(&self) -> (r: usize)
        ensures
            r == self@.len(),
    {
        self.0.len()
    }

    pub fn is_empty(&self) -> (r: bool)
        ensures
            r == (self@.len() == 0),
    {
        self.0.len() == 0
    }

    /// This path with one more segment at its end.
    pub fn pushed(&self, seg: &String) -> (r: VPath)
        ensures
            r@ == self@.push(seg@),
    {
        let mut out = self.clone();
        out.0.push(seg.clone());
        proof {
            assert(out@ =~= self@.push(seg@));
        }
        out
    }

    /// This path followed by all segments of another.
    pub fn concat(&self, other: &VPath) -> (r: VPath)
        ensures
            r@ == self@ + other@,
    {
        let mut out = self.clone();
        let mut i: usize = 0;
        while i < other.0.len()
            invariant
                i <= other.0@.len(),
                other@.len() == other.0@.len(),
                out@ == self@ + other@.take(i as int),
            decreases other.0@.len() - i,
        {
            let ghost before = out@;
            out.0.push(other.0[i].clone());
            proof {
                assert(out@ =~= before.push(other@[i as int]));
                assert(out@ =~= self@ + other@.take(i as int + 1));
            }
            i = i + 1;
        }
        proof {
            assert(other@.take(other@.len() as int) =~= other@);
        }
        out
    }

    /// Whether `prefix` is a leading run of this path's segments.
    pub fn starts_with(&self, prefix: &VPath) -> (r: bool)
        ensures
            r == (prefix@.len() <= self@.len() && prefix@ =~= self@.take(prefix@.len() as int)),
    {
        if prefix.0.len() > self.0.len() {
            return false;
        }
        let mut i: usize = 0;
        while i < prefix.0.len()
            invariant
                i <= prefix@.len() <= self@.len(),
                prefix@.len() == prefix.0@.len(),
                self@.len() == self.0@.len(),
                forall|t: int| 0 <= t < i ==> self@[t] == prefix@[t],
            decreases prefix@.len() - i,
        {
            if !(self.0[i] == prefix.0[i]) {
                proof {
                    assert(self@[i as int] != prefix@[i as int]);
                }
                return false;
            }
            i = i + 1;
        }
        proof {
            assert(prefix@ =~= self@.take(prefix@.len() as int));
        }
        true
    }

    /// Remove `prefix` from the front, if it is one; the remainder keeps its
    /// order.
    pub fn strip_prefix(&self, prefix: &VPath) -> (r: Option<VPath>)
        ensures
            match r {
                Some(rest) => prefix@.len() <= self@.len() && prefix@ =~= self@.take(
                    prefix@.len() as int,
                ) && rest@ =~= self@.skip(prefix@.len() as int),
                None => !(prefix@.len() <= self@.len() && prefix@ =~= self@.take(
                    prefix@.len() as int,
                )),
            },
    {
        if !self.starts_with(prefix) {
            return None;
        }
        let mut rest: Vec<String> = Vec::new();
        let mut i: usize = prefix.0.len();
        while i < self.0.len()
            invariant
                prefix.0@.len() <= i <= self.0@.len(),
                self@.len() == self.0@.len(),
                rest@.len() == i - prefix.0@.len(),
                forall|t: int|
                    0 <= t < rest@.len() ==> (#[trigger] rest@[t])@ == self@[prefix.0@.len() + t],
            decreases self.0@.len() - i,
        {
            let ghost rest0 = rest@;
            rest.push(self.0[i].clone());
            proof {
                assert(rest@ =~= rest0.push(self.0@[i as int]));
                assert(rest@[rest@.len() - 1]@ == self@[i as int]);
            }
            i = i + 1;
        }
        let out = VPath(rest);
        proof {
            assert(out@ =~= self@.skip(prefix@.len() as int)) by {
                assert(prefix@.len() == prefix.0@.len());
                assert forall|t: int| 0 <= t < out@.len() implies out@[t] == self@.skip(
                    prefix@.len() as int,
                )[t] by {
                    assert(out@[t] == out.0@[t]@);
                }
            }
        }
        Some(out)
    }
}

/// `s` starts with the scheme `file:///`.
pub open spec fn has_scheme(s: Seq<char>) -> bool {
    &&& s.len() >= 8
    &&& s[0] == 'f'
    &&& s[1] == 'i'
    &&& s[2] == 'l'
    &&& s[3] == 'e'
    &&& s[4] == ':'
    &&& s[5] == '/'
    &&& s[6] == '/'
    &&& s[7] == '/'
}

/// `p` ends with the source-file suffix `.orc`.
pub open spec fn ends_orc(p: Seq<char>) -> bool {
    &&& p.len() >= 4
    &&& p[p.len() - 4] == '.'
    &&& p[p.len() - 3] == 'o'
    &&& p[p.len() - 2] == 'r'
    &&& p[p.len() - 1] == 'c'
}

/// Strip one trailing `/`, or failing that one trailing `.orc`.
pub open spec fn strip_suffix_spec(p: Seq<char>) -> Seq<char> {
    if p.len() >= 1 && p.last() == '/' {
        p.drop_last()
    } else if ends_orc(p) {
        p.take(p.len() - 4)
    } else {
        p
    }
}

/// What parsing a URI string yields: the canonical path after the scheme,
/// with a trailing slash or `.orc` suffix stripped; `None` without the
/// scheme.
pub open spec fn parse_spec(s: Seq<char>) -> Option<Seq<char>> {
    if has_scheme(s) {
        Option::Some(strip_suffix_spec(s.skip(8)))
    } else {
        Option::None
    }
}

/// A canonical path neither ends with a slash nor carries the `.orc` suffix.
pub open spec fn uri_wf(u: Seq<char>) -> bool {
    &&& !(u.len() >= 1 && u.last() == '/')
    &&& !ends_orc(u)
}

/// The stringified form: the scheme, the path, and `.orc` iff it names a
/// source file.
pub open spec fn stringify_spec(u: Seq<char>, is_file: bool) -> Seq<char> {
    if is_file {
        seq!['f', 'i', 'l', 'e', ':', '/', '/', '/'] + u + seq!['.', 'o', 'r', 'c']
    } else {
        seq!['f', 'i', 'l', 'e', ':', '/', '/', '/'] + u
    }
}

/// A canonical absolute `file:///` URI: the `/`-joined, percent-encoded path
/// after the scheme, held without a trailing slash and without the `.orc`
/// suffix.
#[derive(Debug)]
pub struct FileUri {
    path: String,
}

impl View for FileUri {
    type V = Seq<char>;

    closed spec fn view(&self) -> Seq<char> {
        self.path@
    }
}

impl Clone for FileUri {
    fn clone(&self) -> (r: FileUri)
        ensures
            r == *self,
            r@ == self@,
    {
        FileUri { path: self.path.clone() }
    }
}

impl FileUri {
    /// Parse a URI string: it must carry the `file:///` scheme; a trailing
    /// slash or `.orc` suffix is stripped on ingest.
    pub fn parse(s: &str) -> (r: Option<FileUri>)
        ensures
            match r {
                Some(uri) => parse_spec(s@) == Option::Some(uri@),
                None => parse_spec(s@) == Option::<Seq<char>>::None,
            },
    {
        let n = s.unicode_len();
        if n < 8 || s.get_char(0) != 'f' || s.get_char(1) != 'i' || s.get_char(2) != 'l'
            || s.get_char(3) != 'e' || s.get_char(4) != ':' || s.get_char(5) != '/' || s.get_char(
            6,
        ) != '/' || s.get_char(7) != '/' {
            return None;
        }
        let rest = s.substring_char(8, n);
        let m = rest.unicode_len();
        proof {
            assert(rest@ =~= s@.skip(8));
        }
        if m >= 1 && rest.get_char(m - 1) == '/' {
            let p = rest.substring_char(0, m - 1);
            proof {
                assert(p@ =~= rest@.drop_last());
            }
            return Some(FileUri { path: p.to_owned() });
        }
        if m >= 4 && rest.get_char(m - 4) == '.' && rest.get_char(m - 3) == 'o' && rest.get_char(
            m - 2,
        ) == 'r' && rest.get_char(m - 1) == 'c' {
            let p = rest.substring_char(0, m - 4);
            proof {
                assert(p@ =~= rest@.take(rest@.len() - 4));
            }
            return Some(FileUri { path: p.to_owned() });
        }
        Some(FileUri { path: rest.to_owned() })
    }

    /// Reattach the scheme, and the `.orc` suffix iff the URI names a source
    /// file.
    pub fn stringify(&self, is_file: bool) -> (r: String)
        ensures
            r@ == stringify_spec(self@, is_file),
    {
        let mut out = "file:///".to_owned();
        proof {
            reveal_strlit("file:///");
            assert(out@ =~= seq!['f', 'i', 'l', 'e', ':', '/', '/', '/']);
        }
        out.append(self.path.as_str());
        if is_file {
            out.append(".orc");
            proof {
                reveal_strlit(".orc");
                assert(".orc"@ =~= seq!['.', 'o', 'r', 'c']);
                assert(out@ =~= stringify_spec(self@, is_file));
            }
        } else {
            proof {
                assert(out@ =~= stringify_spec(self@, is_file));
            }
        }
        out
    }
}

/// Parsing the stringified form of a canonical URI gives the URI back: the
/// ingest round trip is the identity on canonical paths. (A path that itself
/// ends in `.orc` is not canonical and is excluded: its bare stringified form
/// would lose the suffix on ingest.)
pub proof fn lemma_parse_stringify(u: Seq<char>, is_file: bool)
    requires
        uri_wf(u),
    ensures
        parse_spec(stringify_spec(u, is_file)) == Option::Some(u),
{
    let s = stringify_spec(u, is_file);
    assert(has_scheme(s));
    if is_file {
        assert(s.skip(8) =~= u + seq!['.', 'o', 'r', 'c']);
        let p = u + seq!['.', 'o', 'r', 'c'];
        assert(p.last() == 'c');
        assert(ends_orc(p));
        assert(strip_suffix_spec(p) =~= u);
    } else {
        assert(s.skip(8) =~= u);
        assert(strip_suffix_spec(u) =~= u);
    }
}

} // verus!

verus! {

/// The characters a segment list contributes when appended to a URI: a `/`
/// before each segment.
pub open spec fn joined(segs: Seq<Seq<char>>) -> Seq<char>
    decreases segs.len(),
{
    if segs.len() == 0 {
        Seq::empty()
    } else {
        seq!['/'] + segs[0] + joined(segs.drop_first())
    }
}

/// Appending segments to a URI path.
pub open spec fn extended_spec(u: Seq<char>, segs: Seq<Seq<char>>) -> Seq<char> {
    u + joined(segs)
}

pub proof fn lemma_joined_push(segs: Seq<Seq<char>>, x: Seq<char>)
    ensures
        joined(segs.push(x)) =~= joined(segs) + seq!['/'] + x,
    decreases segs.len(),
{
    if segs.len() == 0 {
        assert(segs.push(x)[0] == x);
        assert(segs.push(x).drop_first() =~= Seq::<Seq<char>>::empty());
        assert(segs.push(x).drop_first() == Seq::<Seq<char>>::empty());
        assert(joined(Seq::<Seq<char>>::empty()) == Seq::<char>::empty());
        assert(joined(segs.push(x)) == seq!['/'] + x + Seq::<char>::empty());
        assert(joined(segs.push(x)) =~= joined(segs) + seq!['/'] + x);
    } else {
        assert(segs.push(x).drop_first() =~= segs.drop_first().push(x));
        assert(segs.push(x).drop_first() == segs.drop_first().push(x));
        lemma_joined_push(segs.drop_first(), x);
        assert(segs.push(x)[0] == segs[0]);
        assert(joined(segs.push(x)) == seq!['/'] + segs[0] + (joined(segs.drop_first())
            + seq!['/'] + x));
        assert(joined(segs.push(x)) =~= joined(segs) + seq!['/'] + x);
    }
}

/// The raw path split on `/` into segments; splitting an empty path gives one
/// empty segment.
pub open spec fn split_slash(s: Seq<char>) -> Seq<Seq<char>>
    decreases s.len(),
{
    if s.len() == 0 {
        seq![Seq::<char>::empty()]
    } else if s[0] == '/' {
        seq![Seq::<char>::empty()] + split_slash(s.drop_first())
    } else {
        let rest = split_slash(s.drop_first());
        seq![seq![s[0]] + rest[0]] + rest.drop_first()
    }
}

pub proof fn lemma_split_slash_len(s: Seq<char>)
    ensures
        split_slash(s).len() >= 1,
    decreases s.len(),
{
    if s.len() > 0 {
        lemma_split_slash_len(s.drop_first());
    }
}

/// Unfolding of `split_slash` at the first separator.
pub proof fn lemma_split_slash_sep(s: Seq<char>, d: int)
    requires
        0 <= d < s.len(),
        s[d] == '/',
        forall|m: int| 0 <= m < d ==> s[m] != '/',
    ensures
        split_slash(s) =~= seq![s.take(d)] + split_slash(s.skip(d + 1)),
    decreases d,
{
    if d == 0 {
        assert(s.take(0) =~= Seq::<char>::empty());
        assert(s.drop_first() =~= s.skip(1));
        assert(split_slash(s) =~= seq![s.take(0)] + split_slash(s.skip(1)));
    } else {
        assert(s.drop_first()[d - 1] == '/');
        lemma_split_slash_sep(s.drop_first(), d - 1);
        lemma_split_slash_len(s.skip(d + 1));
        let rest = split_slash(s.drop_first());
        assert(rest =~= seq![s.drop_first().take(d - 1)] + split_slash(s.drop_first().skip(d)));
        assert(rest[0] == s.drop_first().take(d - 1));
        assert(seq![s[0]] + rest[0] =~= s.take(d));
        assert(rest.drop_first() =~= split_slash(s.drop_first().skip(d)));
        assert(s.drop_first().skip(d) =~= s.skip(d + 1));
        assert(split_slash(s) =~= seq![s.take(d)] + split_slash(s.skip(d + 1)));
    }
}

/// `split_slash` on a separator-free path: one segment, the path itself.
pub proof fn lemma_split_slash_last(s: Seq<char>)
    requires
        forall|m: int| 0 <= m < s.len() ==> s[m] != '/',
    ensures
        split_slash(s) =~= seq![s],
    decreases s.len(),
{
    if s.len() == 0 {
        assert(s =~= Seq::<char>::empty());
        assert(split_slash(s) =~= seq![s]);
    } else {
        lemma_split_slash_last(s.drop_first());
        let rest = split_slash(s.drop_first());
        assert(rest == seq![s.drop_first()]);
        assert(rest[0] == s.drop_first());
        assert(seq![s[0]] + rest[0] =~= s);
        assert(rest.drop_first() =~= Seq::<Seq<char>>::empty());
        assert(rest.drop_first() == Seq::<Seq<char>>::empty());
        assert(split_slash(s) == seq![seq![s[0]] + rest[0]] + Seq::<Seq<char>>::empty());
        assert(split_slash(s) =~= seq![s]);
    }
}

/// What stripping a URI prefix yields: an empty path for the URI itself, the
/// `/`-separated remainder segments for a true descendant (the byte after the
/// prefix must be a separator), nothing otherwise.
pub open spec fn to_vpath_spec(u: Seq<char>, pre: Seq<char>) -> Option<Seq<Seq<char>>> {
    if u == pre {
        Option::Some(Seq::<Seq<char>>::empty())
    } else if u.len() > pre.len() && u.take(pre.len() as int) == pre && u[pre.len() as int]
        == '/' {
        Option::Some(split_slash(u.skip(pre.len() as int + 1)))
    } else {
        Option::None
    }
}

/// Joining the segments that `split_slash` produced recovers the path.
pub proof fn lemma_joined_split(rest: Seq<char>)
    ensures
        joined(split_slash(rest)) =~= seq!['/'] + rest,
    decreases rest.len(),
{
    if rest.len() == 0 {
        let ss = split_slash(rest);
        assert(ss == seq![Seq::<char>::empty()]);
        assert(ss[0] == Seq::<char>::empty());
        assert(ss.drop_first() =~= Seq::<Seq<char>>::empty());
        assert(ss.drop_first() == Seq::<Seq<char>>::empty());
        assert(joined(ss) == seq!['/'] + Seq::<char>::empty() + joined(
            Seq::<Seq<char>>::empty(),
        ));
        assert(joined(Seq::<Seq<char>>::empty()) == Seq::<char>::empty());
        assert(joined(split_slash(rest)) =~= seq!['/'] + rest);
    } else if rest[0] == '/' {
        lemma_joined_split(rest.drop_first());
        lemma_split_slash_len(rest.drop_first());
        let ss = split_slash(rest);
        assert(ss[0] == Seq::<char>::empty());
        assert(ss.drop_first() =~= split_slash(rest.drop_first()));
        assert(joined(ss) =~= seq!['/'] + joined(split_slash(rest.drop_first())));
        assert(joined(ss) =~= seq!['/'] + rest);
    } else {
        lemma_joined_split(rest.drop_first());
        lemma_split_slash_len(rest.drop_first());
        let r2 = split_slash(rest.drop_first());
        let ss = split_slash(rest);
        assert(ss[0] == seq![rest[0]] + r2[0]);
        assert(ss.drop_first() =~= r2.drop_first());
        assert(ss.drop_first() == r2.drop_first());
        assert(joined(ss) == seq!['/'] + ss[0] + joined(ss.drop_first()));
        assert(joined(ss.drop_first()) == joined(r2.drop_first()));
        // peel the shared separator off the induction hypothesis
        assert(joined(r2) == seq!['/'] + r2[0] + joined(r2.drop_first()));
        assert(seq!['/'] + r2[0] + joined(r2.drop_first()) =~= seq!['/'] + rest.drop_first());
        assert forall|t: int| 0 <= t < r2[0].len() + joined(r2.drop_first()).len() implies (r2[0]
            + joined(r2.drop_first()))[t] == rest.drop_first()[t] by {
            assert((seq!['/'] + r2[0] + joined(r2.drop_first()))[t + 1] == (seq!['/']
                + rest.drop_first())[t + 1]);
        }
        assert(r2[0] + joined(r2.drop_first()) =~= rest.drop_first());
        assert(joined(ss) =~= seq!['/'] + rest) by {
            assert(rest.drop_first() == r2[0] + joined(r2.drop_first()));
            assert(joined(ss) == seq!['/'] + ss[0] + joined(r2.drop_first()));
            assert(ss[0] == seq![rest[0]] + r2[0]);
            assert(joined(ss).len() == 2 + r2[0].len() + joined(r2.drop_first()).len());
            assert forall|t: int| 0 <= t < joined(ss).len() implies (seq!['/'] + ss[0] + joined(
                r2.drop_first(),
            ))[t] == (seq!['/'] + rest)[t] by {
                if t >= 2 {
                    assert((seq!['/'] + rest)[t] == rest[t - 1]);
                    assert(rest[t - 1] == rest.drop_first()[t - 2]);
                    assert(rest.drop_first()[t - 2] == (r2[0] + joined(r2.drop_first()))[t - 2]);
                }
            }
        }
    }
}

/// Appending the virtual path of a descendant back onto the prefix recovers
/// the descendant: `extended` undoes `to_vpath`.
pub proof fn lemma_to_vpath_extended(u: Seq<char>, pre: Seq<char>)
    requires
        to_vpath_spec(u, pre).is_some(),
    ensures
        extended_spec(pre, to_vpath_spec(u, pre).unwrap()) == u,
{
    if u == pre {
        assert(extended_spec(pre, Seq::<Seq<char>>::empty()) =~= u);
    } else {
        let rest = u.skip(pre.len() as int + 1);
        lemma_joined_split(rest);
        assert(extended_spec(pre, split_slash(rest)) =~= pre + (seq!['/'] + rest));
        assert(pre + (seq!['/'] + rest) =~= u);
    }
}

} // verus!

verus! {

/// Value of a hexadecimal digit character, or a negative number for any
/// other character.
pub open spec fn hexval(c: char) -> int {
    let v = c as u32;
    if 48 <= v <= 57 {
        v - 48
    } else if 65 <= v <= 70 {
        v - 65 + 10
    } else if 97 <= v <= 102 {
        v - 97 + 10
    } else {
        -1
    }
}

pub open spec fn is_hex(c: char) -> bool {
    hexval(c) >= 0
}

/// The bytes a raw segment decodes to: `%` followed by two hexadecimal digits
/// yields one byte; any other character contributes its UTF-8 encoding (an
/// incomplete escape is kept literally).
pub open spec fn decoded_bytes(s: Seq<char>) -> Seq<u8>
    decreases s.len(),
{
    if s.len() == 0 {
        Seq::empty()
    } else if s[0] == '%' && s.len() >= 3 && is_hex(s[1]) && is_hex(s[2]) {
        seq![(hexval(s[1]) * 16 + hexval(s[2])) as u8] + decoded_bytes(s.skip(3))
    } else {
        vstd::utf8::encode_scalar(s[0] as u32) + decoded_bytes(s.skip(1))
    }
}

/// Two raw paths name the same file when their segments decode to the same
/// bytes: encoding differences do not split identities, while an encoded
/// slash stays inside its one segment.
pub open spec fn uri_eq(a: Seq<char>, b: Seq<char>) -> bool {
    split_slash(a).map_values(|seg: Seq<char>| decoded_bytes(seg)) == split_slash(b).map_values(
        |seg: Seq<char>| decoded_bytes(seg),
    )
}

/// Hexadecimal digit value of a character, if it is one.
pub fn hex_digit(c: char) -> (r: Option<u8>)
    ensures
        r.is_some() == is_hex(c),
        r.is_some() ==> r.unwrap() == hexval(c),
{
    let v = c as u32;
    if 48 <= v && v <= 57 {
        Some((v - 48) as u8)
    } else if 65 <= v && v <= 70 {
        Some((v - 65 + 10) as u8)
    } else if 97 <= v && v <= 102 {
        Some((v - 97 + 10) as u8)
    } else {
        None
    }
}

/// The UTF-8 encoding of one character, as the bytes vstd's encoding model
/// assigns to its scalar value.
pub fn utf8_bytes_of(c: char) -> (r: Vec<u8>)
    ensures
        r@ == vstd::utf8::encode_scalar(c as u32),
{
    proof {
        broadcast use vstd::utf8::char_is_scalar;

    }
    let v = c as u32;
    let mut r: Vec<u8> = Vec::new();
    if v <= 0x7F {
        r.push((v & 0x7F) as u8);
        proof {
            assert(r@ =~= vstd::utf8::encode_scalar(v));
        }
    } else if v <= 0x7FF {
        r.push(0xC0u8 | ((v >> 6u32) & 0x1F) as u8);
        r.push(0x80u8 | (v & 0x3F) as u8);
        proof {
            assert(r@ =~= vstd::utf8::encode_scalar(v));
        }
    } else if v <= 0xFFFF {
        r.push(0xE0u8 | ((v >> 12u32) & 0x0F) as u8);
        r.push(0x80u8 | ((v >> 6u32) & 0x3F) as u8);
        r.push(0x80u8 | (v & 0x3F) as u8);
        proof {
            assert(r@ =~= vstd::utf8::encode_scalar(v));
        }
    } else {
        r.push(0xF0u8 | ((v >> 18u32) & 0x7) as u8);
        r.push(0x80u8 | ((v >> 12u32) & 0x3F) as u8);
        r.push(0x80u8 | ((v >> 6u32) & 0x3F) as u8);
        r.push(0x80u8 | (v & 0x3F) as u8);
        proof {
            assert(r@ =~= vstd::utf8::encode_scalar(v));
        }
    }
    r
}

/// Decode the char range `[a, b)` of `s` as one segment.
fn decode_range(s: &str, a: usize, b: usize) -> (r: Vec<u8>)
    requires
        a <= b <= s@.len(),
    ensures
        r@ == decoded_bytes(s@.subrange(a as int, b as int)),
{
    let mut out: Vec<u8> = Vec::new();
    let mut k: usize = a;
    while k < b
        invariant
            a <= k <= b <= s@.len(),
            decoded_bytes(s@.subrange(a as int, b as int)) == out@ + decoded_bytes(
                s@.subrange(k as int, b as int),
            ),
        decreases b - k,
    {
        let ghost seg = s@.subrange(k as int, b as int);
        let c = s.get_char(k);
        proof {
            assert(seg[0] == c);
        }
        if c == '%' && b - k > 2 {
            let c1 = s.get_char(k + 1);
            let c2 = s.get_char(k + 2);
            proof {
                assert(seg[1] == c1 && seg[2] == c2);
            }
            let d1 = hex_digit(c1);
            let d2 = hex_digit(c2);
            if d1.is_some() && d2.is_some() {
                let ghost out0 = out@;
                out.push(d1.unwrap() * 16 + d2.unwrap());
                k = k + 3;
                proof {
                    assert(seg.skip(3) =~= s@.subrange(k as int, b as int));
                    assert(decoded_bytes(seg) == seq![
                        (hexval(seg[1]) * 16 + hexval(seg[2])) as u8,
                    ] + decoded_bytes(seg.skip(3)));
                    assert(out@ =~= out0 + seq![(hexval(seg[1]) * 16 + hexval(seg[2])) as u8]);
                    assert(out@ + decoded_bytes(s@.subrange(k as int, b as int)) =~= out0
                        + decoded_bytes(seg));
                }
                continue ;
            }
        }
        let mut eb = utf8_bytes_of(c);
        let ghost out0 = out@;
        let ghost ebv = eb@;
        out.append(&mut eb);
        k = k + 1;
        proof {
            assert(!(seg[0] == '%' && seg.len() >= 3 && is_hex(seg[1]) && is_hex(seg[2])));
            assert(seg.skip(1) =~= s@.subrange(k as int, b as int));
            assert(decoded_bytes(seg) == vstd::utf8::encode_scalar(seg[0] as u32)
                + decoded_bytes(seg.skip(1)));
            assert(out@ =~= out0 + ebv);
            assert(out@ + decoded_bytes(s@.subrange(k as int, b as int)) =~= out0 + decoded_bytes(
                seg,
            ));
        }
    }
    proof {
        assert(s@.subrange(k as int, b as int) =~= Seq::<char>::empty());
        assert(decoded_bytes(Seq::<char>::empty()) == Seq::<u8>::empty());
        assert(out@ =~= decoded_bytes(s@.subrange(a as int, b as int)));
    }
    out
}

/// The decoded segments of a raw path string.
pub fn decode_segments(s: &str) -> (r: Vec<Vec<u8>>)
    ensures
        r@.map_values(|v: Vec<u8>| v@) == split_slash(s@).map_values(
            |seg: Seq<char>| decoded_bytes(seg),
        ),
{
    let n = s.unicode_len();
    let mut out: Vec<Vec<u8>> = Vec::new();
    let mut a: usize = 0;
    let mut k: usize = 0;
    proof {
        assert(s@.skip(0) =~= s@);
        assert(out@.map_values(|v: Vec<u8>| v@) =~= Seq::<Seq<u8>>::empty());
    }
    while k < n
        invariant
            n == s@.len(),
            a <= k <= n,
            forall|m: int| a <= m < k ==> s@[m] != '/',
            split_slash(s@).map_values(|seg: Seq<char>| decoded_bytes(seg)) =~= out@.map_values(
                |v: Vec<u8>| v@,
            ) + split_slash(s@.skip(a as int)).map_values(|seg: Seq<char>| decoded_bytes(seg)),
        decreases n - k,
    {
        let c = s.get_char(k);
        if c == '/' {
            let ghost out0 = out@;
            let seg = decode_range(s, a, k);
            out.push(seg);
            proof {
                let dec = |seg: Seq<char>| decoded_bytes(seg);
                let rest = s@.skip(a as int);
                lemma_split_slash_sep(rest, k - a);
                assert(rest.take(k - a) =~= s@.subrange(a as int, k as int));
                assert(rest.skip(k - a + 1) =~= s@.skip(k as int + 1));
                assert(split_slash(rest).map_values(dec) =~= seq![
                    decoded_bytes(s@.subrange(a as int, k as int)),
                ] + split_slash(s@.skip(k as int + 1)).map_values(dec));
                assert(out@.map_values(|v: Vec<u8>| v@) =~= out0.map_values(|v: Vec<u8>| v@)
                    + seq![decoded_bytes(s@.subrange(a as int, k as int))]);
            }
            a = k + 1;
        }
        k = k + 1;
    }
    let ghost out0 = out@;
    let seg = decode_range(s, a, n);
    out.push(seg);
    proof {
        let dec = |seg: Seq<char>| decoded_bytes(seg);
        let rest = s@.skip(a as int);
        lemma_split_slash_last(rest);
        assert(rest =~= s@.subrange(a as int, n as int));
        assert(split_slash(rest).map_values(dec) =~= seq![
            decoded_bytes(s@.subrange(a as int, n as int)),
        ]);
        assert(out@.map_values(|v: Vec<u8>| v@) =~= out0.map_values(|v: Vec<u8>| v@) + seq![
            decoded_bytes(s@.subrange(a as int, n as int)),
        ]);
        assert(out@.map_values(|v: Vec<u8>| v@) =~= split_slash(s@).map_values(dec));
    }
    out
}

fn bytes_eq(a: &Vec<u8>, b: &Vec<u8>) -> (r: bool)
    ensures
        r == (a@ == b@),
{
    if a.len() != b.len() {
        proof {
            assert(a@ != b@);
        }
        return false;
    }
    let mut i: usize = 0;
    while i < a.len()
        invariant
            i <= a@.len() == b@.len(),
            forall|t: int| 0 <= t < i ==> a@[t] == b@[t],
        decreases a@.len() - i,
    {
        if a[i] != b[i] {
            return false;
        }
        i = i + 1;
    }
    proof {
        assert(a@ =~= b@);
    }
    true
}

impl FileUri {
    /// Whether two URIs name the same file: their raw paths may differ in
    /// percent-encoding, equality is on the decoded segments.
    pub fn same_uri(&self, other: &FileUri) -> (r: bool)
        ensures
            r == uri_eq(self@, other@),
    {
        let sa = decode_segments(self.as_str());
        let sb = decode_segments(other.as_str());
        let ghost fa = sa@.map_values(|v: Vec<u8>| v@);
        let ghost fb = sb@.map_values(|v: Vec<u8>| v@);
        if sa.len() != sb.len() {
            proof {
                assert(fa.len() != fb.len());
            }
            return false;
        }
        let mut i: usize = 0;
        while i < sa.len()
            invariant
                i <= sa@.len() == sb@.len(),
                fa == sa@.map_values(|v: Vec<u8>| v@),
                fb == sb@.map_values(|v: Vec<u8>| v@),
                fa.len() == sa@.len() && fb.len() == sb@.len(),
                uri_eq(self@, other@) == (fa == fb),
                forall|t: int| 0 <= t < i ==> fa[t] == fb[t],
            decreases sa@.len() - i,
        {
            if !bytes_eq(&sa[i], &sb[i]) {
                proof {
                    assert(fa[i as int] != fb[i as int]);
                    assert(fa != fb);
                }
                return false;
            }
            i = i + 1;
        }
        proof {
            assert(fa =~= fb);
        }
        true
    }

    /// The path's segments, percent-decoded: the bytes each segment names.
    pub fn segments(&self) -> (r: Vec<Vec<u8>>)
        ensures
            r@.map_values(|v: Vec<u8>| v@) == split_slash(self@).map_values(
                |seg: Seq<char>| decoded_bytes(seg),
            ),
    {
        decode_segments(self.path.as_str())
    }

    /// The raw path after the scheme.
    pub fn as_str(&self) -> (r: &str)
        ensures
            r@ == self@,
    {
        self.path.as_str()
    }

    /// Append path segments, separated by `/`.
    pub fn extended(&self, segments: &VPath) -> (r: FileUri)
        ensures
            r@ == extended_spec(self@, segments@),
    {
        let mut out = self.path.clone();
        let mut i: usize = 0;
        while i < segments.0.len()
            invariant
                segments@.len() == segments.0@.len(),
                i <= segments@.len(),
                out@ == self@ + joined(segments@.take(i as int)),
            decreases segments@.len() - i,
        {
            let ghost pre = segments@.take(i as int);
            out.append("/");
            out.append(segments.0[i].as_str());
            proof {
                reveal_strlit("/");
                assert("/"@ =~= seq!['/']);
                lemma_joined_push(pre, segments@[i as int]);
                assert(segments@.take(i as int + 1) =~= pre.push(segments@[i as int]));
                assert(out@ =~= self@ + joined(segments@.take(i as int + 1)));
            }
            i = i + 1;
        }
        proof {
            assert(segments@.take(segments@.len() as int) =~= segments@);
        }
        FileUri { path: out }
    }

    /// Strip `prefix` and split the remainder on `/`: the virtual path of
    /// this URI below the prefix. The URI itself maps to the empty path; a
    /// false byte prefix (no separator after it) yields nothing.
    pub fn to_vpath(&self, prefix: &FileUri) -> (r: Option<VPath>)
        ensures
            match r {
                Some(v) => to_vpath_spec(self@, prefix@) == Option::Some(v@),
                None => to_vpath_spec(self@, prefix@) == Option::<Seq<Seq<char>>>::None,
            },
    {
        let n = self.path.as_str().unicode_len();
        let pn = prefix.path.as_str().unicode_len();
        if self.path == prefix.path {
            return Some(VPath::empty());
        }
        if n <= pn {
            return None;
        }
        let head = self.path.as_str().substring_char(0, pn);
        if !(head.to_owned() == prefix.path) {
            proof {
                assert(head@ =~= self@.take(pn as int));
            }
            return None;
        }
        if self.path.as_str().get_char(pn) != '/' {
            return None;
        }
        proof {
            assert(head@ =~= self@.take(pn as int));
        }
        let s = self.path.as_str();
        let ghost rest = self@.skip(pn as int + 1);
        let mut segs: Vec<String> = Vec::new();
        let mut a: usize = pn + 1;
        let mut k: usize = pn + 1;
        while k < n
            invariant
                s@ == self@,
                n == self@.len(),
                pn + 1 <= a <= k <= n,
                rest == self@.skip(pn as int + 1),
                forall|m: int| a <= m < k ==> self@[m] != '/',
                split_slash(rest) =~= segs@.map_values(|q: String| q@) + split_slash(
                    self@.skip(a as int),
                ),
            decreases n - k,
        {
            let c = s.get_char(k);
            if c == '/' {
                let ghost segs0 = segs@;
                let piece = s.substring_char(a, k);
                segs.push(piece.to_owned());
                proof {
                    let suffix = self@.skip(a as int);
                    lemma_split_slash_sep(suffix, k - a);
                    assert(suffix.take(k - a) =~= self@.subrange(a as int, k as int));
                    assert(piece@ =~= self@.subrange(a as int, k as int));
                    assert(suffix.skip(k - a + 1) =~= self@.skip(k as int + 1));
                    assert(segs@.map_values(|q: String| q@) =~= segs0.map_values(|q: String| q@)
                        + seq![self@.subrange(a as int, k as int)]);
                }
                a = k + 1;
            }
            k = k + 1;
        }
        let ghost segs0 = segs@;
        let piece = s.substring_char(a, n);
        segs.push(piece.to_owned());
        proof {
            let suffix = self@.skip(a as int);
            lemma_split_slash_last(suffix);
            assert(suffix =~= self@.subrange(a as int, n as int));
            assert(piece@ =~= self@.subrange(a as int, n as int));
            assert(segs@.map_values(|q: String| q@) =~= segs0.map_values(|q: String| q@) + seq![
                self@.subrange(a as int, n as int),
            ]);
            assert(segs@.map_values(|q: String| q@) =~= split_slash(rest));
        }
        let out = VPath(segs);
        proof {
            assert(out@ =~= segs@.map_values(|q: String| q@));
        }
        Some(out)
    }
}

/// One entry of the workspace list the client sends when the session starts.
#[derive(Debug)]
pub struct WspaceEnt {
    pub name: String,
    pub uri: FileUri,
}

/// A start and end position in a document.
#[derive(Clone, Copy, Debug, PartialEq, Eq, Structural)]
pub struct DocRange {
    pub start: DocPos,
    pub end: DocPos,
}

/// The fields of an opened text document that the server consumes.
#[derive(Debug)]
pub struct TextDocumentItem {
    pub uri: FileUri,
    pub language_id: String,
    pub version: i64,
    pub text: String,
}

} // verus!
