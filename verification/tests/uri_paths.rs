use orchid_ls::document::{FileUri, VPath};

fn vp(segs: &[&str]) -> VPath {
    VPath::new(segs.iter().map(|s| s.to_string()).collect())
}

#[test]
fn parse_strips_scheme_and_suffix() {
    let a = FileUri::parse("file:///w/p.orc").unwrap();
    assert_eq!(a.stringify(false), "file:///w/p");
    assert_eq!(a.stringify(true), "file:///w/p.orc");
    let b = FileUri::parse("file:///w/dir/").unwrap();
    assert_eq!(b.stringify(false), "file:///w/dir");
    assert!(FileUri::parse("http://example/x").is_none());
    assert!(FileUri::parse("file://host/x").is_none());
}

#[test]
fn stringify_parse_round_trip() {
    let u = FileUri::parse("file:///w/a/b").unwrap();
    let s = u.stringify(true);
    let back = FileUri::parse(&s).unwrap();
    assert!(back.same_uri(&u));
    let s2 = u.stringify(false);
    let back2 = FileUri::parse(&s2).unwrap();
    assert!(back2.same_uri(&u));
}

#[test]
fn vpath_round_trip() {
    let base = FileUri::parse("file:///w").unwrap();
    let full = FileUri::parse("file:///w/a/b.orc").unwrap();
    let rel = full.to_vpath(&base).unwrap();
    assert_eq!(rel.len(), 2);
    let rebuilt = base.extended(&rel);
    assert!(rebuilt.same_uri(&full));
    // the URI itself maps to the empty path
    let self_rel = base.to_vpath(&base).unwrap();
    assert!(self_rel.is_empty());
}

#[test]
fn false_byte_prefix_rejected() {
    // `/foo` is not a prefix of `/foobar`: a separator must follow
    let base = FileUri::parse("file:///foo").unwrap();
    let other = FileUri::parse("file:///foobar").unwrap();
    assert!(other.to_vpath(&base).is_none());
}

#[test]
fn encoded_segments_compare_decoded() {
    let plain = FileUri::parse("file:///w/caf\u{e9}").unwrap();
    let upper = FileUri::parse("file:///w/caf%C3%A9").unwrap();
    let lower = FileUri::parse("file:///w/caf%c3%a9").unwrap();
    assert!(plain.same_uri(&upper));
    assert!(plain.same_uri(&lower));
    // an encoded slash is one segment, not a separator
    let enc = FileUri::parse("file:///w/a%2Fb").unwrap();
    let lit = FileUri::parse("file:///w/a/b").unwrap();
    assert!(!enc.same_uri(&lit));
    // an incomplete escape stays literal
    let pct = FileUri::parse("file:///w/100%").unwrap();
    assert!(pct.same_uri(&FileUri::parse("file:///w/100%25").unwrap()));
}

#[test]
fn vpath_prefix_arithmetic() {
    let p = vp(&["a", "b", "c"]);
    let rest = p.strip_prefix(&vp(&["a", "b"])).unwrap();
    assert_eq!(rest.len(), 1);
    assert!(p.strip_prefix(&vp(&["a", "x"])).is_none());
    assert!(p.starts_with(&vp(&[])));
    let q = vp(&["a"]).pushed(&"b".to_string());
    assert!(vp(&["a", "b"]).starts_with(&q));
    let joined = vp(&["a"]).concat(&vp(&["b", "c"]));
    assert_eq!(joined.len(), 3);
}

#[test]
fn segments_decode() {
    let u = FileUri::parse("file:///w/a%20b").unwrap();
    let segs = u.segments();
    assert_eq!(segs.len(), 2);
    assert_eq!(segs[0], b"w".to_vec());
    assert_eq!(segs[1], b"a b".to_vec());
}
