use orchid_ls::docpos::{bpos2docpos, docpos2bpos, DocPos};

#[test]
fn doc2b2doc() {
    let doc_poses = vec![(DocPos::new(0, 5), 0), (DocPos::new(1, 3), 1), (DocPos::new(1, 7), 2)];
    let text = "Lorem ipsum\ndolor sit amet\nconsectetur adipiscing elit";
    let b_poses = vec![(5, 0), (15, 1), (19, 2)];
    assert_eq!(docpos2bpos(doc_poses.clone(), text), b_poses, "Multiple doc2b");
    assert_eq!(docpos2bpos(vec![(DocPos::new(0, 9), 0)], "Test szöveg"), vec![(10, 0)], "unicode");
    assert_eq!(bpos2docpos(b_poses, text), doc_poses, "Multiple b2doc");
    assert_eq!(bpos2docpos(vec![(10, 0)], "Test szöveg"), vec![(DocPos::new(0, 9), 0)], "unicode");
}

#[test]
fn codec_duplicates_kept() {
    let text = "ab\ncd";
    let poses = vec![(DocPos::new(1, 1), "x"), (DocPos::new(1, 1), "y"), (DocPos::new(0, 0), "z")];
    let offs = docpos2bpos(poses, text);
    assert_eq!(offs.len(), 3);
    assert_eq!(offs[0], (0, "z"));
    assert_eq!(offs[1].0, 4);
    assert_eq!(offs[2].0, 4);
    let back = bpos2docpos(offs, text);
    assert_eq!(back[0], (DocPos::new(0, 0), "z"));
    assert_eq!(back[1].0, DocPos::new(1, 1));
    assert_eq!(back[2].0, DocPos::new(1, 1));
}

#[test]
fn codec_sorts_by_position() {
    let text = "one\ntwo three";
    let poses = vec![(DocPos::new(1, 4), 1), (DocPos::new(0, 1), 2), (DocPos::new(1, 0), 3)];
    let offs = docpos2bpos(poses, text);
    assert_eq!(offs, vec![(1, 2), (4, 3), (8, 1)]);
}

#[test]
fn codec_end_of_text_offset() {
    // the text's total byte length is a valid offset for the reverse codec
    let text = "ab";
    let back = bpos2docpos(vec![(2, 0)], text);
    assert_eq!(back, vec![(DocPos::new(0, 2), 0)]);
}

#[test]
fn codec_wide_chars() {
    // a supplementary-plane character is 4 bytes in UTF-8, 2 UTF-16 units
    let text = "a𝕏b";
    let offs = docpos2bpos(vec![(DocPos::new(0, 3), ())], text);
    assert_eq!(offs, vec![(5, ())]);
    let back = bpos2docpos(vec![(1, ())], text);
    assert_eq!(back, vec![(DocPos::new(0, 1), ())]);
}
