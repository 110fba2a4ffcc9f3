use orchid_ls::docpos::DocPos;
use orchid_ls::pipeline::token_records;
use orchid_ls::tokens::{legend_index, ttypes, SemToken, TokenType};

fn s(range: std::ops::Range<usize>, code: &str) -> Vec<(usize, usize)> {
    SemToken::new(range.start, range.end, TokenType::Function)
        .split(code)
        .into_iter()
        .map(|t| (t.start(), t.end()))
        .collect()
}

#[test]
fn splitting() {
    assert_eq!(s(1..3, "foobarbaz"), [(1, 3)], "No splitting");
    assert_eq!(s(2..7, "foo\nbar\nbaz"), [(2, 3), (4, 7)], "1 split ends before newline");
    assert_eq!(
        s(2..12, "foo\nbar\n\nbaz"),
        [(2, 3), (4, 7), (9, 12)],
        "2 splits through empty line"
    );
}

#[test]
fn splitting_keeps_type() {
    let parts = SemToken::new(0, 3, TokenType::Keyword).split("a\nb");
    assert_eq!(parts.len(), 2);
    assert!(parts.iter().all(|t| t.typ() == TokenType::Keyword));
}

#[test]
fn legend_order() {
    let names = ttypes();
    let expected =
        ["namespace", "variable", "parameter", "function", "macro", "comment", "operator",
            "string", "number", "keyword"];
    assert_eq!(names.len(), expected.len());
    for (i, n) in names.iter().enumerate() {
        assert_eq!(n, expected[i]);
    }
    assert_eq!(legend_index(TokenType::Namespace), 0);
    assert_eq!(legend_index(TokenType::Function), 3);
    assert_eq!(legend_index(TokenType::Keyword), 9);
}

#[test]
fn transcode_positions() {
    // two tokens over "foo\nbar": one crosses the newline
    let text = "foo\nbar";
    let toks = vec![
        SemToken::new(0, 3, TokenType::Function),
        SemToken::new(2, 7, TokenType::Operator),
    ];
    let out = SemToken::vscode(toks, text);
    // fragments: 0..3 function, 2..3 operator, 4..7 operator; sorted by position
    assert_eq!(out.len(), 3);
    assert_eq!(out[0].0, DocPos::new(0, 0));
    assert_eq!(out[0].1, 3);
    assert_eq!(out[0].2.typ(), TokenType::Function);
    assert_eq!(out[1].0, DocPos::new(0, 2));
    assert_eq!(out[1].1, 1);
    assert_eq!(out[2].0, DocPos::new(1, 0));
    assert_eq!(out[2].1, 3);
}

#[test]
fn transcode_utf16_lengths() {
    // "𝕏x": the wide char is one fragment of UTF-16 length 2
    let text = "𝕏x";
    let toks = vec![SemToken::new(0, 5, TokenType::Str)];
    let out = SemToken::vscode(toks, text);
    assert_eq!(out.len(), 1);
    assert_eq!(out[0].0, DocPos::new(0, 0));
    assert_eq!(out[0].1, 3);
}

#[test]
fn records_carry_legend_index() {
    let text = "foo";
    let toks = vec![SemToken::new(0, 3, TokenType::Number)];
    let recs = token_records(toks, text);
    assert_eq!(recs, vec![(0, 0, 3, Some(8))]);
}
