use picilisp::highlight::{highlight_parens, highlight_parens_layout, StringWithCursor, HighlightedParens, Shade};



#[test]
fn tests_highlight_parens_empty() {
    let s = "";
    let c = 0;
    let hp = highlight_parens(StringWithCursor { string: s, cursor: c });
    assert!(matches!(hp, HighlightedParens::NotOnParen));
}

#[test]
fn tests_highlight_parens_no_parens() {
          // 0123456789
    let s = "one two three (four)";
    let c = 5;
    let hp = highlight_parens(StringWithCursor { string: s, cursor: c });
    assert!(matches!(hp, HighlightedParens::NotOnParen));
}

#[test]
fn highlight_parens_unbalenced_open() {
          // 0123456789
    let s = "one(two(three four";
    let c = 7;
    let hp = highlight_parens(StringWithCursor { string: s, cursor: c });
    assert!(matches!(hp, HighlightedParens::UnbalancedOpen(7)));
}

#[test]
fn highlight_parens_unbalenced_close() {
          // 0123456789
    let s = "one)two three (four)";
    let c = 3;
    let hp = highlight_parens(StringWithCursor { string: s, cursor: c });
    assert!(matches!(hp, HighlightedParens::UnbalancedClose(3)));
}

#[test]
fn highlight_parens_ok_on_open() {
          // 0123456789
    let s = "one (two) three (four)";
    let c = 4;
    let hp = highlight_parens(StringWithCursor { string: s, cursor: c });
    assert!(matches!(hp, HighlightedParens::Matched(4, 8)));
}

#[test]
fn highlight_parens_ok_on_close() {
          // 0123456789
    let s = "one (two) three (four)";
    let c = 8;
    let hp = highlight_parens(StringWithCursor { string: s, cursor: c });
    assert!(matches!(hp, HighlightedParens::Matched(4, 8)));
}

#[test]
fn highlight_parens_ok_nested() {
          // 0123456789
    let s = "(one (two) three four)";
    let c = 5;
    let hp = highlight_parens(StringWithCursor { string: s, cursor: c });
    assert!(matches!(hp, HighlightedParens::Matched(5, 9)));
}

#[test]
fn highlight_parens_ok_tight() {
          // 0123456789
    let s = "one two () three (four)";
    let c = 9;
    let hp = highlight_parens(StringWithCursor { string: s, cursor: c });
    assert!(matches!(hp, HighlightedParens::Matched(8, 9)));
}

#[test]
fn tests_highlight_parens_only_parens() {
          // 0123456789
    let s = "(())()";
    let c = 3;
    let hp = highlight_parens(StringWithCursor { string: s, cursor: c });
    assert!(matches!(hp, HighlightedParens::Matched(0, 3)));
}

#[test]
fn highlight_parens_unbalenced_open_nested() {
          // 0123456789
    let s = "(one (two (three) four)";
    let c = 0;
    let hp = highlight_parens(StringWithCursor { string: s, cursor: c });
    assert!(matches!(hp, HighlightedParens::UnbalancedOpen(0)));
}


#[test]
fn highlight_parens_unbalenced_close_nested() {
          // 0123456789
    let s = "((one)))";
    let c = 7;
    let hp = highlight_parens(StringWithCursor { string: s, cursor: c });
    assert!(matches!(hp, HighlightedParens::UnbalancedClose(7)));
}

fn spans(s: &str, cursor: usize, style: &str, unbalanced_style: &str) -> String {
    let mut out = String::new();
    for segment in highlight_parens_layout(cursor.saturating_sub(1), s) {
        match segment.shade {
            Shade::Plain => out.push_str(&segment.text),
            Shade::Matched => out.push_str(&format!("<span style='{style}'>{}</span>", segment.text)),
            Shade::Unbalanced => out.push_str(&format!("<span style='{unbalanced_style}'>{}</span>", segment.text)),
        }
    }
    out
}

#[test]
fn highlight_parens_empty() {
    let s  = "";
    let cursor = 1;
    let style = "color: green;";
    let unbalanced_style = "color: red;";
    let hs = spans(s, cursor, style, unbalanced_style);

    assert_eq!(hs, "");
}

#[test]
fn highlight_parens_no_parens() {
    let s  = "The quick brown fox jumps over the lazy dog.";
    let cursor = 10;
    let style = "background-color: blue;";
    let unbalanced_style = "color: red;";
    let hs = spans(s, cursor, style, unbalanced_style);

    assert_eq!(hs, "The quick brown fox jumps over the lazy dog.");
}

#[test]
fn highlight_parens_only_parens() {
    let s  = "(())";
    let cursor = 1;
    let style = "color: cyan;";
    let unbalanced_style = "color: red;";
    let hs = spans(s, cursor, style, unbalanced_style);

    assert_eq!(hs, "<span style='color: cyan;'>(</span>()<span style='color: cyan;'>)</span>");
}

#[test]
fn highlight_parens_cursor_not_on_paren() {
    let s  = "(+ 1 (+ 2 3))";
    let cursor = 4;
    let style = "color: yellow;";
    let unbalanced_style = "color: red;";
    let hs = spans(s, cursor, style, unbalanced_style);

    assert_eq!(hs, "(+ 1 (+ 2 3))");
}

#[test]
fn highlight_parens_cursor_on_open_paren() {
    let s  = "(+ 1 (+ 2 3))";
    let cursor = 1;
    let style = "color: green;";
    let unbalanced_style = "color: red;";
    let hs = spans(s, cursor, style, unbalanced_style);

    assert_eq!(hs, "<span style='color: green;'>(</span>+ 1 (+ 2 3)<span style='color: green;'>)</span>");
}

#[test]
fn highlight_parens_cursor_on_close_paren() {
    let s  = "(list (1) 2 3)";
    let cursor = 9;
    let style = "color: green;";
    let unbalanced_style = "color: red;";
    let hs = spans(s, cursor, style, unbalanced_style);

    assert_eq!(hs, "(list <span style='color: green;'>(</span>1<span style='color: green;'>)</span> 2 3)");
}

#[test]
fn highlight_parens_cursor_on_unbalanced_right() {
    let s  = "(list (1) 2 3";
    let cursor = 1;
    let style = "color: green;";
    let unbalanced_style = "color: red;";
    let hs = spans(s, cursor, style, unbalanced_style);

    assert_eq!(hs, "<span style='color: red;'>(</span>list (1) 2 3");
}

#[test]
fn highlight_parens_cursor_on_unbalanced_left() {
    let s  = "list 1 2)";
    let cursor = 9;
    let style = "color: green;";
    let unbalanced_style = "color: red;";
    let hs = spans(s, cursor, style, unbalanced_style);

    assert_eq!(hs, "list 1 2<span style='color: red;'>)</span>");
}

#[test]
fn layout_pieces_cover_the_text() {
    let text = "a(b)c";
    let pieces = highlight_parens_layout(1, text);
    let joined: String = pieces.iter().map(|p| p.text.clone()).collect();
    assert_eq!(joined, text);
    assert_eq!(pieces.len(), 5);
    assert_eq!(pieces[1].shade, Shade::Matched);
    assert_eq!(pieces[2].text, "b");
}
