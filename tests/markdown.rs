use blogserve::markdown::markdown_to_html;

#[test]
fn plain_line_becomes_paragraph() {
    assert_eq!(markdown_to_html("hello"), "<p>hello</p>");
}

#[test]
fn empty_text_gives_empty_html() {
    assert_eq!(markdown_to_html(""), "");
}

#[test]
fn quotes_are_written_as_entities() {
    assert_eq!(markdown_to_html("say \"hi\""), "<p>say &quot;hi&quot;</p>");
}

#[test]
fn unterminated_titled_link_does_not_fault() {
    assert_eq!(markdown_to_html("[a](b \"c"), "<p>[a](b &quot;c</p>");
}

#[test]
fn fenced_code_keeps_its_text_uninterpreted() {
    let html = markdown_to_html("```rust\nlet x = *y*;\n```");
    assert_eq!(html, "<pre><code class=\"language-rust\">let x = *y*;\n</code></pre>");
}

#[test]
fn malformed_markup_passes_through() {
    let html = markdown_to_html("**unclosed and [broken](");
    assert!(html.contains("unclosed"));
}
