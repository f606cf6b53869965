use blogserve::page::{
    error_fields, error_page, error_page_from, not_found_page, post_fields, post_page_html, render_post, BlogError,
    ReadFailure,
};
use blogserve::slug::{name_to_slug, post_file_path, slug_is_safe, slug_to_name};

#[test]
fn slug_and_name_convert_both_ways() {
    assert_eq!(slug_to_name("my-first-post"), "my first post");
    assert_eq!(name_to_slug("my first post"), "my-first-post");
}

#[test]
fn post_path_replaces_separators() {
    assert_eq!(post_file_path("blogs", "my-post"), Some("blogs/my post.md".to_string()));
}

#[test]
fn traversal_slugs_name_no_post() {
    assert!(!slug_is_safe("../secret"));
    assert!(!slug_is_safe("a\\b"));
    assert!(!slug_is_safe(""));
    assert_eq!(post_file_path("blogs", "../etc/passwd"), None);
    assert_eq!(
        render_post("../etc/passwd", Ok("x".to_string())).err(),
        Some(BlogError::NotFound)
    );
}

#[test]
fn missing_post_is_not_found() {
    assert_eq!(
        render_post("no-such-post", Err(ReadFailure::NotFound)).err(),
        Some(BlogError::NotFound)
    );
    assert_eq!(
        render_post("%%%~~~", Err(ReadFailure::NotFound)).err(),
        Some(BlogError::NotFound)
    );
}

#[test]
fn unreadable_post_is_storage_error() {
    assert_eq!(
        render_post("post", Err(ReadFailure::Other)).err(),
        Some(BlogError::Storage)
    );
}

#[test]
fn post_renders_title_and_body() {
    let page = render_post("my-post", Ok("hello".to_string())).unwrap();
    assert_eq!(page.title, "my post");
    assert_eq!(page.body_html, "<p>hello</p>");
}

#[test]
fn post_template_is_filled() {
    let mut engine = tera::Tera::default();
    engine
        .add_raw_template("blog.html", "{{ title }}|{{ rendered_blog | safe }}")
        .unwrap();
    let page = render_post("my-post", Ok("hello".to_string())).unwrap();
    assert_eq!(post_page_html(&engine, &page), Ok("my post|<p>hello</p>".to_string()));
}

#[test]
fn missing_post_template_is_template_error() {
    let engine = tera::Tera::default();
    let page = render_post("p", Ok("x".to_string())).unwrap();
    assert_eq!(post_page_html(&engine, &page), Err(BlogError::Template));
}

#[test]
fn error_page_falls_back_to_plain_text() {
    let page = error_page(None, "Page not found", "404");
    assert_eq!(page.content_type, "text/plain");
    assert_eq!(page.body, "Page not found");
    let engine = tera::Tera::default();
    let page = error_page(Some(&engine), "Page not found", "404");
    assert_eq!(page.content_type, "text/plain");
    assert_eq!(page.body, "Page not found");
}

#[test]
fn error_page_uses_template_when_it_renders() {
    let mut engine = tera::Tera::default();
    engine
        .add_raw_template("error.html", "{{ status_code }}: {{ error }}")
        .unwrap();
    let page = not_found_page(Some(&engine));
    assert_eq!(page.content_type, "text/html");
    assert_eq!(page.body, "404: Page not found");
}

#[test]
fn error_page_from_outcome() {
    let page = error_page_from(Some("<b>x</b>".to_string()), "oops");
    assert_eq!(page.content_type, "text/html");
    assert_eq!(page.body, "<b>x</b>");
    let page = error_page_from(None, "oops");
    assert_eq!(page.content_type, "text/plain");
    assert_eq!(page.body, "oops");
}

#[test]
fn post_fields_carry_title_and_body() {
    let page = render_post("my-post", Ok("hello".to_string())).unwrap();
    assert_eq!(
        post_fields(&page),
        vec![
            ("title".to_string(), "my post".to_string()),
            ("rendered_blog".to_string(), "<p>hello</p>".to_string()),
        ]
    );
}

#[test]
fn error_fields_carry_message_and_status() {
    assert_eq!(
        error_fields("boom", "500"),
        vec![
            ("error".to_string(), "boom".to_string()),
            ("status_code".to_string(), "500".to_string()),
        ]
    );
}

#[test]
fn error_page_fills_template_with_status() {
    let mut engine = tera::Tera::default();
    engine
        .add_raw_template("error.html", "{{status_code}}: {{error}}")
        .unwrap();
    let page = error_page(Some(&engine), "boom", "500");
    assert_eq!(page.content_type, "text/html");
    assert_eq!(page.body, "500: boom");
}
