use vstd::prelude::*;
use crate::markdown::{markdown_to_html, rendered_markdown};
use crate::slug::{is_safe_slug, name_of_slug, slug_is_safe, slug_to_name};

verus! {

#[verifier::external_type_specification]
#[verifier::external_body]
pub struct ExTera(tera::Tera);

#[verifier::external_type_specification]
#[verifier::external_body]
pub struct ExTeraError(tera::Error);

/// Why the source of a post could not be read.
#[derive(Clone, Copy, Debug, PartialEq, Eq, Structural)]
pub enum ReadFailure {
    /// No file has the post's name.
    NotFound,
    /// The file exists but reading it failed.
    Other,
}

/// Why a page could not be produced.
#[derive(Clone, Copy, Debug, PartialEq, Eq, Structural)]
pub enum BlogError {
    /// No post answers to the slug.
    NotFound,
    /// The storage directory or a post's file could not be read.
    Storage,
    /// The template engine failed to fill a template.
    Template,
}

/// A post ready for its template: its title and its body as HTML.
#[derive(Clone, Debug)]
pub struct RenderedPage {
    pub title: String,
    pub body_html: String,
}

/// An error response's body and the content type to send it with.
#[derive(Clone, Debug)]
pub struct ErrorPage {
    pub content_type: String,
    pub body: String,
}

/// Relies on tera's `Tera::render`: fills the named template with the given
/// string values. What comes out depends on the templates the engine was
/// loaded with, so nothing is stated of it.
#[verifier::external_body]
fn render_template(engine: &tera::Tera, template: &str, fields: &Vec<(String, String)>) -> (r:
    Result<String, tera::Error>) {
    let mut ctx = tera::Context::new();
    for (key, value) in fields.iter() {
        ctx.insert(key.as_str(), value);
    }
    engine.render(template, &ctx)
}

/// Turns the outcome of reading a post's source into the page to show.
/// A slug that is not a single path segment names no post, whatever was read.
pub fn render_post(slug: &str, source: Result<String, ReadFailure>) -> (r: Result<
    RenderedPage,
    BlogError,
>)
    ensures
        !is_safe_slug(slug@) ==> r == Err::<RenderedPage, BlogError>(BlogError::NotFound),
        is_safe_slug(slug@) ==> match source {
            Ok(text) => r matches Ok(page) && page.title@ == name_of_slug(slug@)
                && page.body_html@ == rendered_markdown(text@),
            Err(ReadFailure::NotFound) => r == Err::<RenderedPage, BlogError>(
                BlogError::NotFound,
            ),
            Err(ReadFailure::Other) => r == Err::<RenderedPage, BlogError>(BlogError::Storage),
        },
{
    if !slug_is_safe(slug) {
        return Err(BlogError::NotFound);
    }
    match source {
        Ok(text) => {
            let title = slug_to_name(slug);
            let body_html = markdown_to_html(text.as_str());
            Ok(RenderedPage { title, body_html })
        },
        Err(ReadFailure::NotFound) => Err(BlogError::NotFound),
        Err(ReadFailure::Other) => Err(BlogError::Storage),
    }
}

/// The values that the post template receives: `title` and `rendered_blog`.
pub fn post_fields(page: &RenderedPage) -> (r: Vec<(String, String)>)
    ensures
        r@.len() == 2,
        r@[0].0@ == "title"@ && r@[0].1@ == page.title@,
        r@[1].0@ == "rendered_blog"@ && r@[1].1@ == page.body_html@,
{
    vec![
        ("title".to_owned(), page.title.clone()),
        ("rendered_blog".to_owned(), page.body_html.clone()),
    ]
}

/// Fills the post template `blog.html` with the values of `post_fields`;
/// a failure of the engine is a template error.
pub fn post_page_html(engine: &tera::Tera, page: &RenderedPage) -> (r: Result<String, BlogError>)
    ensures
        r matches Err(e) ==> e == BlogError::Template,
{
    let fields = post_fields(page);
    match render_template(engine, "blog.html", &fields) {
        Ok(html) => Ok(html),
        Err(_) => Err(BlogError::Template),
    }
}

/// The values that the error template receives: `error` and `status_code`.
pub fn error_fields(error: &str, status_code: &str) -> (r: Vec<(String, String)>)
    ensures
        r@.len() == 2,
        r@[0].0@ == "error"@ && r@[0].1@ == error@,
        r@[1].0@ == "status_code"@ && r@[1].1@ == status_code@,
{
    vec![
        ("error".to_owned(), error.to_owned()),
        ("status_code".to_owned(), status_code.to_owned()),
    ]
}

/// The error response made from the outcome of rendering the error template:
/// the rendered HTML where there is one, else the bare message as plain text.
pub fn error_page_from(rendered: Option<String>, error: &str) -> (r: ErrorPage)
    ensures
        rendered matches Some(html) ==> r.body == html && r.content_type@ == "text/html"@,
        rendered is None ==> r.body@ == error@ && r.content_type@ == "text/plain"@,
{
    match rendered {
        Some(html) => ErrorPage { content_type: "text/html".to_owned(), body: html },
        None => ErrorPage { content_type: "text/plain".to_owned(), body: error.to_owned() },
    }
}

/// The error response for `error` with the given status code: the template
/// `error.html` filled with the values of `error_fields` where an engine is at
/// hand and the template renders (the outcome then goes through
/// `error_page_from`), else the bare message as plain text.
pub fn error_page(engine: Option<&tera::Tera>, error: &str, status_code: &str) -> (r: ErrorPage)
    ensures
        r.content_type@ == "text/html"@ || (r.content_type@ == "text/plain"@ && r.body@
            == error@),
        engine is None ==> r.body@ == error@ && r.content_type@ == "text/plain"@,
{
    let rendered = match engine {
        Some(t) => {
            let fields = error_fields(error, status_code);
            match render_template(t, "error.html", &fields) {
                Ok(html) => Some(html),
                Err(_) => None,
            }
        },
        None => None,
    };
    error_page_from(rendered, error)
}

/// The response for a page that does not exist.
pub fn not_found_page(engine: Option<&tera::Tera>) -> (r: ErrorPage)
    ensures
        r.content_type@ == "text/html"@ || (r.content_type@ == "text/plain"@ && r.body@
            == "Page not found"@),
        engine is None ==> r.body@ == "Page not found"@ && r.content_type@ == "text/plain"@,
{
    error_page(engine, "Page not found", "404")
}

} // verus!
