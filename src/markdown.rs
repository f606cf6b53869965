use vstd::prelude::*;
use crate::text::{chars_of, string_of};

verus! {

/// The HTML that markx makes of a markdown text.
pub uninterp spec fn html_of(md: Seq<char>) -> Seq<char>;

/// The entity written in place of a double quote before conversion.
pub open spec fn quote_entity() -> Seq<char> {
    seq!['&', 'q', 'u', 'o', 't', ';']
}

/// `s` with every double quote written as the entity `&quot;`.
pub open spec fn escape_quotes(s: Seq<char>) -> Seq<char>
    decreases s.len(),
{
    if s.len() == 0 {
        Seq::empty()
    } else {
        escape_quotes(s.drop_last()) + if s.last() == '"' {
            quote_entity()
        } else {
            seq![s.last()]
        }
    }
}

/// The HTML of a markdown text as this library renders it.
pub open spec fn rendered_markdown(md: Seq<char>) -> Seq<char> {
    html_of(escape_quotes(md))
}

/// Relies on `markx::html::mark2html`, which turns markdown into HTML and depends
/// on its input alone. Its inline parser indexes past the end of its tag list on
/// some titled links, which can only arise where the text holds a double quote:
/// such text is kept out.
#[verifier::external_body]
fn mark2html(md: &String) -> (r: String)
    requires
        !md@.contains('"'),
    ensures
        r@ == html_of(md@),
{
    markx::html::mark2html(md)
}

proof fn lemma_escape_has_no_quote(s: Seq<char>)
    ensures
        !escape_quotes(s).contains('"'),
    decreases s.len(),
{
    if s.len() > 0 {
        lemma_escape_has_no_quote(s.drop_last());
        let a = escape_quotes(s.drop_last());
        let b = if s.last() == '"' { quote_entity() } else { seq![s.last()] };
        assert forall|i: int| 0 <= i < (a + b).len() implies (a + b)[i] != '"' by {
            if i >= a.len() {
                assert(b[i - a.len()] != '"');
            } else {
                assert(a[i] != '"');
            }
        }
    }
}

/// Converts a markdown text to HTML. Double quotes are written as `&quot;`
/// first, which a browser shows as the same character; the conversion never
/// fails, and text that it does not recognise passes through. The price is
/// that a link or image with a quoted title, such as `[a](u "t")`, loses its
/// title: the escaped title is read as part of the link's target.
pub fn markdown_to_html(md: &str) -> (r: String)
    ensures
        r@ == rendered_markdown(md@),
{
    let cs = chars_of(md);
    let mut out: Vec<char> = Vec::new();
    let mut i: usize = 0;
    while i < cs.len()
        invariant
            i <= cs@.len(),
            cs@ == md@,
            out@ == escape_quotes(md@.subrange(0, i as int)),
        decreases cs@.len() - i,
    {
        let c = cs[i];
        if c == '"' {
            out.push('&');
            out.push('q');
            out.push('u');
            out.push('o');
            out.push('t');
            out.push(';');
        } else {
            out.push(c);
        }
        proof {
            let p = md@.subrange(0, i + 1);
            assert(p.drop_last() =~= md@.subrange(0, i as int));
            assert(p.last() == c);
            assert(out@ =~= escape_quotes(p));
        }
        i = i + 1;
    }
    proof {
        assert(md@.subrange(0, md@.len() as int) =~= md@);
        lemma_escape_has_no_quote(md@);
    }
    let escaped = string_of(out.as_slice());
    mark2html(&escaped)
}

} // verus!
