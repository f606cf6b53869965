use vstd::prelude::*;
use crate::text::{chars_of, string_of};

verus! {

/// Every occurrence of `from` in `s` replaced by `to`.
pub open spec fn replace_char(s: Seq<char>, from: char, to: char) -> Seq<char> {
    Seq::new(s.len(), |i: int| if s[i] == from { to } else { s[i] })
}

/// The post name that a slug stands for: each `-` read as a space.
pub open spec fn name_of_slug(slug: Seq<char>) -> Seq<char> {
    replace_char(slug, '-', ' ')
}

/// The slug under which a post name is published: each space written as `-`.
pub open spec fn slug_of_name(name: Seq<char>) -> Seq<char> {
    replace_char(name, ' ', '-')
}

/// A slug can be looked up only when it is one non-empty path segment:
/// no separator of either platform and no NUL, so that the file it names
/// stays inside the storage directory.
pub open spec fn is_safe_slug(slug: Seq<char>) -> bool {
    &&& slug.len() > 0
    &&& !slug.contains('/')
    &&& !slug.contains('\\')
    &&& !slug.contains('\0')
}

/// The extension of a post's file.
pub open spec fn post_extension() -> Seq<char> {
    seq!['.', 'm', 'd']
}

/// The path of the file that holds the post with this slug, under `dir`.
pub open spec fn post_path(dir: Seq<char>, slug: Seq<char>) -> Seq<char> {
    dir + seq!['/'] + name_of_slug(slug) + post_extension()
}

fn replace_in(s: &str, from: char, to: char) -> (r: String)
    ensures
        r@ == replace_char(s@, from, to),
{
    let cs = chars_of(s);
    let mut out: Vec<char> = Vec::new();
    let mut i: usize = 0;
    while i < cs.len()
        invariant
            i <= cs@.len(),
            cs@ == s@,
            out@ == replace_char(s@.subrange(0, i as int), from, to),
        decreases cs@.len() - i,
    {
        let c = cs[i];
        if c == from {
            out.push(to);
        } else {
            out.push(c);
        }
        proof {
            assert(replace_char(s@.subrange(0, i + 1), from, to) =~= replace_char(
                s@.subrange(0, i as int),
                from,
                to,
            ).push(if c == from { to } else { c }));
        }
        i = i + 1;
    }
    proof {
        assert(s@.subrange(0, s@.len() as int) =~= s@);
    }
    string_of(out.as_slice())
}

/// The post name for a slug: each `-` becomes a space.
pub fn slug_to_name(slug: &str) -> (r: String)
    ensures
        r@ == name_of_slug(slug@),
{
    replace_in(slug, '-', ' ')
}

/// The slug for a post name: each space becomes `-`.
pub fn name_to_slug(name: &str) -> (r: String)
    ensures
        r@ == slug_of_name(name@),
{
    replace_in(name, ' ', '-')
}

/// Whether the slug is a single non-empty path segment.
pub fn slug_is_safe(slug: &str) -> (r: bool)
    ensures
        r == is_safe_slug(slug@),
{
    let cs = chars_of(slug);
    if cs.len() == 0 {
        return false;
    }
    let mut i: usize = 0;
    while i < cs.len()
        invariant
            i <= cs@.len(),
            cs@ == slug@,
            forall|j: int| 0 <= j < i ==> cs@[j] != '/' && cs@[j] != '\\' && cs@[j] != '\0',
        decreases cs@.len() - i,
    {
        let c = cs[i];
        if c == '/' || c == '\\' || c == '\0' {
            assert(slug@[i as int] == c);
            return false;
        }
        i = i + 1;
    }
    true
}

/// The path of the file for `slug` under `dir`, or `None` when the slug is
/// not a single path segment and so names no post.
pub fn post_file_path(dir: &str, slug: &str) -> (r: Option<String>)
    ensures
        r is Some <==> is_safe_slug(slug@),
        r matches Some(p) ==> p@ == post_path(dir@, slug@),
{
    if !slug_is_safe(slug) {
        return None;
    }
    let mut out = chars_of(dir);
    out.push('/');
    let name = chars_of(slug);
    let mut i: usize = 0;
    let ghost start = out@;
    while i < name.len()
        invariant
            i <= name@.len(),
            name@ == slug@,
            start == dir@ + seq!['/'],
            out@ == start + replace_char(slug@.subrange(0, i as int), '-', ' '),
        decreases name@.len() - i,
    {
        let c = name[i];
        if c == '-' {
            out.push(' ');
        } else {
            out.push(c);
        }
        proof {
            assert(replace_char(slug@.subrange(0, i + 1), '-', ' ') =~= replace_char(
                slug@.subrange(0, i as int),
                '-',
                ' ',
            ).push(if c == '-' { ' ' } else { c }));
        }
        i = i + 1;
    }
    out.push('.');
    out.push('m');
    out.push('d');
    proof {
        assert(slug@.subrange(0, slug@.len() as int) =~= slug@);
        assert(out@ =~= post_path(dir@, slug@));
    }
    Some(string_of(out.as_slice()))
}

} // verus!
