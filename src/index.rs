use vstd::prelude::*;
use crate::slug::{
    is_safe_slug, name_of_slug, name_to_slug, post_extension, post_path, slug_of_name,
};
use crate::text::{chars_of, string_of};

verus! {

/// A point in time: whole seconds since the Unix epoch and the nanoseconds past them.
#[derive(Clone, Copy, Debug, PartialEq, Eq, Structural)]
pub struct Timestamp {
    pub secs: i64,
    pub nanos: u32,
}

impl Timestamp {
    /// Whether `self` lies strictly before `other`.
    pub open spec fn earlier(self, other: Timestamp) -> bool {
        self.secs < other.secs || (self.secs == other.secs && self.nanos < other.nanos)
    }

    /// Whether `self` lies strictly before `other`.
    pub fn is_before(&self, other: &Timestamp) -> (r: bool)
        ensures
            r == self.earlier(*other),
    {
        self.secs < other.secs || (self.secs == other.secs && self.nanos < other.nanos)
    }
}

/// One post in the index: the name of its file without the extension, the
/// slug that links to it, and when the file was last modified.
#[derive(Clone, Debug)]
pub struct BlogEntry {
    pub name: String,
    pub slug: String,
    pub modified: Timestamp,
}

/// A post as the index models it: name, slug, time of last modification.
pub type EntryModel = (Seq<char>, Seq<char>, Timestamp);

impl View for BlogEntry {
    type V = EntryModel;

    open spec fn view(&self) -> EntryModel {
        (self.name@, self.slug@, self.modified)
    }
}

/// What a listing of the storage directory reports of one of its entries.
/// `file_name` is `None` where the name is not valid UTF-8, and `modified`
/// is `None` where the entry's metadata could not be read.
#[derive(Clone, Debug)]
pub struct FileRecord {
    pub file_name: Option<String>,
    pub is_file: bool,
    pub modified: Option<Timestamp>,
}

/// The position of the last `.` in `f`, or -1 where there is none.
pub open spec fn last_dot(f: Seq<char>) -> int
    decreases f.len(),
{
    if f.len() == 0 {
        -1
    } else if f.last() == '.' {
        f.len() - 1
    } else {
        last_dot(f.drop_last())
    }
}

/// A file name without its extension: the part before the last `.`, or the
/// whole name where it has no `.` past its first character.
pub open spec fn stem_of(f: Seq<char>) -> Seq<char> {
    if last_dot(f) <= 0 {
        f
    } else {
        f.subrange(0, last_dot(f))
    }
}

/// The index entry for a directory entry: present for each regular file whose
/// name and modification time could be read.
pub open spec fn entry_of(f: FileRecord) -> Option<EntryModel> {
    match (f.file_name, f.modified) {
        (Some(n), Some(t)) => if f.is_file {
            Some((stem_of(n@), slug_of_name(stem_of(n@)), t))
        } else {
            None
        },
        _ => None,
    }
}

/// Where an entry modified at `t` goes in a list ordered newest first: after
/// every entry that is not older than it.
pub open spec fn newest_first_pos(s: Seq<EntryModel>, t: Timestamp) -> int
    decreases s.len(),
{
    if s.len() == 0 {
        0
    } else if s.last().2.earlier(t) {
        newest_first_pos(s.drop_last(), t)
    } else {
        s.len() as int
    }
}

/// The index of a directory listing: one entry per readable regular file,
/// newest first, entries of equal time in the order of the listing.
pub open spec fn index_of(files: Seq<FileRecord>) -> Seq<EntryModel>
    decreases files.len(),
{
    if files.len() == 0 {
        Seq::empty()
    } else {
        let rest = index_of(files.drop_last());
        match entry_of(files.last()) {
            Some(e) => rest.insert(newest_first_pos(rest, e.2), e),
            None => rest,
        }
    }
}

/// The models of a list of entries.
pub open spec fn models(v: Seq<BlogEntry>) -> Seq<EntryModel> {
    v.map_values(|e: BlogEntry| e@)
}

proof fn lemma_pos_bounds(s: Seq<EntryModel>, t: Timestamp)
    ensures
        0 <= newest_first_pos(s, t) <= s.len(),
    decreases s.len(),
{
    if s.len() > 0 {
        lemma_pos_bounds(s.drop_last(), t);
    }
}

proof fn lemma_pos_splits(s: Seq<EntryModel>, t: Timestamp)
    ensures
        forall|k: int|
            newest_first_pos(s, t) <= k < s.len() ==> (#[trigger] s[k]).2.earlier(t),
        newest_first_pos(s, t) > 0 ==> !s[newest_first_pos(s, t) - 1].2.earlier(t),
    decreases s.len(),
{
    if s.len() > 0 {
        lemma_pos_splits(s.drop_last(), t);
        lemma_pos_bounds(s.drop_last(), t);
        let d = s.drop_last();
        assert forall|k: int| newest_first_pos(s, t) <= k < s.len() implies (
        #[trigger] s[k]).2.earlier(t) by {
            if k < d.len() {
                assert(d[k] == s[k]);
            }
        }
    }
}

proof fn lemma_insert_contains(s: Seq<EntryModel>, p: int, x: EntryModel, e: EntryModel)
    requires
        0 <= p <= s.len(),
    ensures
        s.insert(p, x).contains(e) <==> (s.contains(e) || e == x),
{
    s.insert_ensures(p, x);
    let r = s.insert(p, x);
    if s.contains(e) {
        let k = choose|k: int| 0 <= k < s.len() && s[k] == e;
        if k < p {
            assert(r[k] == e);
        } else {
            assert(r[k + 1] == e);
        }
    }
    if e == x {
        assert(r[p] == e);
    }
    if r.contains(e) {
        let k = choose|k: int| 0 <= k < r.len() && r[k] == e;
        if k < p {
            assert(s[k] == e);
        } else if k > p {
            assert(s[k - 1] == e);
        }
    }
}

/// The index lists exactly the readable regular files of the listing: an
/// entry, with its name, slug and modification time, is in the index if and
/// only if some file of the listing gives that entry.
pub proof fn lemma_index_lists_each_file(files: Seq<FileRecord>)
    ensures
        forall|e: EntryModel|
            index_of(files).contains(e) <==> exists|j: int|
                0 <= j < files.len() && #[trigger] entry_of(files[j]) == Some(e),
    decreases files.len(),
{
    if files.len() > 0 {
        let fs = files.drop_last();
        lemma_index_lists_each_file(fs);
        let rest = index_of(fs);
        let n = files.len() - 1;
        assert forall|e: EntryModel|
            index_of(files).contains(e) <==> exists|j: int|
                0 <= j < files.len() && #[trigger] entry_of(files[j]) == Some(e) by {
            match entry_of(files.last()) {
                Some(x) => {
                    lemma_pos_bounds(rest, x.2);
                    lemma_insert_contains(rest, newest_first_pos(rest, x.2), x, e);
                },
                None => {},
            }
            if exists|j: int| 0 <= j < files.len() && #[trigger] entry_of(files[j]) == Some(e) {
                let j = choose|j: int| 0 <= j < files.len() && #[trigger] entry_of(files[j]) == Some(e);
                if j < n {
                    assert(fs[j] == files[j]);
                    assert(entry_of(fs[j]) == Some(e));
                }
            }
            if rest.contains(e) {
                let j = choose|j: int| 0 <= j < fs.len() && #[trigger] entry_of(fs[j]) == Some(e);
                assert(files[j] == fs[j]);
                assert(entry_of(files[j]) == Some(e));
            }
            if entry_of(files.last()) == Some(e) {
                assert(entry_of(files[n]) == Some(e));
            }
        }
    }
}

/// The index is ordered newest first: no entry is older than one that
/// follows it.
pub proof fn lemma_index_newest_first(files: Seq<FileRecord>)
    ensures
        forall|i: int, j: int|
            0 <= i < j < index_of(files).len() ==> !(#[trigger] index_of(files)[i]).2.earlier(
                #[trigger] index_of(files)[j].2,
            ),
    decreases files.len(),
{
    if files.len() > 0 {
        let fs = files.drop_last();
        lemma_index_newest_first(fs);
        let rest = index_of(fs);
        match entry_of(files.last()) {
            Some(x) => {
                let p = newest_first_pos(rest, x.2);
                lemma_pos_bounds(rest, x.2);
                lemma_pos_splits(rest, x.2);
                rest.insert_ensures(p, x);
                let r = index_of(files);
                assert(r == rest.insert(p, x));
                assert forall|i: int, j: int| 0 <= i < j < r.len() implies !(
                #[trigger] r[i]).2.earlier(#[trigger] r[j].2) by {
                    if j < p {
                        assert(r[i] == rest[i] && r[j] == rest[j]);
                    } else if j == p {
                        assert(r[i] == rest[i]);
                        if i < p - 1 {
                            assert(!rest[i].2.earlier(rest[p - 1].2));
                        }
                    } else if i < p {
                        assert(r[i] == rest[i] && r[j] == rest[j - 1]);
                    } else if i == p {
                        assert(r[j] == rest[j - 1]);
                        assert(rest[j - 1].2.earlier(x.2));
                    } else {
                        assert(r[i] == rest[i - 1] && r[j] == rest[j - 1]);
                    }
                }
            },
            None => {},
        }
    }
}

/// A listed post resolves back to its own file: for a file `<stem>.md`
/// whose stem is non-empty and holds no `-` (a `-` would be read back as a
/// space) and no path separator or NUL, the slug that the index gives it is
/// accepted and names the path of that same file.
pub proof fn lemma_listed_post_resolves(dir: Seq<char>, f: FileRecord, e: EntryModel)
    requires
        entry_of(f) == Some(e),
        f.file_name matches Some(n) && n@.len() > 3 && n@.subrange(n@.len() - 3, n@.len() as int)
            == post_extension() && {
            let stem = n@.subrange(0, n@.len() - 3);
            &&& !stem.contains('-')
            &&& !stem.contains('/')
            &&& !stem.contains('\\')
            &&& !stem.contains('\0')
        },
    ensures
        is_safe_slug(e.1),
        f.file_name matches Some(n) && post_path(dir, e.1) == dir + seq!['/'] + n@,
{
    let n = f.file_name->Some_0@;
    let len = n.len();
    let stem = n.subrange(0, len - 3);
    assert(n[len - 1] == post_extension()[2]);
    assert(n[len - 2] == post_extension()[1]);
    assert(n[len - 3] == post_extension()[0]);
    assert(n.drop_last().last() == 'm');
    assert(n.drop_last().drop_last().last() == '.');
    assert(last_dot(n) == last_dot(n.drop_last()));
    assert(last_dot(n.drop_last()) == last_dot(n.drop_last().drop_last()));
    assert(last_dot(n) == len - 3);
    assert(stem_of(n) == stem);
    let slug = slug_of_name(stem);
    assert(e.1 == slug);
    assert(name_of_slug(slug) =~= stem) by {
        assert forall|i: int| 0 <= i < stem.len() implies name_of_slug(slug)[i] == stem[i] by {
            assert(stem[i] != '-');
        }
    }
    assert forall|c: char| c == '/' || c == '\\' || c == '\0' implies !slug.contains(c) by {
        if slug.contains(c) {
            let k = choose|k: int| 0 <= k < slug.len() && slug[k] == c;
            assert(stem[k] == c);
        }
    }
    assert(stem + post_extension() =~= n);
    assert(post_path(dir, e.1) =~= dir + seq!['/'] + n);
}

/// The name of a file without its extension.
pub fn file_stem(file_name: &str) -> (r: String)
    ensures
        r@ == stem_of(file_name@),
{
    let cs = chars_of(file_name);
    let mut i: usize = cs.len();
    proof {
        assert(file_name@.subrange(0, cs@.len() as int) =~= file_name@);
    }
    while i > 0 && cs[i - 1] != '.'
        invariant
            i <= cs@.len(),
            cs@ == file_name@,
            last_dot(file_name@) == last_dot(file_name@.subrange(0, i as int)),
        decreases i,
    {
        proof {
            assert(file_name@.subrange(0, i as int).drop_last() =~= file_name@.subrange(
                0,
                i - 1,
            ));
        }
        i = i - 1;
    }
    proof {
        assert(file_name@.subrange(0, cs@.len() as int) =~= file_name@);
    }
    if i <= 1 {
        string_of(cs.as_slice())
    } else {
        let mut out: Vec<char> = Vec::new();
        let mut j: usize = 0;
        while j < i - 1
            invariant
                1 < i <= cs@.len(),
                j <= i - 1,
                cs@ == file_name@,
                out@ == file_name@.subrange(0, j as int),
            decreases i - j,
        {
            out.push(cs[j]);
            proof {
                assert(out@ =~= file_name@.subrange(0, j + 1));
            }
            j = j + 1;
        }
        string_of(out.as_slice())
    }
}

/// The index entry for one directory entry, or `None` where it is skipped:
/// not a regular file, or its name or modification time unreadable.
pub fn entry_for(f: &FileRecord) -> (r: Option<BlogEntry>)
    ensures
        r matches Some(e) ==> entry_of(*f) == Some(e@),
        r is None ==> entry_of(*f) is None,
{
    match (&f.file_name, &f.modified) {
        (Some(n), Some(t)) => {
            if f.is_file {
                let name = file_stem(n.as_str());
                let slug = name_to_slug(name.as_str());
                Some(BlogEntry { name, slug, modified: *t })
            } else {
                None
            }
        },
        _ => None,
    }
}

/// Builds the index of a directory listing: one entry per regular file whose
/// name and modification time could be read, newest first, and entries of
/// equal time in the order of the listing.
pub fn build_index(files: &Vec<FileRecord>) -> (r: Vec<BlogEntry>)
    ensures
        models(r@) == index_of(files@),
        files@.len() == 0 ==> r@.len() == 0,
{
    let mut out: Vec<BlogEntry> = Vec::new();
    let mut i: usize = 0;
    while i < files.len()
        invariant
            i <= files@.len(),
            models(out@) == index_of(files@.subrange(0, i as int)),
        decreases files@.len() - i,
    {
        let ghost pre = files@.subrange(0, i + 1);
        proof {
            assert(pre.drop_last() =~= files@.subrange(0, i as int));
            assert(pre.last() == files@[i as int]);
        }
        match entry_for(&files[i]) {
            Some(e) => {
                let ghost m = models(out@);
                let mut p: usize = out.len();
                proof {
                    assert(m.subrange(0, out@.len() as int) =~= m);
                }
                while p > 0 && out[p - 1].modified.is_before(&e.modified)
                    invariant
                        p <= out@.len(),
                        m == models(out@),
                        newest_first_pos(m, e.modified) == newest_first_pos(
                            m.subrange(0, p as int),
                            e.modified,
                        ),
                    decreases p,
                {
                    proof {
                        assert(m.subrange(0, p as int).drop_last() =~= m.subrange(0, p - 1));
                    }
                    p = p - 1;
                }
                proof {
                    assert(m.subrange(0, out@.len() as int) =~= m);
                }
                let ghost ev = e@;
                out.insert(p, e);
                proof {
                    assert(models(out@) =~= m.insert(p as int, ev));
                }
            },
            None => {},
        }
        i = i + 1;
    }
    proof {
        assert(files@.subrange(0, files@.len() as int) =~= files@);
    }
    out
}

} // verus!
