//! Rules of the file catalog: which paths lie under a scan root, which files
//! sit directly in a folder, and how tags are normalized.
use vstd::prelude::*;

use crate::models::{texts, AppError};
use crate::text::{
    chars_of, contains_char, has_prefix, lowercase, owned, push_all, push_str, replace_char,
    replace_chars, starts_with, string_of, to_lowercase, trim, trim_text,
};

verus! {

// ---------------------------------------------------------------- roots

/// `s` without trailing characters equal to `c`.
pub open spec fn strip_trailing(s: Seq<char>, c: char) -> Seq<char>
    decreases s.len(),
{
    if s.len() > 0 && s.last() == c {
        strip_trailing(s.drop_last(), c)
    } else {
        s
    }
}

/// A path in the form paths are compared: backslashes for slashes,
/// lower case, no trailing backslash.
pub open spec fn comparable(s: Seq<char>) -> Seq<char> {
    strip_trailing(lowercase(replace_char(s, '/', '\\')), '\\')
}

fn strip_trailing_chars(s: &Vec<char>, c: char) -> (r: Vec<char>)
    ensures
        r@ == strip_trailing(s@, c),
{
    let mut n: usize = s.len();
    assert(s@.take(n as int) == s@);
    while n > 0 && s[n - 1] == c
        invariant
            n <= s.len(),
            strip_trailing(s@, c) == strip_trailing(s@.take(n as int), c),
        decreases n,
    {
        assert(s@.take(n as int).drop_last() == s@.take(n - 1));
        n = n - 1;
    }
    let mut r: Vec<char> = Vec::new();
    let mut k: usize = 0;
    while k < n
        invariant
            k <= n <= s.len(),
            r@ == s@.take(k as int),
        decreases n - k,
    {
        r.push(s[k]);
        k = k + 1;
        assert(r@ == s@.take(k as int));
    }
    r
}

/// A path in comparable form.
pub fn normalize_cmp(s: &str) -> (r: String)
    ensures
        r@ == comparable(s@),
{
    let swapped = string_of(&replace_chars(&chars_of(s), '/', '\\'));
    let lower = chars_of(to_lowercase(swapped.as_str()).as_str());
    string_of(&strip_trailing_chars(&lower, '\\'))
}

/// A path lies under a root when, in comparable form, it is the root or
/// continues it after a separator.
pub open spec fn under_root(path: Seq<char>, root: Seq<char>) -> bool {
    let p = comparable(path);
    let r = comparable(root);
    p == r || has_prefix(p, r.push('\\')) || has_prefix(p, r.push('/'))
}

/// Whether `path` lies under `root`.
pub fn path_under_root(path: &str, root: &str) -> (b: bool)
    ensures
        b == under_root(path@, root@),
{
    let p = chars_of(normalize_cmp(path).as_str());
    let r = chars_of(normalize_cmp(root).as_str());
    let mut rb = chars_of(normalize_cmp(root).as_str());
    rb.push('\\');
    let mut rs = chars_of(normalize_cmp(root).as_str());
    rs.push('/');
    crate::text::same_chars(&p, &r) || starts_with(&p, &rb) || starts_with(&p, &rs)
}

/// Whether a path lies under one of the roots.
pub open spec fn under_any_root(path: Seq<char>, roots: Seq<Seq<char>>) -> bool {
    exists|i: int| 0 <= i < roots.len() && under_root(path, #[trigger] roots[i])
}

pub fn path_under_any_root(path: &str, roots: &Vec<String>) -> (b: bool)
    ensures
        b == under_any_root(path@, texts(roots@)),
{
    let mut i: usize = 0;
    while i < roots.len()
        invariant
            i <= roots.len(),
            forall|k: int| 0 <= k < i ==> !under_root(path@, #[trigger] texts(roots@)[k]),
        decreases roots.len() - i,
    {
        if path_under_root(path, roots[i].as_str()) {
            assert(under_root(path@, texts(roots@)[i as int]));
            return true;
        }
        i = i + 1;
    }
    false
}

/// Whether a catalog row goes when the catalog is trimmed to the roots: it
/// lies under none of them, or its file or folder is gone from disk.
pub open spec fn goes_when_trimmed(path: Seq<char>, roots: Seq<Seq<char>>, on_disk: bool) -> bool {
    !under_any_root(path, roots) || !on_disk
}

pub fn should_trim(path: &str, roots: &Vec<String>, on_disk: bool) -> (b: bool)
    ensures
        b == goes_when_trimmed(path@, texts(roots@), on_disk),
{
    !path_under_any_root(path, roots) || !on_disk
}

/// Whether trimming drops the whole catalog: so it does when no roots are
/// configured, since no path then lies under a root.
pub fn trims_everything(roots: &Vec<String>) -> (r: bool)
    ensures
        r == (roots@.len() == 0),
        r ==> forall|path: Seq<char>, on_disk: bool| #[trigger] goes_when_trimmed(path, texts(roots@), on_disk),
{
    roots.len() == 0
}

// ---------------------------------------------------------------- folders

/// `s` without trailing slashes or backslashes.
pub open spec fn strip_separators(s: Seq<char>) -> Seq<char>
    decreases s.len(),
{
    if s.len() > 0 && (s.last() == '\\' || s.last() == '/') {
        strip_separators(s.drop_last())
    } else {
        s
    }
}

fn strip_separator_chars(s: &Vec<char>) -> (r: Vec<char>)
    ensures
        r@ == strip_separators(s@),
{
    let mut n: usize = s.len();
    assert(s@.take(n as int) == s@);
    while n > 0 && (s[n - 1] == '\\' || s[n - 1] == '/')
        invariant
            n <= s.len(),
            strip_separators(s@) == strip_separators(s@.take(n as int)),
        decreases n,
    {
        assert(s@.take(n as int).drop_last() == s@.take(n - 1));
        n = n - 1;
    }
    let mut r: Vec<char> = Vec::new();
    let mut k: usize = 0;
    while k < n
        invariant
            k <= n <= s.len(),
            r@ == s@.take(k as int),
        decreases n - k,
    {
        r.push(s[k]);
        k = k + 1;
        assert(r@ == s@.take(k as int));
    }
    r
}

/// The two prefixes a file directly in `folder` starts with: the folder
/// (without trailing separators) and a backslash, or it and a slash.
pub open spec fn folder_prefixes(folder: Seq<char>) -> (Seq<char>, Seq<char>) {
    let base = strip_separators(folder);
    (base.push('\\'), base.push('/'))
}

/// What follows the folder's prefix in a path, if it starts with one.
pub open spec fn rest_in_folder(path: Seq<char>, folder: Seq<char>) -> Option<Seq<char>> {
    let (bs, slash) = folder_prefixes(folder);
    if has_prefix(path, bs) {
        Some(path.skip(bs.len() as int))
    } else if has_prefix(path, slash) {
        Some(path.skip(slash.len() as int))
    } else {
        None
    }
}

/// A path names a file directly in a folder: it starts with the folder's
/// prefix and the rest is a plain name.
pub open spec fn directly_in(path: Seq<char>, folder: Seq<char>) -> bool {
    match rest_in_folder(path, folder) {
        Some(rest) => rest.len() > 0 && !rest.contains('\\') && !rest.contains('/'),
        None => false,
    }
}

/// The two `LIKE` patterns that select the catalog rows below a folder.
pub fn folder_like_patterns(folder: &str) -> (r: (String, String))
    ensures
        r.0@ == folder_prefixes(folder@).0.push('%'),
        r.1@ == folder_prefixes(folder@).1.push('%'),
{
    let base = strip_separator_chars(&chars_of(folder));
    let mut a: Vec<char> = Vec::new();
    push_all(&mut a, &base);
    a.push('\\');
    a.push('%');
    let mut b: Vec<char> = Vec::new();
    push_all(&mut b, &base);
    b.push('/');
    b.push('%');
    (string_of(&a), string_of(&b))
}

fn skip_chars(s: &Vec<char>, k: usize) -> (r: Vec<char>)
    requires
        k <= s.len(),
    ensures
        r@ == s@.skip(k as int),
{
    let mut r: Vec<char> = Vec::new();
    let mut m: usize = k;
    while m < s.len()
        invariant
            k <= m <= s.len(),
            r@ == s@.subrange(k as int, m as int),
        decreases s.len() - m,
    {
        r.push(s[m]);
        m = m + 1;
        assert(r@ == s@.subrange(k as int, m as int));
    }
    r
}

/// Whether a catalog path names a file directly in `folder`.
pub fn file_directly_in(path: &str, folder: &str) -> (b: bool)
    ensures
        b == directly_in(path@, folder@),
{
    let p = chars_of(path);
    let base = strip_separator_chars(&chars_of(folder));
    let mut bs = Vec::new();
    push_all(&mut bs, &base);
    bs.push('\\');
    let mut slash = Vec::new();
    push_all(&mut slash, &base);
    slash.push('/');
    let rest = if starts_with(&p, &bs) {
        skip_chars(&p, bs.len())
    } else if starts_with(&p, &slash) {
        skip_chars(&p, slash.len())
    } else {
        return false;
    };
    rest.len() > 0 && !contains_char(&rest, '\\') && !contains_char(&rest, '/')
}

// ---------------------------------------------------------------- tags

/// A tag as shown: trimmed; a blank tag is refused.
pub open spec fn tag_display(tag: Seq<char>) -> Option<Seq<char>> {
    if trim(tag).len() == 0 {
        None
    } else {
        Some(trim(tag))
    }
}

/// A tag trimmed for display; blank tags are an error.
pub fn normalize_tag_display(tag: &str) -> (r: Result<String, AppError>)
    ensures
        match tag_display(tag@) {
            Some(d) => r matches Ok(s) && s@ == d,
            None => r matches Err(e) && e.is_message("Tag cannot be empty"@),
        },
{
    let display = trim_text(tag);
    if display.as_str().is_empty() {
        return Err(AppError::Message(owned("Tag cannot be empty")));
    }
    Ok(display)
}

/// The key a tag is stored under: its lower-cased text. Tags are compared
/// without regard to case.
pub fn tag_key(display: &str) -> (r: String)
    ensures
        r@ == lowercase(display@),
{
    to_lowercase(display)
}

/// The key of a tag to remove: trimmed, lower-cased; a blank one is an
/// error.
pub fn removal_key(tag: &str) -> (r: Result<String, AppError>)
    ensures
        lowercase(trim(tag@)).len() == 0 ==> (r matches Err(e) && e.is_message(
            "Tag cannot be empty"@,
        )),
        lowercase(trim(tag@)).len() != 0 ==> (r matches Ok(k) && k@ == lowercase(trim(tag@))),
{
    let key = to_lowercase(trim_text(tag).as_str());
    if key.as_str().is_empty() {
        return Err(AppError::Message(owned("Tag cannot be empty")));
    }
    Ok(key)
}

/// The rows a file holds after its tags are set to `tags`: blank tags are
/// skipped, and of tags with the same key the first stays.
pub open spec fn tag_rows(tags: Seq<Seq<char>>) -> Seq<(Seq<char>, Seq<char>)>
    decreases tags.len(),
{
    if tags.len() == 0 {
        seq![]
    } else {
        let rest = tag_rows(tags.drop_last());
        match tag_display(tags.last()) {
            Some(d) => {
                let key = lowercase(d);
                if exists|k: int| 0 <= k < rest.len() && (#[trigger] rest[k]).1 == key {
                    rest
                } else {
                    rest.push((d, key))
                }
            },
            None => rest,
        }
    }
}

/// Display text and key of each row.
pub open spec fn row_views(rows: Seq<(String, String)>) -> Seq<(Seq<char>, Seq<char>)> {
    rows.map_values(|r: (String, String)| (r.0@, r.1@))
}

/// The (display, key) rows to store for a file's new tag list.
pub fn plan_tag_rows(tags: &Vec<String>) -> (r: Vec<(String, String)>)
    ensures
        row_views(r@) == tag_rows(texts(tags@)),
{
    let mut rows: Vec<(String, String)> = Vec::new();
    let mut i: usize = 0;
    while i < tags.len()
        invariant
            i <= tags.len(),
            row_views(rows@) == tag_rows(texts(tags@).take(i as int)),
        decreases tags.len() - i,
    {
        let ghost t = texts(tags@).take(i + 1);
        assert(t.drop_last() == texts(tags@).take(i as int));
        assert(t.last() == tags@[i as int]@);
        match normalize_tag_display(tags[i].as_str()) {
            Ok(display) => {
                let key = tag_key(display.as_str());
                let mut found = false;
                let mut k: usize = 0;
                while k < rows.len()
                    invariant
                        k <= rows.len(),
                        found == (exists|j: int| 0 <= j < k && (#[trigger] row_views(rows@)[j]).1 == key@),
                    decreases rows.len() - k,
                {
                    if rows[k].1 == key {
                        assert(row_views(rows@)[k as int].1 == key@);
                        found = true;
                    }
                    k = k + 1;
                }
                if !found {
                    let ghost before = rows@;
                    rows.push((display, key));
                    assert(row_views(rows@) =~= row_views(before).push((display@, key@)));
                }
            },
            Err(_) => {},
        }
        i = i + 1;
    }
    assert(texts(tags@).take(tags.len() as int) == texts(tags@));
    rows
}


/// Every path lies under itself as a root.
pub proof fn path_under_itself(path: Seq<char>)
    ensures
        under_root(path, path),
{
}

/// A tag's display form is its own display form: normalizing a tag a
/// second time changes nothing.
pub proof fn tag_display_stable(tag: Seq<char>)
    ensures
        match tag_display(tag) {
            Some(d) => tag_display(d) == Some(d),
            None => true,
        },
{
    crate::text::trim_idempotent(tag);
}


/// No two tag rows of a file share a key: a file holds each tag once,
/// whatever its case.
pub proof fn tag_rows_keys_distinct(tags: Seq<Seq<char>>)
    ensures
        forall|a: int, b: int|
            0 <= a < b < tag_rows(tags).len() ==> (#[trigger] tag_rows(tags)[a]).1 != (
            #[trigger] tag_rows(tags)[b]).1,
    decreases tags.len(),
{
    if tags.len() > 0 {
        tag_rows_keys_distinct(tags.drop_last());
        let rest = tag_rows(tags.drop_last());
        let all = tag_rows(tags);
        assert forall|a: int, b: int| 0 <= a < b < all.len() implies (#[trigger] all[a]).1 != (
        #[trigger] all[b]).1 by {
            if b < rest.len() {
                assert(all[a] == rest[a] && all[b] == rest[b]);
            } else {
                assert(all[a] == rest[a]);
            }
        }
    }
}

} // verus!
