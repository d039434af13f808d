//! What a scan notes about a folder to tell, next time, whether it changed:
//! counts, total size and a hash of its listing.
use vstd::prelude::*;
use vstd::multiset::Multiset;
use vstd::relations::{sorted_by, total_ordering};

use crate::models::FolderStats;
use crate::text::{
    chars_of, compare_text, decimal, hex_digits, lemma_text_order_equal, lemma_text_order_flip,
    lemma_text_order_transitive, push_all, push_decimal, push_hex, string_of, text_order, Order,
};

verus! {

broadcast use {vstd::seq_lib::group_to_multiset_ensures, vstd::seq_lib::lemma_multiset_commutative};

// ---------------------------------------------------------------- hashing

pub open spec fn fnv_offset_basis() -> u64 {
    0xcbf29ce484222325u64
}

pub open spec fn fnv_prime() -> u64 {
    0x100000001b3u64
}

/// 64-bit FNV-1a hash of a byte sequence.
pub open spec fn fnv_hash(s: Seq<u8>) -> u64
    decreases s.len(),
{
    if s.len() == 0 {
        fnv_offset_basis()
    } else {
        (fnv_hash(s.drop_last()) ^ (s.last() as u64)).wrapping_mul(fnv_prime())
    }
}

/// FNV-1a of the bytes, as 16 lower-case hexadecimal digits.
pub fn fnv1a64(data: &[u8]) -> (r: String)
    ensures
        r@ == hex_digits(fnv_hash(data@) as nat, 16),
{
    let mut hash: u64 = 0xcbf29ce484222325;
    let mut i: usize = 0;
    while i < data.len()
        invariant
            i <= data.len(),
            hash == fnv_hash(data@.take(i as int)),
        decreases data.len() - i,
    {
        assert(data@.take(i + 1).drop_last() == data@.take(i as int));
        hash = (hash ^ (data[i] as u64)).wrapping_mul(0x100000001b3);
        i = i + 1;
    }
    assert(data@.take(data.len() as int) == data@);
    let mut out: Vec<char> = Vec::new();
    push_hex(&mut out, hash, 16);
    string_of(&out)
}

// ---------------------------------------------------------------- sorting

/// `a` sorts no later than `b` (String order).
pub open spec fn text_leq(a: Seq<char>, b: Seq<char>) -> bool {
    text_order(a, b) != Order::Greater
}

pub proof fn lemma_text_leq_total()
    ensures
        total_ordering(|a: Seq<char>, b: Seq<char>| text_leq(a, b)),
{
    let leq = |a: Seq<char>, b: Seq<char>| text_leq(a, b);
    assert forall|a: Seq<char>| #[trigger] leq(a, a) by {
        lemma_text_order_equal(a, a);
    }
    assert forall|a: Seq<char>, b: Seq<char>| #[trigger] leq(a, b) && #[trigger] leq(b, a) implies a
        == b by {
        lemma_text_order_flip(a, b);
        lemma_text_order_equal(a, b);
    }
    assert forall|a: Seq<char>, b: Seq<char>, c: Seq<char>| #[trigger] leq(a, b) && #[trigger] leq(
        b,
        c,
    ) implies leq(a, c) by {
        lemma_text_order_transitive(a, b, c, Order::Less);
    }
    assert forall|a: Seq<char>, b: Seq<char>| #[trigger] leq(a, b) || #[trigger] leq(b, a) by {
        lemma_text_order_flip(a, b);
    }
}

pub open spec fn views(v: Seq<Vec<char>>) -> Seq<Seq<char>> {
    v.map_values(|c: Vec<char>| c@)
}

pub open spec fn texts_sorted(s: Seq<Seq<char>>) -> bool {
    forall|a: int, b: int| 0 <= a < b < s.len() ==> text_leq(s[a], s[b])
}

fn copy_texts(v: &Vec<Vec<char>>, lo: usize, hi: usize) -> (r: Vec<Vec<char>>)
    requires
        lo <= hi <= v.len(),
    ensures
        views(r@) == views(v@).subrange(lo as int, hi as int),
{
    let mut r: Vec<Vec<char>> = Vec::new();
    let mut k: usize = lo;
    while k < hi
        invariant
            lo <= k <= hi,
            hi <= v.len(),
            views(r@) == views(v@).subrange(lo as int, k as int),
        decreases hi - k,
    {
        let c = copy_chars(&v[k]);
        let ghost before = r@;
        r.push(c);
        assert(views(v@)[k as int] == v@[k as int]@);
        assert(views(r@) =~= views(before).push(c@));
        k = k + 1;
        assert(views(r@) =~= views(v@).subrange(lo as int, k as int));
    }
    r
}

fn copy_chars(v: &Vec<char>) -> (r: Vec<char>)
    ensures
        r@ == v@,
{
    let mut r: Vec<char> = Vec::new();
    push_all(&mut r, v);
    r
}

fn merge_texts(l: &Vec<Vec<char>>, r: &Vec<Vec<char>>) -> (out: Vec<Vec<char>>)
    requires
        texts_sorted(views(l@)),
        texts_sorted(views(r@)),
    ensures
        views(out@).to_multiset() == views(l@).to_multiset().add(views(r@).to_multiset()),
        texts_sorted(views(out@)),
{
    let ghost lv = views(l@);
    let ghost rv = views(r@);
    let mut out: Vec<Vec<char>> = Vec::new();
    let mut i: usize = 0;
    let mut j: usize = 0;
    while i < l.len() || j < r.len()
        invariant
            lv == views(l@),
            rv == views(r@),
            i <= l.len(),
            j <= r.len(),
            texts_sorted(lv),
            texts_sorted(rv),
            views(out@).to_multiset() == lv.take(i as int).to_multiset().add(
                rv.take(j as int).to_multiset(),
            ),
            texts_sorted(views(out@)),
            forall|a: int, p: int|
                0 <= a < out.len() && i <= p < l.len() ==> text_leq(
                    #[trigger] views(out@)[a],
                    #[trigger] lv[p],
                ),
            forall|a: int, q: int|
                0 <= a < out.len() && j <= q < r.len() ==> text_leq(
                    #[trigger] views(out@)[a],
                    #[trigger] rv[q],
                ),
        decreases l.len() + r.len() - i - j,
    {
        let ghost before = views(out@);
        let take_left = if j >= r.len() {
            true
        } else if i >= l.len() {
            false
        } else {
            compare_text(&l[i], &r[j]) != Order::Greater
        };
        if take_left {
            let x = copy_chars(&l[i]);
            proof {
                assert forall|q: int| j <= q < r.len() implies text_leq(x@, #[trigger] rv[q]) by {
                    if q > j {
                        assert(text_leq(rv[j as int], rv[q]));
                        lemma_text_order_transitive(x@, rv[j as int], rv[q], Order::Less);
                    }
                }
                assert forall|p: int| i < p < l.len() implies text_leq(x@, #[trigger] lv[p]) by {
                    assert(text_leq(lv[i as int], lv[p]));
                }
                assert(lv.take(i + 1) == lv.take(i as int).push(x@));
            }
            out.push(x);
            i = i + 1;
            proof {
                assert(views(out@) == before.push(lv[i - 1]));
                assert forall|a: int, b: int| 0 <= a < b < out.len() implies text_leq(
                    views(out@)[a],
                    views(out@)[b],
                ) by {
                    if b == out.len() - 1 {
                        assert(text_leq(before[a], lv[i - 1]));
                    } else {
                        assert(text_leq(before[a], before[b]));
                    }
                }
            }
        } else {
            let y = copy_chars(&r[j]);
            proof {
                lemma_text_order_flip(lv[i as int], y@);
                assert forall|p: int| i <= p < l.len() implies text_leq(y@, #[trigger] lv[p]) by {
                    if p > i {
                        assert(text_leq(lv[i as int], lv[p]));
                        lemma_text_order_transitive(y@, lv[i as int], lv[p], Order::Less);
                    }
                }
                assert forall|q: int| j < q < r.len() implies text_leq(y@, #[trigger] rv[q]) by {
                    assert(text_leq(rv[j as int], rv[q]));
                }
                assert(rv.take(j + 1) == rv.take(j as int).push(y@));
            }
            out.push(y);
            j = j + 1;
            proof {
                assert(views(out@) == before.push(rv[j - 1]));
                assert forall|a: int, b: int| 0 <= a < b < out.len() implies text_leq(
                    views(out@)[a],
                    views(out@)[b],
                ) by {
                    if b == out.len() - 1 {
                        assert(text_leq(before[a], rv[j - 1]));
                    } else {
                        assert(text_leq(before[a], before[b]));
                    }
                }
            }
        }
    }
    assert(lv.take(l.len() as int) == lv);
    assert(rv.take(r.len() as int) == rv);
    out
}

/// The texts in ascending `String` order.
pub fn sort_texts(v: &Vec<Vec<char>>) -> (out: Vec<Vec<char>>)
    ensures
        views(out@).to_multiset() == views(v@).to_multiset(),
        texts_sorted(views(out@)),
    decreases v.len(),
{
    if v.len() <= 1 {
        let out = copy_texts(v, 0, v.len());
        assert(views(v@).subrange(0, v.len() as int) == views(v@));
        return out;
    }
    let mid = v.len() / 2;
    let left = copy_texts(v, 0, mid);
    let right = copy_texts(v, mid, v.len());
    assert(views(v@) == views(left@) + views(right@));
    let ls = sort_texts(&left);
    let rs = sort_texts(&right);
    merge_texts(&ls, &rs)
}

// ---------------------------------------------------------------- listing

/// What kind of directory entry a name is.
#[derive(PartialEq, Eq, Structural, Clone, Copy, Debug)]
pub enum EntryKind {
    Dir,
    File,
    Other,
}

/// A directory entry as the scan reads it: its name, its kind and (for a
/// file) its size in bytes.
#[derive(Debug)]
pub struct DirEntryInfo {
    pub name: String,
    pub kind: EntryKind,
    pub size: u64,
}

/// A folder's counts, total file size, listing hash, and which of its
/// entries are media files.
#[derive(Debug)]
pub struct FolderSnapshot {
    pub file_count: i64,
    pub child_folder_count: i64,
    pub total_bytes: i64,
    pub listing_hash: String,
    /// Indices into the entries of the files whose extension is indexed.
    pub media: Vec<usize>,
}

/// The extension of a file name as `Path::extension` finds it: the text after
/// the last `.`, unless there is no `.` or the only one starts the name.
pub open spec fn extension_of(name: Seq<char>) -> Option<Seq<char>> {
    if exists|k: int| 0 < k < name.len() && name[k] == '.' {
        let k = last_dot(name, name.len() as int);
        Some(name.skip(k + 1))
    } else {
        None
    }
}

/// Position of the last `.` before `n`, or -1.
pub open spec fn last_dot(name: Seq<char>, n: int) -> int
    decreases n,
{
    if n <= 0 {
        -1
    } else if name[n - 1] == '.' {
        n - 1
    } else {
        last_dot(name, n - 1)
    }
}

proof fn lemma_last_dot(name: Seq<char>, n: int)
    requires
        0 <= n <= name.len(),
    ensures
        -1 <= last_dot(name, n) < n,
        last_dot(name, n) >= 0 ==> name[last_dot(name, n)] == '.',
        forall|k: int| last_dot(name, n) < k < n ==> name[k] != '.',
    decreases n,
{
    if n > 0 && name[n - 1] != '.' {
        lemma_last_dot(name, n - 1);
    }
}

/// The lower-cased extension with a leading dot, or empty without one, as a
/// scan files an entry under.
pub open spec fn dotted_extension(name: Seq<char>) -> Seq<char> {
    match extension_of(name) {
        Some(e) => seq!['.'] + crate::text::lowercase(e),
        None => seq![],
    }
}

/// `Path::extension` of a file name.
pub fn file_extension(name: &Vec<char>) -> (r: Option<Vec<char>>)
    ensures
        match extension_of(name@) {
            Some(e) => r matches Some(v) && v@ == e,
            None => r is None,
        },
{
    let mut k: usize = name.len();
    while k > 0 && name[k - 1] != '.'
        invariant
            k <= name.len(),
            last_dot(name@, name.len() as int) == last_dot(name@, k as int),
        decreases k,
    {
        k = k - 1;
    }
    proof {
        lemma_last_dot(name@, name.len() as int);
    }
    if k <= 1 {
        // no dot, or the only dot starts the name
        proof {
            assert(!(exists|j: int| 0 < j < name@.len() && name@[j] == '.'));
        }
        return None;
    }
    let mut e: Vec<char> = Vec::new();
    let mut m: usize = k;
    while m < name.len()
        invariant
            k <= m <= name.len(),
            e@ == name@.subrange(k as int, m as int),
        decreases name.len() - m,
    {
        e.push(name[m]);
        m = m + 1;
        assert(e@ == name@.subrange(k as int, m as int));
    }
    assert(name@[k - 1] == '.');
    Some(e)
}

/// `.` and the lower-cased extension of a file name, or empty.
pub fn dotted_extension_of(name: &str) -> (r: String)
    ensures
        r@ == dotted_extension(name@),
{
    let cs = chars_of(name);
    match file_extension(&cs) {
        Some(e) => {
            let lower = chars_of(crate::text::to_lowercase(string_of(&e).as_str()).as_str());
            let mut out: Vec<char> = Vec::new();
            out.push('.');
            push_all(&mut out, &lower);
            string_of(&out)
        },
        None => String::new(),
    }
}

/// The listing line of a file: its name, a NUL, its size in decimal.
pub open spec fn listing_part(name: Seq<char>, size: u64) -> Seq<char> {
    name + seq!['\0'] + decimal(size as nat)
}

/// Listing lines of the files among the first `n` entries.
pub open spec fn listing_parts(entries: Seq<DirEntryInfo>, n: int) -> Seq<Seq<char>>
    decreases n,
{
    if n <= 0 {
        seq![]
    } else {
        let rest = listing_parts(entries, n - 1);
        let e = entries[n - 1];
        if e.kind == EntryKind::File {
            rest.push(listing_part(e.name@, e.size))
        } else {
            rest
        }
    }
}

/// Lines joined with `\n`.
pub open spec fn join_lines(parts: Seq<Seq<char>>) -> Seq<char>
    decreases parts.len(),
{
    if parts.len() == 0 {
        seq![]
    } else if parts.len() == 1 {
        parts[0]
    } else {
        join_lines(parts.drop_last()) + seq!['\n'] + parts.last()
    }
}

/// The listing hash: FNV-1a over the UTF-8 of the file lines, sorted and
/// joined with newlines, in 16 hexadecimal digits.
pub open spec fn listing_hash(entries: Seq<DirEntryInfo>) -> Seq<char> {
    let parts = listing_parts(entries, entries.len() as int).sort_by(
        |a: Seq<char>, b: Seq<char>| text_leq(a, b),
    );
    hex_digits(fnv_hash(vstd::utf8::encode_utf8(join_lines(parts))) as nat, 16)
}

/// Entry counts: files, child folders.
pub open spec fn count_kind(entries: Seq<DirEntryInfo>, n: int, kind: EntryKind) -> int
    decreases n,
{
    if n <= 0 {
        0
    } else {
        count_kind(entries, n - 1, kind) + if entries[n - 1].kind == kind {
            1int
        } else {
            0int
        }
    }
}

/// Total size of the files among the first `n` entries, adding as `i64`
/// wraps in an optimized build.
pub open spec fn total_size(entries: Seq<DirEntryInfo>, n: int) -> i64
    decreases n,
{
    if n <= 0 {
        0
    } else {
        let rest = total_size(entries, n - 1);
        if entries[n - 1].kind == EntryKind::File {
            rest.wrapping_add(entries[n - 1].size as i64)
        } else {
            rest
        }
    }
}

/// Indices of the files among the first `n` entries whose dotted extension
/// is one of `exts`.
pub open spec fn media_upto(entries: Seq<DirEntryInfo>, exts: Seq<Seq<char>>, n: int) -> Seq<usize>
    decreases n,
{
    if n <= 0 {
        seq![]
    } else {
        let rest = media_upto(entries, exts, n - 1);
        let e = entries[n - 1];
        if e.kind == EntryKind::File && exts.contains(dotted_extension(e.name@)) {
            rest.push((n - 1) as usize)
        } else {
            rest
        }
    }
}

proof fn lemma_count_bound(entries: Seq<DirEntryInfo>, n: int, kind: EntryKind)
    requires
        0 <= n,
    ensures
        0 <= count_kind(entries, n, kind) <= n,
    decreases n,
{
    if n > 0 {
        lemma_count_bound(entries, n - 1, kind);
    }
}

fn contains_text(list: &Vec<String>, t: &String) -> (b: bool)
    ensures
        b == crate::models::texts(list@).contains(t@),
{
    let mut i: usize = 0;
    while i < list.len()
        invariant
            i <= list.len(),
            forall|k: int| 0 <= k < i ==> list@[k]@ != t@,
        decreases list.len() - i,
    {
        if list[i] == *t {
            assert(crate::models::texts(list@)[i as int] == t@);
            return true;
        }
        i = i + 1;
    }
    assert(!crate::models::texts(list@).contains(t@)) by {
        if crate::models::texts(list@).contains(t@) {
            let k = choose|k: int|
                0 <= k < crate::models::texts(list@).len() && crate::models::texts(list@)[k] == t@;
            assert(list@[k]@ == t@);
        }
    }
    false
}

fn join_with_newlines(parts: &Vec<Vec<char>>) -> (r: String)
    ensures
        r@ == join_lines(views(parts@)),
{
    let mut out: Vec<char> = Vec::new();
    let mut i: usize = 0;
    while i < parts.len()
        invariant
            i <= parts.len(),
            out@ == join_lines(views(parts@).take(i as int)),
        decreases parts.len() - i,
    {
        let ghost before = out@;
        if i > 0 {
            out.push('\n');
        }
        push_all(&mut out, &parts[i]);
        i = i + 1;
        proof {
            let t = views(parts@).take(i as int);
            assert(t.drop_last() == views(parts@).take(i - 1));
            if i == 1 {
                assert(t.len() == 1);
                assert(out@ == t[0]);
            } else {
                assert(out@ == before + seq!['\n'] + t.last());
            }
        }
    }
    assert(views(parts@).take(parts.len() as int) == views(parts@));
    string_of(&out)
}

/// Reads a folder's listing: counts its files and child folders, adds up
/// the file sizes, hashes the sorted `name NUL size` lines, and picks out
/// the files whose dotted, lower-cased extension is in `extensions`.
pub fn read_folder_snapshot(entries: &Vec<DirEntryInfo>, extensions: &Vec<String>) -> (r: FolderSnapshot)
    requires
        entries.len() <= i64::MAX,
    ensures
        r.file_count == count_kind(entries@, entries@.len() as int, EntryKind::File),
        r.child_folder_count == count_kind(entries@, entries@.len() as int, EntryKind::Dir),
        r.total_bytes == total_size(entries@, entries@.len() as int),
        r.listing_hash@ == listing_hash(entries@),
        r.media@ == media_upto(entries@, crate::models::texts(extensions@), entries@.len() as int),
{
    let ghost exts = crate::models::texts(extensions@);
    let mut file_count: i64 = 0;
    let mut child_folder_count: i64 = 0;
    let mut total_bytes: i64 = 0;
    let mut media: Vec<usize> = Vec::new();
    let mut parts: Vec<Vec<char>> = Vec::new();
    let mut i: usize = 0;
    while i < entries.len()
        invariant
            i <= entries.len() <= i64::MAX,
            exts == crate::models::texts(extensions@),
            file_count == count_kind(entries@, i as int, EntryKind::File),
            child_folder_count == count_kind(entries@, i as int, EntryKind::Dir),
            total_bytes == total_size(entries@, i as int),
            media@ == media_upto(entries@, exts, i as int),
            views(parts@) == listing_parts(entries@, i as int),
        decreases entries.len() - i,
    {
        proof {
            lemma_count_bound(entries@, i as int, EntryKind::File);
            lemma_count_bound(entries@, i as int, EntryKind::Dir);
        }
        let e = &entries[i];
        match e.kind {
            EntryKind::Dir => {
                child_folder_count = child_folder_count + 1;
            },
            EntryKind::File => {
                file_count = file_count + 1;
                total_bytes = total_bytes.wrapping_add(e.size as i64);
                let mut line = chars_of(e.name.as_str());
                line.push('\0');
                assert(line@ == e.name@ + seq!['\0']);
                push_decimal(&mut line, e.size);
                assert(line@ == listing_part(e.name@, e.size));
                let ghost before = parts@;
                parts.push(line);
                assert(views(parts@) =~= views(before).push(listing_part(e.name@, e.size)));
                let ext = dotted_extension_of(e.name.as_str());
                if contains_text(extensions, &ext) {
                    media.push(i);
                }
            },
            EntryKind::Other => {},
        }
        i = i + 1;
    }
    let sorted = sort_texts(&parts);
    let joined = join_with_newlines(&sorted);
    proof {
        let p = views(parts@);
        lemma_text_leq_total();
        p.lemma_sort_by_ensures(|a: Seq<char>, b: Seq<char>| text_leq(a, b));
        let leq = |a: Seq<char>, b: Seq<char>| text_leq(a, b);
        assert(sorted_by(views(sorted@), leq));
        vstd::seq_lib::lemma_sorted_unique(views(sorted@), p.sort_by(leq), leq);
    }
    let hash = fnv1a64(joined.as_str().as_bytes());
    FolderSnapshot { file_count, child_folder_count, total_bytes, listing_hash: hash, media }
}

/// Whether a folder can be passed over: a quick scan, and what the catalog
/// remembers matches the snapshot in every count, the size and the hash.
pub open spec fn is_unchanged(deep_scan: bool, stored: Option<FolderStats>, snap: FolderSnapshot) -> bool {
    !deep_scan && match stored {
        Some(st) => st.file_count == snap.file_count && st.child_folder_count
            == snap.child_folder_count && st.total_file_bytes == snap.total_bytes
            && st.listing_hash@ == snap.listing_hash@,
        None => false,
    }
}

/// A folder is passed over exactly when the scan is not deep and the catalog
/// remembers the folder with the snapshot's file count, subfolder count,
/// total size and listing hash; so a file renamed in place, which changes
/// the listing hash but no count or size, is not passed over.
pub proof fn unchanged_exactly_when_all_match(deep_scan: bool, stored: Option<FolderStats>, snap: FolderSnapshot)
    ensures
        is_unchanged(deep_scan, stored, snap) <==> (!deep_scan && stored is Some
            && stored.unwrap().file_count == snap.file_count && stored.unwrap().child_folder_count
            == snap.child_folder_count && stored.unwrap().total_file_bytes == snap.total_bytes
            && stored.unwrap().listing_hash@ == snap.listing_hash@),
{
}

pub fn folder_unchanged(deep_scan: bool, stored: &Option<FolderStats>, snap: &FolderSnapshot) -> (b: bool)
    ensures
        b == is_unchanged(deep_scan, *stored, *snap),
{
    if deep_scan {
        return false;
    }
    match stored {
        Some(st) => st.file_count == snap.file_count && st.child_folder_count
            == snap.child_folder_count && st.total_file_bytes == snap.total_bytes
            && st.listing_hash == snap.listing_hash,
        None => false,
    }
}


/// The listing hash does not depend on the order of the lines: listings
/// with the same lines, in any order, hash alike.
pub proof fn listing_hash_ignores_order(a: Seq<DirEntryInfo>, b: Seq<DirEntryInfo>)
    requires
        listing_parts(a, a.len() as int).to_multiset() == listing_parts(b, b.len() as int).to_multiset(),
    ensures
        listing_hash(a) == listing_hash(b),
{
    let leq = |x: Seq<char>, y: Seq<char>| text_leq(x, y);
    let pa = listing_parts(a, a.len() as int);
    let pb = listing_parts(b, b.len() as int);
    lemma_text_leq_total();
    pa.lemma_sort_by_ensures(leq);
    pb.lemma_sort_by_ensures(leq);
    vstd::seq_lib::lemma_sorted_unique(pa.sort_by(leq), pb.sort_by(leq), leq);
}

/// The hash is always 16 hexadecimal digits.
pub proof fn listing_hash_width(entries: Seq<DirEntryInfo>)
    ensures
        listing_hash(entries).len() == 16,
{
    let parts = listing_parts(entries, entries.len() as int).sort_by(
        |a: Seq<char>, b: Seq<char>| text_leq(a, b),
    );
    crate::text::hex_digits_width(fnv_hash(vstd::utf8::encode_utf8(join_lines(parts))) as nat, 16);
}


/// The listing line an entry adds: one for a file, none otherwise.
pub open spec fn line_of(e: DirEntryInfo) -> Multiset<Seq<char>> {
    if e.kind == EntryKind::File {
        Multiset::singleton(listing_part(e.name@, e.size))
    } else {
        Multiset::empty()
    }
}

proof fn lemma_parts_prefix(s: Seq<DirEntryInfo>, j: int, n: int)
    requires
        0 <= n <= j < s.len(),
    ensures
        listing_parts(s, n) == listing_parts(s.remove(j), n),
    decreases n,
{
    if n > 0 {
        lemma_parts_prefix(s, j, n - 1);
        assert(s.remove(j)[n - 1] == s[n - 1]);
    }
}

proof fn lemma_parts_remove(s: Seq<DirEntryInfo>, j: int, n: int)
    requires
        0 <= j < n <= s.len(),
    ensures
        listing_parts(s, n).to_multiset() == listing_parts(s.remove(j), n - 1).to_multiset().add(
            line_of(s[j]),
        ),
    decreases n,
{
    broadcast use vstd::multiset::group_multiset_axioms;

    if n == j + 1 {
        lemma_parts_prefix(s, j, j);
        let p = listing_parts(s, j);
        if s[j].kind == EntryKind::File {
            assert(p.push(listing_part(s[j].name@, s[j].size)).to_multiset() =~= p.to_multiset().add(
                line_of(s[j]),
            ));
        } else {
            assert(p.to_multiset() =~= p.to_multiset().add(line_of(s[j])));
        }
    } else {
        lemma_parts_remove(s, j, n - 1);
        let r = s.remove(j);
        assert(r[n - 2] == s[n - 1]);
        let pr = listing_parts(r, n - 2);
        let ps = listing_parts(s, n - 1);
        if s[n - 1].kind == EntryKind::File {
            let part = listing_part(s[n - 1].name@, s[n - 1].size);
            assert(ps.push(part).to_multiset() =~= ps.to_multiset().insert(part));
            assert(pr.push(part).to_multiset() =~= pr.to_multiset().insert(part));
            assert(ps.to_multiset().insert(part) =~= pr.push(part).to_multiset().add(line_of(s[j])));
        }
    }
}

proof fn lemma_parts_permutation(a: Seq<DirEntryInfo>, b: Seq<DirEntryInfo>)
    requires
        a.to_multiset() == b.to_multiset(),
    ensures
        listing_parts(a, a.len() as int).to_multiset() == listing_parts(b, b.len() as int).to_multiset(),
    decreases a.len(),
{
    broadcast use vstd::multiset::group_multiset_axioms;

    if a.len() == 0 {
        assert(b.to_multiset().len() == 0);
        assert(b.len() == 0);
    } else {
        let x = a.last();
        assert(a.to_multiset().count(x) > 0) by {
            assert(a.contains(x)) by {
                assert(a[a.len() - 1] == x);
            }
        }
        assert(b.contains(x));
        let j = choose|j: int| 0 <= j < b.len() && b[j] == x;
        let a2 = a.remove(a.len() - 1);
        let b2 = b.remove(j);
        assert(a2.to_multiset() == a.to_multiset().remove(x));
        assert(b2.to_multiset() == b.to_multiset().remove(x));
        lemma_parts_permutation(a2, b2);
        lemma_parts_remove(a, a.len() - 1, a.len() as int);
        lemma_parts_remove(b, j, b.len() as int);
    }
}

/// The listing hash does not depend on the order in which a folder's
/// entries are read.
pub proof fn listing_hash_ignores_entry_order(a: Seq<DirEntryInfo>, b: Seq<DirEntryInfo>)
    requires
        a.to_multiset() == b.to_multiset(),
    ensures
        listing_hash(a) == listing_hash(b),
{
    lemma_parts_permutation(a, b);
    listing_hash_ignores_order(a, b);
}

} // verus!
