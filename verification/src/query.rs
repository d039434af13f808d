//! Catalog queries: which files a set of search clauses keeps, and in what
//! order they are listed.
use vstd::prelude::*;

use crate::models::{AppError, PatternClause};
use crate::pattern::{compile_term, regex_accepts, regex_finds, term_matches, CompiledTerm};
use crate::text::{
    ascii_lowercase, blank, chars_of, compare_text, eq_ignore_ascii_case, int_order, is_blank, lowercase,
    lemma_text_order_equal, lemma_text_order_flip, lemma_text_order_transitive, same_text, text_order,
    to_lowercase, Order,
};

verus! {

broadcast use {vstd::seq_lib::group_to_multiset_ensures, vstd::seq_lib::lemma_multiset_commutative};

/// What a query reads of a catalog entry. Times and durations are carried as
/// order keys: a larger key stands for a later time or a longer duration.
#[derive(Debug, Clone)]
pub struct RecordKeys {
    pub path: String,
    pub ext: String,
    pub size_bytes: i64,
    pub atime: u64,
    pub mtime: u64,
    pub birthtime: u64,
    pub duration_ms: Option<u64>,
    pub indexed_at: u64,
}

/// The column a result list is sorted by.
#[derive(PartialEq, Eq, Structural, Clone, Copy, Debug)]
pub enum SortField {
    Path,
    Ext,
    Size,
    Atime,
    Mtime,
    Birthtime,
    Duration,
    IndexedAt,
    Random,
}

/// The sort field a request names; unknown names sort by path.
pub open spec fn sort_field_of(s: Seq<char>) -> SortField {
    if s == "random"@ {
        SortField::Random
    } else if s == "ext"@ {
        SortField::Ext
    } else if s == "sizeBytes"@ || s == "size"@ {
        SortField::Size
    } else if s == "atime"@ {
        SortField::Atime
    } else if s == "mtime"@ {
        SortField::Mtime
    } else if s == "birthtime"@ {
        SortField::Birthtime
    } else if s == "durationMs"@ || s == "duration"@ {
        SortField::Duration
    } else if s == "indexedAt"@ {
        SortField::IndexedAt
    } else {
        SortField::Path
    }
}

pub fn parse_sort_field(s: &str) -> (f: SortField)
    ensures
        f == sort_field_of(s@),
{
    if same_text(s, "random") {
        SortField::Random
    } else if same_text(s, "ext") {
        SortField::Ext
    } else if same_text(s, "sizeBytes") || same_text(s, "size") {
        SortField::Size
    } else if same_text(s, "atime") {
        SortField::Atime
    } else if same_text(s, "mtime") {
        SortField::Mtime
    } else if same_text(s, "birthtime") {
        SortField::Birthtime
    } else if same_text(s, "durationMs") || same_text(s, "duration") {
        SortField::Duration
    } else if same_text(s, "indexedAt") {
        SortField::IndexedAt
    } else {
        SortField::Path
    }
}

/// Whether a sort direction asks for descending order (`desc`, any ASCII case).
pub open spec fn is_descending(dir: Seq<char>) -> bool {
    ascii_lowercase(dir) == ascii_lowercase("desc"@)
}

// ---------------------------------------------------------------- clauses

/// The terms of a clause that are not blank, in order.
pub open spec fn nonblank_terms(terms: Seq<String>) -> Seq<Seq<char>>
    decreases terms.len(),
{
    if terms.len() == 0 {
        seq![]
    } else {
        let rest = nonblank_terms(terms.drop_last());
        if is_blank(terms.last()@) {
            rest
        } else {
            rest.push(terms.last()@)
        }
    }
}

/// The clauses that keep at least one term, each as its non-blank terms.
pub open spec fn active_clauses(clauses: Seq<PatternClause>) -> Seq<Seq<Seq<char>>>
    decreases clauses.len(),
{
    if clauses.len() == 0 {
        seq![]
    } else {
        let rest = active_clauses(clauses.drop_last());
        let t = nonblank_terms(clauses.last().terms@);
        if t.len() == 0 {
            rest
        } else {
            rest.push(t)
        }
    }
}

/// Some non-blank term of the list is one the regex engine refuses.
pub open spec fn refused_in(terms: Seq<String>) -> bool {
    exists|j: int|
        0 <= j < terms.len() && !is_blank(#[trigger] terms[j]@) && !regex_accepts(terms[j]@)
}

/// Some clause holds a non-blank term the regex engine refuses.
pub open spec fn some_term_refused(clauses: Seq<PatternClause>) -> bool {
    exists|i: int| 0 <= i < clauses.len() && refused_in(#[trigger] clauses[i].terms@)
}

pub open spec fn term_patterns(v: Seq<CompiledTerm>) -> Seq<Seq<char>> {
    v.map_values(|t: CompiledTerm| t.pattern())
}

pub open spec fn clause_patterns(v: Seq<Vec<CompiledTerm>>) -> Seq<Seq<Seq<char>>> {
    v.map_values(|c: Vec<CompiledTerm>| term_patterns(c@))
}

/// A clause holds for a path when each of its terms matches somewhere in it.
pub open spec fn clause_hit(terms: Seq<Seq<char>>, path: Seq<char>) -> bool {
    forall|k: int| 0 <= k < terms.len() ==> regex_finds(#[trigger] terms[k], path)
}

/// Some clause holds for the path.
pub open spec fn any_hit(clauses: Seq<Seq<Seq<char>>>, path: Seq<char>) -> bool {
    exists|i: int| 0 <= i < clauses.len() && clause_hit(#[trigger] clauses[i], path)
}

/// A path is kept when it meets some wanted clause (or there is none) and
/// no ignore clause.
pub open spec fn kept(
    wanted: Seq<Seq<Seq<char>>>,
    ignore: Seq<Seq<Seq<char>>>,
    path: Seq<char>,
) -> bool {
    (wanted.len() == 0 || any_hit(wanted, path)) && !any_hit(ignore, path)
}

/// Indices below `n` of the files kept, ascending.
pub open spec fn kept_upto(
    files: Seq<RecordKeys>,
    wanted: Seq<Seq<Seq<char>>>,
    ignore: Seq<Seq<Seq<char>>>,
    n: int,
) -> Seq<usize>
    decreases n,
{
    if n <= 0 {
        seq![]
    } else {
        let rest = kept_upto(files, wanted, ignore, n - 1);
        if kept(wanted, ignore, files[n - 1].path@) {
            rest.push((n - 1) as usize)
        } else {
            rest
        }
    }
}

/// Indices of the files kept, ascending.
pub open spec fn kept_indices(
    files: Seq<RecordKeys>,
    wanted: Seq<Seq<Seq<char>>>,
    ignore: Seq<Seq<Seq<char>>>,
) -> Seq<usize> {
    kept_upto(files, wanted, ignore, files.len() as int)
}

/// Compiles the non-blank terms of one clause.
pub fn compile_terms(terms: &Vec<String>) -> (r: Result<Vec<CompiledTerm>, regex::Error>)
    ensures
        r matches Ok(v) ==> term_patterns(v@) == nonblank_terms(terms@),
        r is Err <==> refused_in(terms@),
{
    let mut out: Vec<CompiledTerm> = Vec::new();
    let mut i: usize = 0;
    while i < terms.len()
        invariant
            i <= terms.len(),
            term_patterns(out@) == nonblank_terms(terms@.take(i as int)),
            forall|j: int|
                0 <= j < i && !is_blank(#[trigger] terms@[j]@) ==> regex_accepts(terms@[j]@),
        decreases terms.len() - i,
    {
        assert(terms@.take(i + 1).drop_last() == terms@.take(i as int));
        let term = &terms[i];
        if !blank(term.as_str()) {
            match compile_term(term.as_str()) {
                Ok(t) => {
                    out.push(t);
                },
                Err(e) => {
                    assert(!is_blank(terms@[i as int]@) && !regex_accepts(terms@[i as int]@));
                    return Err(e);
                },
            }
        }
        i = i + 1;
        assert(term_patterns(out@) =~= nonblank_terms(terms@.take(i as int)));
    }
    assert(terms@.take(terms.len() as int) == terms@);
    Ok(out)
}

/// Compiles each clause's non-blank terms; clauses with none are dropped.
pub fn compile_clauses(clauses: &Vec<PatternClause>) -> (r: Result<
    Vec<Vec<CompiledTerm>>,
    regex::Error,
>)
    ensures
        r matches Ok(v) ==> clause_patterns(v@) == active_clauses(clauses@),
        r is Err <==> some_term_refused(clauses@),
{
    let mut out: Vec<Vec<CompiledTerm>> = Vec::new();
    let mut i: usize = 0;
    while i < clauses.len()
        invariant
            i <= clauses.len(),
            clause_patterns(out@) == active_clauses(clauses@.take(i as int)),
            forall|j: int| 0 <= j < i ==> !refused_in(#[trigger] clauses@[j].terms@),
        decreases clauses.len() - i,
    {
        assert(clauses@.take(i + 1).drop_last() == clauses@.take(i as int));
        match compile_terms(&clauses[i].terms) {
            Ok(terms) => {
                if terms.len() > 0 {
                    out.push(terms);
                }
            },
            Err(e) => {
                assert(refused_in(clauses@[i as int].terms@));
                return Err(e);
            },
        }
        i = i + 1;
        assert(clause_patterns(out@) =~= active_clauses(clauses@.take(i as int)));
    }
    assert(clauses@.take(clauses.len() as int) == clauses@);
    Ok(out)
}

/// Whether every term of a compiled clause matches the path.
pub fn clause_matches(terms: &Vec<CompiledTerm>, path: &str) -> (b: bool)
    ensures
        b == clause_hit(term_patterns(terms@), path@),
{
    let mut i: usize = 0;
    while i < terms.len()
        invariant
            i <= terms.len(),
            forall|k: int| 0 <= k < i ==> regex_finds(#[trigger] term_patterns(terms@)[k], path@),
        decreases terms.len() - i,
    {
        if !term_matches(&terms[i], path) {
            assert(!regex_finds(term_patterns(terms@)[i as int], path@));
            return false;
        }
        i = i + 1;
    }
    true
}

/// Whether some compiled clause holds for the path.
pub fn any_clause_matches(clauses: &Vec<Vec<CompiledTerm>>, path: &str) -> (b: bool)
    ensures
        b == any_hit(clause_patterns(clauses@), path@),
{
    let mut i: usize = 0;
    while i < clauses.len()
        invariant
            i <= clauses.len(),
            forall|k: int|
                0 <= k < i ==> !clause_hit(#[trigger] clause_patterns(clauses@)[k], path@),
        decreases clauses.len() - i,
    {
        if clause_matches(&clauses[i], path) {
            assert(clause_hit(clause_patterns(clauses@)[i as int], path@));
            return true;
        }
        i = i + 1;
    }
    false
}

/// Indices of the files that the compiled clauses keep, ascending.
pub fn keep_matching(
    files: &Vec<RecordKeys>,
    wanted: &Vec<Vec<CompiledTerm>>,
    ignore: &Vec<Vec<CompiledTerm>>,
) -> (r: Vec<usize>)
    ensures
        r@ == kept_indices(files@, clause_patterns(wanted@), clause_patterns(ignore@)),
{
    let ghost inc = clause_patterns(wanted@);
    let ghost ign = clause_patterns(ignore@);
    let mut out: Vec<usize> = Vec::new();
    let mut i: usize = 0;
    while i < files.len()
        invariant
            i <= files.len(),
            inc == clause_patterns(wanted@),
            ign == clause_patterns(ignore@),
            out@ == kept_upto(files@, inc, ign, i as int),
        decreases files.len() - i,
    {
        let path = files[i].path.as_str();
        let include_ok = wanted.len() == 0 || any_clause_matches(wanted, path);
        if include_ok && !any_clause_matches(ignore, path) {
            out.push(i);
        }
        i = i + 1;
    }
    out
}

// ---------------------------------------------------------------- ordering

/// Order of two optional keys: present before absent.
pub open spec fn option_order(a: Option<u64>, b: Option<u64>) -> Order {
    match (a, b) {
        (Some(x), Some(y)) => int_order(x as int, y as int),
        (Some(_), None) => Order::Less,
        (None, Some(_)) => Order::Greater,
        (None, None) => Order::Equal,
    }
}

/// Order by the sort column alone.
pub open spec fn primary_order(a: RecordKeys, b: RecordKeys, field: SortField) -> Order {
    match field {
        SortField::Ext => text_order(lowercase(a.ext@), lowercase(b.ext@)),
        SortField::Size => int_order(a.size_bytes as int, b.size_bytes as int),
        SortField::Atime => int_order(a.atime as int, b.atime as int),
        SortField::Mtime => int_order(a.mtime as int, b.mtime as int),
        SortField::Birthtime => int_order(a.birthtime as int, b.birthtime as int),
        SortField::Duration => option_order(a.duration_ms, b.duration_ms),
        SortField::IndexedAt => int_order(a.indexed_at as int, b.indexed_at as int),
        _ => Order::Equal,
    }
}

/// Order by lower-cased path.
pub open spec fn path_order(a: RecordKeys, b: RecordKeys) -> Order {
    text_order(lowercase(a.path@), lowercase(b.path@))
}

/// Order by the sort column, then by lower-cased path.
pub open spec fn field_order(a: RecordKeys, b: RecordKeys, field: SortField) -> Order {
    primary_order(a, b, field).tie_break(path_order(a, b))
}

/// The order in the requested direction.
pub open spec fn directed(o: Order, desc: bool) -> Order {
    if desc {
        o.flip()
    } else {
        o
    }
}

/// Entry `i` comes before entry `j` in a stable sort: it sorts lower, or
/// sorts equal and came first.
pub open spec fn precedes(
    files: Seq<RecordKeys>,
    field: SortField,
    desc: bool,
    i: int,
    j: int,
) -> bool {
    let o = directed(field_order(files[i], files[j], field), desc);
    o == Order::Less || (o == Order::Equal && i < j)
}

/// No entry of `s` comes after a later one.
pub open spec fn sorted_by(files: Seq<RecordKeys>, field: SortField, desc: bool, s: Seq<usize>) -> bool {
    forall|a: int, b: int|
        0 <= a < b < s.len() ==> precedes(files, field, desc, s[a] as int, s[b] as int)
}

/// Entries that may stand next to each other: `x` does not come after `y`.
pub open spec fn not_after(files: Seq<RecordKeys>, field: SortField, desc: bool, x: int, y: int) -> bool {
    !precedes(files, field, desc, y, x)
}

pub open spec fn weakly_sorted(files: Seq<RecordKeys>, field: SortField, desc: bool, s: Seq<usize>) -> bool {
    forall|a: int, b: int|
        0 <= a < b < s.len() ==> not_after(files, field, desc, s[a] as int, s[b] as int)
}

pub open spec fn in_range(s: Seq<usize>, n: int) -> bool {
    forall|k: int| 0 <= k < s.len() ==> #[trigger] s[k] < n
}

proof fn lemma_text_laws(a: Seq<char>, b: Seq<char>, c: Seq<char>, o: Order)
    requires
        o != Order::Equal,
    ensures
        text_order(b, a) == text_order(a, b).flip(),
        text_order(a, a) == Order::Equal,
        text_order(a, b) != o.flip() && text_order(b, c) != o.flip() ==> text_order(a, c)
            != o.flip() && (text_order(a, b) == o || text_order(b, c) == o ==> text_order(a, c)
            == o),
{
    lemma_text_order_flip(a, b);
    lemma_text_order_equal(a, a);
    if text_order(a, b) != o.flip() && text_order(b, c) != o.flip() {
        lemma_text_order_transitive(a, b, c, o);
    }
}

proof fn lemma_field_laws(a: RecordKeys, b: RecordKeys, c: RecordKeys, field: SortField, o: Order)
    requires
        o != Order::Equal,
    ensures
        field_order(b, a, field) == field_order(a, b, field).flip(),
        field_order(a, a, field) == Order::Equal,
        field_order(a, b, field) != o.flip() && field_order(b, c, field) != o.flip()
            ==> field_order(a, c, field) != o.flip() && (field_order(a, b, field) == o
            || field_order(b, c, field) == o ==> field_order(a, c, field) == o),
{
    let pa = lowercase(a.path@);
    let pb = lowercase(b.path@);
    let pc = lowercase(c.path@);
    lemma_text_laws(pa, pb, pc, o);
    lemma_text_laws(pa, pb, pc, o.flip());
    let ea = lowercase(a.ext@);
    let eb = lowercase(b.ext@);
    let ec = lowercase(c.ext@);
    lemma_text_laws(ea, eb, ec, o);
    lemma_text_laws(ea, eb, ec, o.flip());
}

proof fn lemma_precedes_irreflexive(files: Seq<RecordKeys>, field: SortField, desc: bool, i: int)
    requires
        0 <= i < files.len(),
    ensures
        !precedes(files, field, desc, i, i),
{
    lemma_field_laws(files[i], files[i], files[i], field, Order::Less);
}

proof fn lemma_precedes_connex(
    files: Seq<RecordKeys>,
    field: SortField,
    desc: bool,
    i: int,
    j: int,
)
    requires
        0 <= i < files.len(),
        0 <= j < files.len(),
        i != j,
    ensures
        precedes(files, field, desc, i, j) != precedes(files, field, desc, j, i),
{
    lemma_field_laws(files[i], files[j], files[j], field, Order::Less);
}

proof fn lemma_precedes_transitive(
    files: Seq<RecordKeys>,
    field: SortField,
    desc: bool,
    i: int,
    j: int,
    k: int,
)
    requires
        0 <= i < files.len(),
        0 <= j < files.len(),
        0 <= k < files.len(),
        precedes(files, field, desc, i, j),
        precedes(files, field, desc, j, k),
    ensures
        precedes(files, field, desc, i, k),
{
    let o = if desc {
        Order::Greater
    } else {
        Order::Less
    };
    lemma_field_laws(files[i], files[j], files[k], field, o);
    lemma_field_laws(files[i], files[j], files[k], field, o.flip());
}

/// `x` does not come after `y`, and `y` does not come after `z`: then `x`
/// does not come after `z`.
proof fn lemma_not_after_transitive(
    files: Seq<RecordKeys>,
    field: SortField,
    desc: bool,
    x: int,
    y: int,
    z: int,
)
    requires
        0 <= x < files.len(),
        0 <= y < files.len(),
        0 <= z < files.len(),
        not_after(files, field, desc, x, y),
        not_after(files, field, desc, y, z),
    ensures
        not_after(files, field, desc, x, z),
{
    if precedes(files, field, desc, z, x) {
        if x == y {
        } else {
            lemma_precedes_connex(files, field, desc, x, y);
            lemma_precedes_transitive(files, field, desc, z, x, y);
        }
    }
}

/// Lower-cased path and extension of each entry, computed once.
struct Lowered {
    path: Vec<char>,
    ext: Vec<char>,
}

spec fn lowered_ok(files: Seq<RecordKeys>, low: Seq<Lowered>) -> bool {
    &&& low.len() == files.len()
    &&& forall|k: int|
        0 <= k < files.len() ==> (#[trigger] low[k]).path@ == lowercase(files[k].path@)
            && low[k].ext@ == lowercase(files[k].ext@)
}

fn lower_all(files: &Vec<RecordKeys>) -> (low: Vec<Lowered>)
    ensures
        lowered_ok(files@, low@),
{
    let mut low: Vec<Lowered> = Vec::new();
    let mut i: usize = 0;
    while i < files.len()
        invariant
            i <= files.len(),
            low.len() == i,
            forall|k: int|
                0 <= k < i ==> (#[trigger] low@[k]).path@ == lowercase(files@[k].path@)
                    && low@[k].ext@ == lowercase(files@[k].ext@),
        decreases files.len() - i,
    {
        let p = chars_of(to_lowercase(files[i].path.as_str()).as_str());
        let e = chars_of(to_lowercase(files[i].ext.as_str()).as_str());
        low.push(Lowered { path: p, ext: e });
        i = i + 1;
    }
    low
}

fn compare_u64(a: u64, b: u64) -> (o: Order)
    ensures
        o == int_order(a as int, b as int),
{
    if a < b {
        Order::Less
    } else if a > b {
        Order::Greater
    } else {
        Order::Equal
    }
}

fn compare_entries(
    files: &Vec<RecordKeys>,
    low: &Vec<Lowered>,
    field: SortField,
    i: usize,
    j: usize,
) -> (o: Order)
    requires
        i < files.len(),
        j < files.len(),
        lowered_ok(files@, low@),
    ensures
        o == field_order(files@[i as int], files@[j as int], field),
{
    let a = &files[i];
    let b = &files[j];
    let first = match field {
        SortField::Ext => compare_text(&low[i].ext, &low[j].ext),
        SortField::Size => {
            if a.size_bytes < b.size_bytes {
                Order::Less
            } else if a.size_bytes > b.size_bytes {
                Order::Greater
            } else {
                Order::Equal
            }
        },
        SortField::Atime => compare_u64(a.atime, b.atime),
        SortField::Mtime => compare_u64(a.mtime, b.mtime),
        SortField::Birthtime => compare_u64(a.birthtime, b.birthtime),
        SortField::Duration => match (a.duration_ms, b.duration_ms) {
            (Some(x), Some(y)) => compare_u64(x, y),
            (Some(_), None) => Order::Less,
            (None, Some(_)) => Order::Greater,
            (None, None) => Order::Equal,
        },
        SortField::IndexedAt => compare_u64(a.indexed_at, b.indexed_at),
        _ => Order::Equal,
    };
    if first == Order::Equal {
        compare_text(&low[i].path, &low[j].path)
    } else {
        first
    }
}

fn precedes_exec(
    files: &Vec<RecordKeys>,
    low: &Vec<Lowered>,
    field: SortField,
    desc: bool,
    i: usize,
    j: usize,
) -> (b: bool)
    requires
        i < files.len(),
        j < files.len(),
        lowered_ok(files@, low@),
    ensures
        b == precedes(files@, field, desc, i as int, j as int),
{
    let o = compare_entries(files, low, field, i, j);
    let d = if desc {
        match o {
            Order::Less => Order::Greater,
            Order::Equal => Order::Equal,
            Order::Greater => Order::Less,
        }
    } else {
        o
    };
    d == Order::Less || (d == Order::Equal && i < j)
}

fn copy_range(v: &Vec<usize>, lo: usize, hi: usize) -> (r: Vec<usize>)
    requires
        lo <= hi <= v.len(),
    ensures
        r@ == v@.subrange(lo as int, hi as int),
{
    let mut r: Vec<usize> = Vec::new();
    let mut k: usize = lo;
    while k < hi
        invariant
            lo <= k <= hi,
            hi <= v.len(),
            r@ == v@.subrange(lo as int, k as int),
        decreases hi - k,
    {
        r.push(v[k]);
        k = k + 1;
        assert(r@ == v@.subrange(lo as int, k as int));
    }
    r
}

fn merge(
    files: &Vec<RecordKeys>,
    low: &Vec<Lowered>,
    field: SortField,
    desc: bool,
    l: &Vec<usize>,
    r: &Vec<usize>,
) -> (out: Vec<usize>)
    requires
        lowered_ok(files@, low@),
        in_range(l@, files.len() as int),
        in_range(r@, files.len() as int),
        weakly_sorted(files@, field, desc, l@),
        weakly_sorted(files@, field, desc, r@),
    ensures
        out@.to_multiset() == l@.to_multiset().add(r@.to_multiset()),
        in_range(out@, files.len() as int),
        weakly_sorted(files@, field, desc, out@),
{
    let ghost fs = files@;
    let mut out: Vec<usize> = Vec::new();
    let mut i: usize = 0;
    let mut j: usize = 0;
    while i < l.len() || j < r.len()
        invariant
            fs == files@,
            lowered_ok(files@, low@),
            i <= l.len(),
            j <= r.len(),
            in_range(l@, files.len() as int),
            in_range(r@, files.len() as int),
            weakly_sorted(fs, field, desc, l@),
            weakly_sorted(fs, field, desc, r@),
            out@.to_multiset() == l@.take(i as int).to_multiset().add(
                r@.take(j as int).to_multiset(),
            ),
            in_range(out@, files.len() as int),
            weakly_sorted(fs, field, desc, out@),
            forall|a: int, p: int|
                0 <= a < out.len() && i <= p < l.len() ==> not_after(
                    fs,
                    field,
                    desc,
                    #[trigger] out@[a] as int,
                    #[trigger] l@[p] as int,
                ),
            forall|a: int, q: int|
                0 <= a < out.len() && j <= q < r.len() ==> not_after(
                    fs,
                    field,
                    desc,
                    #[trigger] out@[a] as int,
                    #[trigger] r@[q] as int,
                ),
        decreases l.len() + r.len() - i - j,
    {
        let take_left = if j >= r.len() {
            true
        } else if i >= l.len() {
            false
        } else {
            !precedes_exec(files, low, field, desc, r[j], l[i])
        };
        if take_left {
            let x = l[i];
            proof {
                // x is not after anything still waiting on either side
                assert forall|q: int| j <= q < r.len() implies not_after(
                    fs,
                    field,
                    desc,
                    x as int,
                    #[trigger] r@[q] as int,
                ) by {
                    assert(not_after(fs, field, desc, x as int, r@[j as int] as int));
                    if q > j {
                        assert(not_after(fs, field, desc, r@[j as int] as int, r@[q] as int));
                        lemma_not_after_transitive(
                            fs,
                            field,
                            desc,
                            x as int,
                            r@[j as int] as int,
                            r@[q] as int,
                        );
                    }
                }
                assert forall|p: int| i < p < l.len() implies not_after(
                    fs,
                    field,
                    desc,
                    x as int,
                    #[trigger] l@[p] as int,
                ) by {
                    assert(not_after(fs, field, desc, l@[i as int] as int, l@[p] as int));
                }
                assert(l@.take(i + 1) == l@.take(i as int).push(x));
            }
            out.push(x);
            i = i + 1;
            proof {
                assert forall|a: int, b: int| 0 <= a < b < out.len() implies not_after(
                    fs,
                    field,
                    desc,
                    out@[a] as int,
                    out@[b] as int,
                ) by {
                    if b == out.len() - 1 {
                        assert(not_after(fs, field, desc, out@[a] as int, l@[i - 1] as int));
                    }
                }
            }
        } else {
            let y = r[j];
            proof {
                assert forall|p: int| i <= p < l.len() implies not_after(
                    fs,
                    field,
                    desc,
                    y as int,
                    #[trigger] l@[p] as int,
                ) by {
                    assert(precedes(fs, field, desc, y as int, l@[i as int] as int));
                    lemma_precedes_irreflexive(fs, field, desc, y as int);
                    if p > i {
                        assert(not_after(fs, field, desc, l@[i as int] as int, l@[p] as int));
                        if precedes(fs, field, desc, l@[p] as int, y as int) {
                            if l@[i as int] != l@[p] {
                                lemma_precedes_connex(
                                    fs,
                                    field,
                                    desc,
                                    l@[i as int] as int,
                                    l@[p] as int,
                                );
                                lemma_precedes_transitive(
                                    fs,
                                    field,
                                    desc,
                                    l@[i as int] as int,
                                    l@[p] as int,
                                    y as int,
                                );
                                lemma_precedes_transitive(
                                    fs,
                                    field,
                                    desc,
                                    y as int,
                                    l@[i as int] as int,
                                    y as int,
                                );
                            } else {
                                lemma_precedes_transitive(
                                    fs,
                                    field,
                                    desc,
                                    y as int,
                                    l@[i as int] as int,
                                    y as int,
                                );
                            }
                        }
                    } else {
                        if precedes(fs, field, desc, l@[i as int] as int, y as int) {
                            lemma_precedes_transitive(
                                fs,
                                field,
                                desc,
                                y as int,
                                l@[i as int] as int,
                                y as int,
                            );
                        }
                    }
                }
                assert forall|q: int| j < q < r.len() implies not_after(
                    fs,
                    field,
                    desc,
                    y as int,
                    #[trigger] r@[q] as int,
                ) by {
                    assert(not_after(fs, field, desc, r@[j as int] as int, r@[q] as int));
                }
                assert(r@.take(j + 1) == r@.take(j as int).push(y));
            }
            out.push(y);
            j = j + 1;
            proof {
                assert forall|a: int, b: int| 0 <= a < b < out.len() implies not_after(
                    fs,
                    field,
                    desc,
                    out@[a] as int,
                    out@[b] as int,
                ) by {
                    if b == out.len() - 1 {
                        assert(not_after(fs, field, desc, out@[a] as int, r@[j - 1] as int));
                    }
                }
            }
        }
    }
    assert(l@.take(l.len() as int) == l@);
    assert(r@.take(r.len() as int) == r@);
    out
}

fn merge_sort(
    files: &Vec<RecordKeys>,
    low: &Vec<Lowered>,
    field: SortField,
    desc: bool,
    v: &Vec<usize>,
) -> (out: Vec<usize>)
    requires
        lowered_ok(files@, low@),
        in_range(v@, files.len() as int),
    ensures
        out@.to_multiset() == v@.to_multiset(),
        in_range(out@, files.len() as int),
        weakly_sorted(files@, field, desc, out@),
    decreases v.len(),
{
    if v.len() <= 1 {
        let out = copy_range(v, 0, v.len());
        assert(out@ == v@);
        return out;
    }
    let mid = v.len() / 2;
    let left = copy_range(v, 0, mid);
    let right = copy_range(v, mid, v.len());
    assert(v@ == left@ + right@);
    let ls = merge_sort(files, low, field, desc, &left);
    let rs = merge_sort(files, low, field, desc, &right);
    merge(files, low, field, desc, &ls, &rs)
}

// ---------------------------------------------------------------- shuffle

/// The seed of a shuffle: the clock's bits mixed with the list's length.
pub open spec fn shuffle_seed(time_bits: u64, len: nat) -> u64 {
    time_bits ^ (len as u64).wrapping_mul(0x9e3779b97f4a7c15u64)
}

/// One step of the linear congruential generator.
pub open spec fn lcg_next(state: u64) -> u64 {
    state.wrapping_mul(6364136223846793005u64).wrapping_add(1u64)
}

/// Fisher-Yates from position `i` down to 1: each step draws the next state
/// and swaps position `i` with position `(state >> 33) % (i + 1)`.
pub open spec fn shuffle_from(s: Seq<usize>, state: u64, i: nat) -> Seq<usize>
    decreases i,
{
    if i == 0 || i >= s.len() {
        s
    } else {
        let next = lcg_next(state);
        let j = ((next >> 33u64) as int) % ((i + 1) as int);
        shuffle_from(s.update(i as int, s[j]).update(j, s[i as int]), next, (i - 1) as nat)
    }
}

/// The order a random sort produces from `s` and a seed.
pub open spec fn shuffled(s: Seq<usize>, seed: u64) -> Seq<usize> {
    if s.len() <= 1 {
        s
    } else {
        shuffle_from(s, seed, (s.len() - 1) as nat)
    }
}

proof fn lemma_swap_multiset(s: Seq<usize>, i: int, j: int)
    requires
        0 <= i < s.len(),
        0 <= j < s.len(),
    ensures
        s.update(i, s[j]).update(j, s[i]).to_multiset() == s.to_multiset(),
{
    broadcast use vstd::seq_lib::to_multiset_update, vstd::multiset::group_multiset_axioms;

    let t = s.update(i, s[j]);
    assert(t.to_multiset() == s.to_multiset().insert(s[j]).remove(s[i]));
    assert(t[j] == (if i == j {
        s[j]
    } else {
        s[j]
    }));
    assert(t.update(j, s[i]).to_multiset() == t.to_multiset().insert(s[i]).remove(t[j]));
    assert(t.update(j, s[i]).to_multiset() =~= s.to_multiset());
}

proof fn lemma_shuffle_multiset(s: Seq<usize>, state: u64, i: nat)
    ensures
        shuffle_from(s, state, i).to_multiset() == s.to_multiset(),
        shuffle_from(s, state, i).len() == s.len(),
    decreases i,
{
    if i == 0 || i >= s.len() {
    } else {
        let next = lcg_next(state);
        let j = ((next >> 33u64) as int) % ((i + 1) as int);
        lemma_swap_multiset(s, i as int, j);
        lemma_shuffle_multiset(s.update(i as int, s[j]).update(j, s[i as int]), next, (i - 1) as nat);
    }
}

/// Reorders `v` pseudo-randomly from `seed`, as the random sort does.
pub fn shuffle(v: &mut Vec<usize>, seed: u64)
    ensures
        final(v)@ == shuffled(old(v)@, seed),
        final(v)@.to_multiset() == old(v)@.to_multiset(),
{
    let n = v.len();
    if n <= 1 {
        return;
    }
    let mut state = seed;
    let mut i: usize = n - 1;
    while i >= 1
        invariant
            n == v.len(),
            n >= 2,
            i < n,
            shuffle_from(v@, state, i as nat) == shuffled(old(v)@, seed),
        decreases i,
    {
        state = state.wrapping_mul(6364136223846793005).wrapping_add(1);
        let j: usize = ((state >> 33u64) % ((i as u64) + 1)) as usize;
        assert(j == ((state >> 33u64) as int) % (i + 1));
        let a = v[i];
        let b = v[j];
        v.set(i, b);
        v.set(j, a);
        i = i - 1;
    }
    proof {
        lemma_shuffle_multiset(old(v)@, seed, (n - 1) as nat);
    }
}

// ---------------------------------------------------------------- query

/// The order in which a query lists the files it keeps.
pub open spec fn listed_in_order(
    files: Seq<RecordKeys>,
    kept: Seq<usize>,
    field: SortField,
    desc: bool,
    time_bits: u64,
    order: Seq<usize>,
) -> bool {
    if field == SortField::Random {
        order == shuffled(kept, shuffle_seed(time_bits, kept.len()))
    } else {
        order.to_multiset() == kept.to_multiset() && sorted_by(files, field, desc, order)
    }
}

/// Keeps the files that match some wanted clause (or all, when there is
/// none) and no ignore clause, and lists them (by index into `files`) in the
/// requested order: sorted stably by the field, then by lower-cased path,
/// ascending or descending; or shuffled from the clock's bits `time_bits`.
/// Blank terms are skipped; a term the regex engine refuses is an error.
pub fn filter_and_sort(
    files: &Vec<RecordKeys>,
    include_clauses: &Vec<PatternClause>,
    ignore_clauses: &Vec<PatternClause>,
    sort_field: &str,
    sort_dir: &str,
    time_bits: u64,
) -> (r: Result<Vec<usize>, AppError>)
    ensures
        match r {
            Ok(order) => listed_in_order(
                files@,
                kept_indices(
                    files@,
                    active_clauses(include_clauses@),
                    active_clauses(ignore_clauses@),
                ),
                sort_field_of(sort_field@),
                is_descending(sort_dir@),
                time_bits,
                order@,
            ),
            Err(e) => e is Regex,
        },
        r is Err <==> (some_term_refused(include_clauses@) || some_term_refused(ignore_clauses@)),
{
    let includes = match compile_clauses(include_clauses) {
        Ok(c) => c,
        Err(e) => {
            return Err(AppError::Regex(e));
        },
    };
    let ignores = match compile_clauses(ignore_clauses) {
        Ok(c) => c,
        Err(e) => {
            return Err(AppError::Regex(e));
        },
    };
    let mut out = keep_matching(files, &includes, &ignores);
    let ghost kept_ix = out@;
    proof {
        lemma_kept_in_range(files@, clause_patterns(includes@), clause_patterns(ignores@), files.len() as int);
    }
    let desc = eq_ignore_ascii_case(sort_dir, "desc");
    let field = parse_sort_field(sort_field);
    match field {
        SortField::Random => {
            let len = out.len() as u64;
            let seed = time_bits ^ len.wrapping_mul(0x9e3779b97f4a7c15);
            shuffle(&mut out, seed);
            Ok(out)
        },
        _ => {
            let low = lower_all(files);
            let sorted = merge_sort(files, &low, field, desc, &out);
            proof {
                lemma_kept_distinct(files@, clause_patterns(includes@), clause_patterns(ignores@), files.len() as int);
                lemma_weak_to_strict(files@, field, desc, kept_ix, sorted@);
            }
            Ok(sorted)
        },
    }
}

proof fn lemma_kept_in_range(
    files: Seq<RecordKeys>,
    wanted: Seq<Seq<Seq<char>>>,
    ignore: Seq<Seq<Seq<char>>>,
    n: int,
)
    requires
        0 <= n <= files.len(),
        files.len() <= usize::MAX,
    ensures
        forall|k: int|
            0 <= k < kept_upto(files, wanted, ignore, n).len() ==> #[trigger] kept_upto(
                files,
                wanted,
                ignore,
                n,
            )[k] < n,
    decreases n,
{
    if n > 0 {
        lemma_kept_in_range(files, wanted, ignore, n - 1);
        let rest = kept_upto(files, wanted, ignore, n - 1);
        let all = kept_upto(files, wanted, ignore, n);
        assert forall|k: int| 0 <= k < all.len() implies #[trigger] all[k] < n by {
            if k < rest.len() {
                assert(all[k] == rest[k]);
            }
        }
    }
}

proof fn lemma_kept_distinct(
    files: Seq<RecordKeys>,
    wanted: Seq<Seq<Seq<char>>>,
    ignore: Seq<Seq<Seq<char>>>,
    n: int,
)
    requires
        0 <= n <= files.len(),
        files.len() <= usize::MAX,
    ensures
        kept_upto(files, wanted, ignore, n).no_duplicates(),
    decreases n,
{
    if n > 0 {
        lemma_kept_distinct(files, wanted, ignore, n - 1);
        lemma_kept_in_range(files, wanted, ignore, n - 1);
        let rest = kept_upto(files, wanted, ignore, n - 1);
        if kept(wanted, ignore, files[n - 1].path@) {
            let s = rest.push((n - 1) as usize);
            assert forall|a: int, b: int| 0 <= a < s.len() && 0 <= b < s.len() && a != b implies s[a]
                != s[b] by {
                if a < rest.len() && b < rest.len() {
                } else if a < rest.len() {
                    assert(rest[a] < n - 1);
                } else {
                    assert(rest[b] < n - 1);
                }
            }
        }
    }
}

proof fn lemma_weak_to_strict(
    files: Seq<RecordKeys>,
    field: SortField,
    desc: bool,
    kept: Seq<usize>,
    s: Seq<usize>,
)
    requires
        kept.no_duplicates(),
        s.to_multiset() == kept.to_multiset(),
        in_range(s, files.len() as int),
        weakly_sorted(files, field, desc, s),
    ensures
        sorted_by(files, field, desc, s),
{
    broadcast use vstd::multiset::group_multiset_axioms;

    kept.lemma_multiset_has_no_duplicates();
    assert forall|a: int, b: int| 0 <= a < b < s.len() implies precedes(
        files,
        field,
        desc,
        s[a] as int,
        s[b] as int,
    ) by {
        assert(s[a] < files.len() && s[b] < files.len());
        if s[a] == s[b] {
            let x = s[a];
            lemma_two_occurrences(s, a, b);
            assert(kept.to_multiset().count(x) >= 2);
            assert(kept.to_multiset().contains(x));
            assert(kept.to_multiset().count(x) == 1);
        } else {
            assert(not_after(files, field, desc, s[a] as int, s[b] as int));
            lemma_precedes_connex(files, field, desc, s[a] as int, s[b] as int);
        }
    }
}

proof fn lemma_two_occurrences(s: Seq<usize>, a: int, b: int)
    requires
        0 <= a < b < s.len(),
        s[a] == s[b],
    ensures
        s.to_multiset().count(s[a]) >= 2,
    decreases s.len(),
{
    broadcast use vstd::multiset::group_multiset_axioms;

    let x = s[a];
    if b == s.len() - 1 {
        let t = s.drop_last();
        assert(s == t.push(x));
        assert(t[a] == x);
        assert(t.contains(x));
        assert(t.to_multiset().count(x) >= 1);
    } else {
        let t = s.drop_last();
        assert(s == t.push(s.last()));
        assert(t[a] == x && t[b] == x);
        lemma_two_occurrences(t, a, b);
    }
}


/// A query lists each kept file exactly once, in sorted and in random order
/// alike.
pub proof fn listing_is_permutation(
    files: Seq<RecordKeys>,
    kept: Seq<usize>,
    field: SortField,
    desc: bool,
    time_bits: u64,
    order: Seq<usize>,
)
    requires
        listed_in_order(files, kept, field, desc, time_bits, order),
    ensures
        order.to_multiset() == kept.to_multiset(),
{
    if field == SortField::Random {
        let seed = shuffle_seed(time_bits, kept.len());
        if kept.len() > 1 {
            lemma_shuffle_multiset(kept, seed, (kept.len() - 1) as nat);
        }
    }
}

/// Without clauses every file is kept, in catalog order.
pub proof fn no_clauses_keep_everything(files: Seq<RecordKeys>, n: int)
    requires
        0 <= n <= files.len(),
        files.len() <= usize::MAX,
    ensures
        kept_upto(files, seq![], seq![], n) == Seq::new(n as nat, |i: int| i as usize),
    decreases n,
{
    if n > 0 {
        no_clauses_keep_everything(files, n - 1);
        assert(kept(seq![], seq![], files[n - 1].path@));
        assert(kept_upto(files, seq![], seq![], n) =~= Seq::new(n as nat, |i: int| i as usize));
    }
}

/// A path is kept only if no ignore clause holds for it, and (when there
/// are include clauses) some include clause does.
pub proof fn kept_means_matched(
    files: Seq<RecordKeys>,
    wanted: Seq<Seq<Seq<char>>>,
    ignore: Seq<Seq<Seq<char>>>,
    n: int,
    k: int,
)
    requires
        0 <= n <= files.len(),
        files.len() <= usize::MAX,
        0 <= k < kept_upto(files, wanted, ignore, n).len(),
    ensures
        ({
            let i = kept_upto(files, wanted, ignore, n)[k] as int;
            &&& 0 <= i < n
            &&& !any_hit(ignore, files[i].path@)
            &&& (wanted.len() == 0 || any_hit(wanted, files[i].path@))
        }),
    decreases n,
{
    lemma_kept_in_range(files, wanted, ignore, n);
    let rest = kept_upto(files, wanted, ignore, n - 1);
    if k < rest.len() {
        kept_means_matched(files, wanted, ignore, n - 1, k);
    }
}


proof fn lemma_precedes_asymmetric(
    files: Seq<RecordKeys>,
    field: SortField,
    desc: bool,
    i: int,
    j: int,
)
    requires
        0 <= i < files.len(),
        0 <= j < files.len(),
        precedes(files, field, desc, i, j),
    ensures
        !precedes(files, field, desc, j, i),
{
    if precedes(files, field, desc, j, i) {
        lemma_precedes_transitive(files, field, desc, i, j, i);
        lemma_precedes_irreflexive(files, field, desc, i);
    }
}

/// Two listings sorted in the same order that hold the same entries are the
/// same listing.
pub proof fn sorted_listing_unique(
    files: Seq<RecordKeys>,
    field: SortField,
    desc: bool,
    x: Seq<usize>,
    y: Seq<usize>,
)
    requires
        in_range(x, files.len() as int),
        in_range(y, files.len() as int),
        sorted_by(files, field, desc, x),
        sorted_by(files, field, desc, y),
        x.to_multiset() == y.to_multiset(),
    ensures
        x == y,
    decreases x.len(),
{
    broadcast use vstd::multiset::group_multiset_axioms;

    if x.len() == 0 {
        assert(y.to_multiset().len() == 0);
        assert(y.len() == 0);
        assert(x =~= y);
    } else {
        assert(x.to_multiset().len() == x.len());
        assert(y.to_multiset().len() == y.len());
        assert(y.len() == x.len());
        assert(x.contains(x[0]));
        assert(x.to_multiset().count(x[0]) > 0);
        assert(y.to_multiset().count(x[0]) > 0);
        assert(y.contains(x[0]));
        assert(y.contains(y[0]));
        assert(y.to_multiset().count(y[0]) > 0);
        assert(x.to_multiset().count(y[0]) > 0);
        assert(x.contains(y[0]));
        let i = choose|i: int| 0 <= i < x.len() && x[i] == y[0];
        let k = choose|k: int| 0 <= k < y.len() && y[k] == x[0];
        if i > 0 && k > 0 {
            assert(precedes(files, field, desc, x[0] as int, x[i] as int));
            assert(precedes(files, field, desc, y[0] as int, y[k] as int));
            assert(x[0] < files.len() && y[0] < files.len());
            lemma_precedes_asymmetric(files, field, desc, x[0] as int, y[0] as int);
        } else if i > 0 {
            assert(x[0] == y[0]);
            assert(precedes(files, field, desc, x[0] as int, x[i] as int));
            assert(x[0] < files.len());
            lemma_precedes_irreflexive(files, field, desc, x[0] as int);
        } else if k > 0 {
            assert(x[0] == y[0]);
            assert(precedes(files, field, desc, y[0] as int, y[k] as int));
            assert(y[0] < files.len());
            lemma_precedes_irreflexive(files, field, desc, y[0] as int);
        }
        assert(x[0] == y[0]);
        assert(x.drop_first().to_multiset() == x.to_multiset().remove(x[0])) by {
            assert(x.drop_first() == x.remove(0));
        }
        assert(y.drop_first().to_multiset() == y.to_multiset().remove(y[0])) by {
            assert(y.drop_first() == y.remove(0));
        }
        sorted_listing_unique(files, field, desc, x.drop_first(), y.drop_first());
        assert(x =~= seq![x[0]] + x.drop_first());
        assert(y =~= seq![y[0]] + y.drop_first());
    }
}

/// When no two of the listed files compare equal on the sort column and
/// lower-cased path, the descending listing is the ascending one reversed.
pub proof fn descending_reverses_ascending(
    files: Seq<RecordKeys>,
    field: SortField,
    up: Seq<usize>,
    down: Seq<usize>,
)
    requires
        in_range(up, files.len() as int),
        in_range(down, files.len() as int),
        sorted_by(files, field, false, up),
        sorted_by(files, field, true, down),
        up.to_multiset() == down.to_multiset(),
        forall|a: int, b: int|
            0 <= a < up.len() && 0 <= b < up.len() && up[a] != up[b] ==> field_order(
                files[up[a] as int],
                files[up[b] as int],
                field,
            ) != Order::Equal,
    ensures
        down == up.reverse(),
{
    broadcast use vstd::seq_lib::group_seq_properties;

    let r = up.reverse();
    let n = up.len();
    assert forall|a: int, b: int| 0 <= a < b < r.len() implies precedes(
        files,
        field,
        true,
        r[a] as int,
        r[b] as int,
    ) by {
        let x = r[a];
        let y = r[b];
        assert(x == up[n - 1 - a] && y == up[n - 1 - b]);
        assert(precedes(files, field, false, y as int, x as int));
        assert(y < files.len() && x < files.len());
        if x == y {
            lemma_precedes_irreflexive(files, field, false, x as int);
        }
        lemma_field_laws(files[x as int], files[y as int], files[y as int], field, Order::Less);
    }
    assert forall|k: int| 0 <= k < r.len() implies #[trigger] r[k] < files.len() by {
        assert(r[k] == up[n - 1 - k]);
    }
    up.lemma_reverse_to_multiset();
    sorted_listing_unique(files, field, true, down, r);
}

/// Whether `x` may be listed before `y` when the column named `field` is
/// sorted (descending when `desc`): times, sizes and the indexing time by
/// their keys; durations with the known ones first.
pub open spec fn listed_before_by_column(x: RecordKeys, y: RecordKeys, field: Seq<char>, desc: bool) -> bool {
    &&& field == "mtime"@ ==> if desc { x.mtime >= y.mtime } else { x.mtime <= y.mtime }
    &&& field == "atime"@ ==> if desc { x.atime >= y.atime } else { x.atime <= y.atime }
    &&& field == "birthtime"@ ==> if desc { x.birthtime >= y.birthtime } else { x.birthtime <= y.birthtime }
    &&& field == "indexedAt"@ ==> if desc { x.indexed_at >= y.indexed_at } else { x.indexed_at <= y.indexed_at }
    &&& (field == "size"@ || field == "sizeBytes"@) ==> if desc {
        x.size_bytes >= y.size_bytes
    } else {
        x.size_bytes <= y.size_bytes
    }
    &&& (field == "duration"@ || field == "durationMs"@) ==> if desc {
        !(x.duration_ms is Some && y.duration_ms is None) && ((x.duration_ms is Some
            && y.duration_ms is Some) ==> x.duration_ms.unwrap() >= y.duration_ms.unwrap())
    } else {
        !(x.duration_ms is None && y.duration_ms is Some) && ((x.duration_ms is Some
            && y.duration_ms is Some) ==> x.duration_ms.unwrap() <= y.duration_ms.unwrap())
    }
}

proof fn lemma_precedes_primary(files: Seq<RecordKeys>, f: SortField, desc: bool, i: int, j: int)
    requires
        precedes(files, f, desc, i, j),
    ensures
        desc ==> primary_order(files[i], files[j], f) != Order::Less,
        !desc ==> primary_order(files[i], files[j], f) != Order::Greater,
{
}

/// A query sorted by a named column lists its files in that column's order:
/// for the times (`mtime`, `atime`, `birthtime`, `indexedAt`) and the size,
/// every file listed before another has a key no greater (no smaller when
/// descending); for the duration, files with a known duration come first
/// (last when descending) and known durations rise (fall).
pub proof fn listing_follows_the_named_column(
    files: Seq<RecordKeys>,
    kept: Seq<usize>,
    field: Seq<char>,
    dir: Seq<char>,
    time_bits: u64,
    order: Seq<usize>,
)
    requires
        listed_in_order(files, kept, sort_field_of(field), is_descending(dir), time_bits, order),
    ensures
        forall|a: int, b: int|
            0 <= a < b < order.len() ==> listed_before_by_column(
                files[#[trigger] order[a] as int],
                files[#[trigger] order[b] as int],
                field,
                is_descending(dir),
            ),
{
    reveal_strlit("random");
    reveal_strlit("ext");
    reveal_strlit("sizeBytes");
    reveal_strlit("size");
    reveal_strlit("atime");
    reveal_strlit("mtime");
    reveal_strlit("birthtime");
    reveal_strlit("durationMs");
    reveal_strlit("duration");
    reveal_strlit("indexedAt");
    assert("random"@[0] == 'r' && "ext"@[0] == 'e' && "sizeBytes"@[0] == 's' && "size"@[0] == 's'
        && "atime"@[0] == 'a' && "mtime"@[0] == 'm' && "birthtime"@[0] == 'b' && "durationMs"@[0]
        == 'd' && "duration"@[0] == 'd' && "indexedAt"@[0] == 'i');
    assert("sizeBytes"@.len() == 9 && "size"@.len() == 4 && "durationMs"@.len() == 10
        && "duration"@.len() == 8);
    let f = sort_field_of(field);
    let desc = is_descending(dir);
    assert forall|a: int, b: int| 0 <= a < b < order.len() implies listed_before_by_column(
        files[#[trigger] order[a] as int],
        files[#[trigger] order[b] as int],
        field,
        desc,
    ) by {
        if f != SortField::Random {
            assert(sorted_by(files, f, desc, order));
            assert(precedes(files, f, desc, order[a] as int, order[b] as int));
            lemma_precedes_primary(files, f, desc, order[a] as int, order[b] as int);
        }
        if field == "mtime"@ {
            assert(f == SortField::Mtime);
        } else if field == "atime"@ {
            assert(f == SortField::Atime);
        } else if field == "birthtime"@ {
            assert(f == SortField::Birthtime);
        } else if field == "indexedAt"@ {
            assert(f == SortField::IndexedAt);
        } else if field == "size"@ || field == "sizeBytes"@ {
            assert(f == SortField::Size);
        } else if field == "duration"@ || field == "durationMs"@ {
            assert(f == SortField::Duration);
        }
    }
}

} // verus!
