//! Settings rules: how extensions are normalized, what a saved or imported
//! settings file holds, and how files written by older versions are read.
use vstd::prelude::*;

use crate::models::{texts, AppError, AppSettings};
use crate::text::{chars_of, lowercase, push_all, string_of, to_lowercase, trim, trim_text};

verus! {

/// An extension as the scan compares it: trimmed, lower-cased, with a leading
/// dot; empty when nothing is left.
pub open spec fn normalized_extension(e: Seq<char>) -> Seq<char> {
    let t = lowercase(trim(e));
    if t.len() == 0 {
        t
    } else if t[0] == '.' {
        t
    } else {
        seq!['.'] + t
    }
}

/// The normalized forms of the first `n` extensions, empty ones dropped.
pub open spec fn normalized_upto(exts: Seq<Seq<char>>, n: int) -> Seq<Seq<char>>
    decreases n,
{
    if n <= 0 {
        seq![]
    } else {
        let rest = normalized_upto(exts, n - 1);
        let e = normalized_extension(exts[n - 1]);
        if e.len() == 0 {
            rest
        } else {
            rest.push(e)
        }
    }
}

pub open spec fn normalized_extensions(exts: Seq<Seq<char>>) -> Seq<Seq<char>> {
    normalized_upto(exts, exts.len() as int)
}

/// One extension, normalized.
pub fn normalize_extension(e: &str) -> (r: String)
    ensures
        r@ == normalized_extension(e@),
{
    let t = to_lowercase(trim_text(e).as_str());
    let cs = chars_of(t.as_str());
    if cs.len() == 0 || cs[0] == '.' {
        t
    } else {
        let mut out: Vec<char> = Vec::new();
        out.push('.');
        push_all(&mut out, &cs);
        string_of(&out)
    }
}

/// Every extension trimmed, lower-cased and given a leading dot; blank ones
/// are dropped.
pub fn normalize_extensions(exts: &Vec<String>) -> (r: Vec<String>)
    ensures
        texts(r@) == normalized_extensions(texts(exts@)),
{
    let ghost input = texts(exts@);
    let mut out: Vec<String> = Vec::new();
    let mut i: usize = 0;
    while i < exts.len()
        invariant
            i <= exts.len(),
            input == texts(exts@),
            texts(out@) == normalized_upto(input, i as int),
        decreases exts.len() - i,
    {
        let e = normalize_extension(exts[i].as_str());
        assert(input[i as int] == exts@[i as int]@);
        if !e.as_str().is_empty() {
            let ghost before = out@;
            out.push(e);
            assert(texts(out@) =~= texts(before).push(e@));
        }
        i = i + 1;
    }
    out
}

/// Settings with a database path: a blank one becomes the default path (or
/// the error of finding it).
pub fn with_default_database(settings: AppSettings, default_db: Result<String, AppError>) -> (r: Result<AppSettings, AppError>)
    ensures
        trim(settings.database_path@).len() != 0 ==> (r matches Ok(s) && s == settings),
        trim(settings.database_path@).len() == 0 ==> match default_db {
            Ok(d) => r matches Ok(s) && s == (AppSettings { database_path: d, ..settings }),
            Err(e) => r matches Err(x) && x == e,
        },
{
    if !trim_text(settings.database_path.as_str()).as_str().is_empty() {
        return Ok(settings);
    }
    match default_db {
        Ok(d) => Ok(AppSettings { database_path: d, ..settings }),
        Err(e) => Err(e),
    }
}

/// Settings as they are saved: extensions normalized, the database path
/// trimmed, a blank one replaced by the default path.
pub fn prepare_for_save(settings: AppSettings, default_db: Result<String, AppError>) -> (r: Result<AppSettings, AppError>)
    ensures
        trim(settings.database_path@).len() != 0 ==> (r matches Ok(s) && texts(s.extensions@)
            == normalized_extensions(texts(settings.extensions@)) && s.database_path@ == trim(
            settings.database_path@,
        ) && s == (AppSettings {
            extensions: s.extensions,
            database_path: s.database_path,
            ..settings
        })),
        trim(settings.database_path@).len() == 0 ==> match default_db {
            Ok(d) => r matches Ok(s) && texts(s.extensions@) == normalized_extensions(
                texts(settings.extensions@),
            ) && s.database_path@ == d@ && s == (AppSettings {
                extensions: s.extensions,
                database_path: s.database_path,
                ..settings
            }),
            Err(e) => r matches Err(x) && x == e,
        },
{
    let exts = normalize_extensions(&settings.extensions);
    let db = trim_text(settings.database_path.as_str());
    if db.as_str().is_empty() {
        match default_db {
            Ok(d) => Ok(AppSettings { extensions: exts, database_path: d, ..settings }),
            Err(e) => Err(e),
        }
    } else {
        Ok(AppSettings { extensions: exts, database_path: db, ..settings })
    }
}

/// Imported settings: extensions normalized, a blank database path
/// replaced by the default path (a non-blank one is kept as written).
pub fn prepare_for_import(settings: AppSettings, default_db: Result<String, AppError>) -> (r: Result<AppSettings, AppError>)
    ensures
        trim(settings.database_path@).len() != 0 ==> (r matches Ok(s) && texts(s.extensions@)
            == normalized_extensions(texts(settings.extensions@)) && s == (AppSettings {
            extensions: s.extensions,
            ..settings
        })),
        trim(settings.database_path@).len() == 0 ==> match default_db {
            Ok(d) => r matches Ok(s) && texts(s.extensions@) == normalized_extensions(
                texts(settings.extensions@),
            ) && s.database_path@ == d@ && s == (AppSettings {
                extensions: s.extensions,
                database_path: s.database_path,
                ..settings
            }),
            Err(e) => r matches Err(x) && x == e,
        },
{
    let exts = normalize_extensions(&settings.extensions);
    with_default_database(AppSettings { extensions: exts, ..settings }, default_db)
}

/// Which keys a stored settings object has, of those older versions used.
#[derive(Clone, Copy, Debug)]
pub struct StoredKeys {
    pub sort_by_search: bool,
    pub split_by_search: bool,
    pub database_path: bool,
    pub db_path: bool,
    pub database_path_snake: bool,
}

/// Where `databasePath` is taken from when reading old settings.
#[derive(Clone, Copy, Debug, PartialEq, Eq, Structural)]
pub enum DbKeySource {
    /// `databasePath` is there already, or no old key is.
    AsIs,
    /// Moved from `dbPath`.
    DbPath,
    /// Moved from `database_path`.
    SnakeCase,
}

/// How old settings are brought up to date: `sortBySearch` becomes
/// `splitBySearch` unless that is there already; a missing `databasePath`
/// is taken from `dbPath`, else from `database_path`.
#[derive(Clone, Copy, Debug)]
pub struct Migration {
    pub rename_sort_by_search: bool,
    pub database_path_from: DbKeySource,
}

pub fn migration_for(keys: StoredKeys) -> (m: Migration)
    ensures
        m.rename_sort_by_search == (keys.sort_by_search && !keys.split_by_search),
        m.database_path_from == (if keys.database_path {
            DbKeySource::AsIs
        } else if keys.db_path {
            DbKeySource::DbPath
        } else if keys.database_path_snake {
            DbKeySource::SnakeCase
        } else {
            DbKeySource::AsIs
        }),
{
    let from = if keys.database_path {
        DbKeySource::AsIs
    } else if keys.db_path {
        DbKeySource::DbPath
    } else if keys.database_path_snake {
        DbKeySource::SnakeCase
    } else {
        DbKeySource::AsIs
    };
    Migration {
        rename_sort_by_search: keys.sort_by_search && !keys.split_by_search,
        database_path_from: from,
    }
}

/// An old pattern stored as plain text becomes an enabled pattern entry.
pub fn pattern_from_text(pattern: String) -> (e: crate::models::PatternEntry)
    ensures
        e.pattern == pattern,
        e.enabled,
{
    crate::models::PatternEntry { pattern, enabled: true }
}


/// Every normalized extension starts with a dot (so none is empty).
pub proof fn normalized_extensions_are_dotted(exts: Seq<Seq<char>>, n: int, k: int)
    requires
        0 <= n <= exts.len(),
        0 <= k < normalized_upto(exts, n).len(),
    ensures
        normalized_upto(exts, n)[k].len() > 0,
        normalized_upto(exts, n)[k][0] == '.',
    decreases n,
{
    let rest = normalized_upto(exts, n - 1);
    if k < rest.len() {
        normalized_extensions_are_dotted(exts, n - 1, k);
    }
}

} // verus!
