//! The library's data types: settings, progress reports, query requests and
//! the error type.
use vstd::prelude::*;

use crate::text::owned;

verus! {

/// Errors of the library.
#[derive(Debug)]
pub enum AppError {
    /// A message for the user.
    Message(String),
    /// A search pattern that the regular-expression engine refused.
    Regex(regex::Error),
}

impl AppError {
    /// Whether this is a `Message` with exactly the given text.
    pub open spec fn is_message(&self, text: Seq<char>) -> bool {
        match self {
            AppError::Message(m) => m@ == text,
            _ => false,
        }
    }
}

/// A search pattern with an on/off switch.
#[derive(Debug, Clone)]
pub struct PatternEntry {
    pub pattern: String,
    pub enabled: bool,
}

/// Layout of one column of the results table.
#[derive(Debug, Clone)]
pub struct TableColumnConfig {
    pub id: String,
    pub width: u32,
    pub visible: bool,
}

/// Everything the user configures.
#[derive(Debug, Clone)]
pub struct AppSettings {
    pub roots: Vec<String>,
    pub extensions: Vec<String>,
    pub include_regexes: Vec<PatternEntry>,
    pub ignore_regexes: Vec<PatternEntry>,
    pub sort_field: String,
    pub sort_dir: String,
    pub split_by_search: bool,
    pub deep_scan: bool,
    /// Catalog SQLite path. Absolute, or relative to the app data folder.
    /// Empty means `{dataDir}/file-index.db`.
    pub database_path: String,
    pub table_columns: Vec<TableColumnConfig>,
}

/// The views of a list of strings.
pub open spec fn texts(v: Seq<String>) -> Seq<Seq<char>> {
    v.map_values(|s: String| s@)
}

/// The extensions indexed by default.
pub open spec fn default_extension_list() -> Seq<Seq<char>> {
    seq![
        ".mp4"@,
        ".mkv"@,
        ".avi"@,
        ".mov"@,
        ".wmv"@,
        ".webm"@,
        ".m4v"@,
        ".mp3"@,
        ".flac"@,
        ".wav"@,
        ".aac"@,
        ".ogg"@,
        ".m4a"@,
        ".wma"@,
    ]
}

/// The media extensions indexed by default.
pub fn default_extensions() -> (r: Vec<String>)
    ensures
        texts(r@) == default_extension_list(),
{
    let mut r: Vec<String> = Vec::new();
    r.push(owned(".mp4"));
    r.push(owned(".mkv"));
    r.push(owned(".avi"));
    r.push(owned(".mov"));
    r.push(owned(".wmv"));
    r.push(owned(".webm"));
    r.push(owned(".m4v"));
    r.push(owned(".mp3"));
    r.push(owned(".flac"));
    r.push(owned(".wav"));
    r.push(owned(".aac"));
    r.push(owned(".ogg"));
    r.push(owned(".m4a"));
    r.push(owned(".wma"));
    assert(texts(r@) =~= default_extension_list());
    r
}

/// A column's id, width and visibility.
pub open spec fn column_view(c: TableColumnConfig) -> (Seq<char>, u32, bool) {
    (c.id@, c.width, c.visible)
}

/// The default table layout.
pub open spec fn default_column_list() -> Seq<(Seq<char>, u32, bool)> {
    seq![
        ("index"@, 56u32, true),
        ("path"@, 480u32, true),
        ("ext"@, 64u32, true),
        ("sizeBytes"@, 84u32, true),
        ("durationMs"@, 84u32, true),
        ("mtime"@, 150u32, true),
        ("atime"@, 150u32, false),
        ("birthtime"@, 150u32, false),
        ("indexedAt"@, 150u32, false),
    ]
}

fn column(id: &str, width: u32, visible: bool) -> (c: TableColumnConfig)
    ensures
        column_view(c) == (id@, width, visible),
{
    TableColumnConfig { id: owned(id), width, visible }
}

/// The default columns of the results table.
pub fn default_table_columns() -> (r: Vec<TableColumnConfig>)
    ensures
        r@.map_values(|c: TableColumnConfig| column_view(c)) == default_column_list(),
{
    let mut r: Vec<TableColumnConfig> = Vec::new();
    r.push(column("index", 56, true));
    r.push(column("path", 480, true));
    r.push(column("ext", 64, true));
    r.push(column("sizeBytes", 84, true));
    r.push(column("durationMs", 84, true));
    r.push(column("mtime", 150, true));
    r.push(column("atime", 150, false));
    r.push(column("birthtime", 150, false));
    r.push(column("indexedAt", 150, false));
    assert(r@.map_values(|c: TableColumnConfig| column_view(c)) =~= default_column_list());
    r
}

impl AppSettings {
    /// The settings a fresh installation starts with.
    pub open spec fn is_default(&self) -> bool {
        &&& self.roots@.len() == 0
        &&& texts(self.extensions@) == default_extension_list()
        &&& self.include_regexes@.len() == 0
        &&& self.ignore_regexes@.len() == 0
        &&& self.sort_field@ == "path"@
        &&& self.sort_dir@ == "asc"@
        &&& !self.split_by_search
        &&& !self.deep_scan
        &&& self.database_path@.len() == 0
        &&& self.table_columns@.map_values(|c: TableColumnConfig| column_view(c))
            == default_column_list()
    }
}

impl Default for AppSettings {
    fn default() -> (s: Self)
        ensures
            s.is_default(),
    {
        AppSettings {
            roots: Vec::new(),
            extensions: default_extensions(),
            include_regexes: Vec::new(),
            ignore_regexes: Vec::new(),
            sort_field: owned("path"),
            sort_dir: owned("asc"),
            split_by_search: false,
            deep_scan: false,
            database_path: String::new(),
            table_columns: default_table_columns(),
        }
    }
}

/// Where a scan stands, as shown to the user.
#[derive(Debug, Clone)]
pub struct ScanProgress {
    pub phase: String,
    pub message: String,
    pub scanned: u64,
    pub skipped: u64,
    pub files: u64,
    pub current_folder: String,
}

impl ScanProgress {
    /// Phase, message, counters and folder.
    pub open spec fn view(&self) -> (Seq<char>, Seq<char>, u64, u64, u64, Seq<char>) {
        (self.phase@, self.message@, self.scanned, self.skipped, self.files, self.current_folder@)
    }
}

/// A progress report built from its parts.
pub fn progress(
    phase: &str,
    message: &str,
    scanned: u64,
    skipped: u64,
    files: u64,
    current_folder: &str,
) -> (p: ScanProgress)
    ensures
        p.view() == (phase@, message@, scanned, skipped, files, current_folder@),
{
    ScanProgress {
        phase: owned(phase),
        message: owned(message),
        scanned,
        skipped,
        files,
        current_folder: owned(current_folder),
    }
}

/// Search terms that must all match the path (AND); clauses are OR'd.
#[derive(Debug, Clone)]
pub struct PatternClause {
    pub terms: Vec<String>,
}

/// A catalog query: include and ignore clauses and the sort order.
#[derive(Debug, Clone)]
pub struct QueryRequest {
    pub include_clauses: Vec<PatternClause>,
    pub ignore_clauses: Vec<PatternClause>,
    pub sort_field: String,
    pub sort_dir: String,
}

/// What the front end receives when it starts.
#[derive(Debug, Clone)]
pub struct InitResponse {
    pub settings: AppSettings,
    pub catalog_count: i64,
    pub data_dir: String,
    pub resolved_database_path: String,
    pub settings_path: String,
}

/// One entry of a playlist; a delimiter separates groups.
#[derive(Debug, Clone)]
pub struct PlaylistItem {
    pub path: String,
    pub is_delimiter: bool,
}

/// What the catalog remembers of a folder to tell whether it changed.
#[derive(Debug, Clone)]
pub struct FolderStats {
    pub file_count: i64,
    pub child_folder_count: i64,
    pub total_file_bytes: i64,
    pub listing_hash: String,
}

} // verus!
