use local_file_explorer::catalog::{
    file_directly_in, folder_like_patterns, normalize_cmp, normalize_tag_display, path_under_any_root,
    path_under_root, plan_tag_rows, removal_key, should_trim, tag_key, trims_everything,
};
use local_file_explorer::host::{
    next_host_port,
    asset_path, header_value, host_url, mime_for, request_path, route, route_needs_session,
    session_gate, unknown_session, Method, Route, HOST_PORT,
};
use local_file_explorer::models::{
    default_extensions, default_table_columns, AppError, AppSettings, PatternClause, PlaylistItem,
};
use local_file_explorer::paths::{
    choose_data_dir, choose_settings_override, database_location, parse_path_args,
    path_to_string, playlist_file_name, DataDirChoice, DbLocation, PathState, SettingsLocation,
};
use local_file_explorer::playlist::{mpc_candidates, playlist_body};
use local_file_explorer::query::{filter_and_sort, shuffle, RecordKeys};
use local_file_explorer::settings::{
    migration_for, normalize_extensions, prepare_for_import, prepare_for_save, DbKeySource,
    StoredKeys,
};
use local_file_explorer::text::{eq_ignore_ascii_case, trim_text};

fn s(x: &str) -> String {
    x.to_string()
}

fn rec(path: &str, ext: &str, size: i64, mtime: u64, dur: Option<u64>) -> RecordKeys {
    RecordKeys {
        path: s(path),
        ext: s(ext),
        size_bytes: size,
        atime: mtime,
        mtime,
        birthtime: mtime,
        duration_ms: dur,
        indexed_at: 7,
    }
}

fn clause(terms: &[&str]) -> PatternClause {
    PatternClause { terms: terms.iter().map(|t| s(t)).collect() }
}

fn sample() -> Vec<RecordKeys> {
    vec![
        rec("D:\\Media\\b.mkv", ".mkv", 300, 30, Some(5000)),
        rec("D:\\Media\\A.mp4", ".MP4", 100, 10, None),
        rec("D:\\Music\\c.mp3", ".mp3", 100, 20, Some(1000)),
        rec("D:\\Media\\d.avi", ".avi", 200, 40, Some(3000)),
    ]
}

// ---------------------------------------------------------------- text

#[test]
fn trim_removes_unicode_white_space() {
    assert_eq!(trim_text("\u{3000} \t a b \n\u{a0}"), "a b");
    assert_eq!(trim_text("   "), "");
}

#[test]
fn ascii_case_comparison() {
    assert!(eq_ignore_ascii_case("DeSc", "desc"));
    assert!(!eq_ignore_ascii_case("descending", "desc"));
}

// ---------------------------------------------------------------- query

#[test]
fn sort_by_path_ascending_ignores_case() {
    let files = sample();
    let r = filter_and_sort(&files, &vec![], &vec![], "path", "asc", 0).unwrap();
    assert_eq!(r, vec![1, 0, 3, 2]);
}

#[test]
fn sort_by_size_descending_breaks_ties_by_path() {
    let files = sample();
    let r = filter_and_sort(&files, &vec![], &vec![], "sizeBytes", "DESC", 0).unwrap();
    // 300, 200, then the two 100s: compared by path (reversed in descending order)
    assert_eq!(r, vec![0, 3, 2, 1]);
}

#[test]
fn sort_by_duration_puts_unknown_last() {
    let files = sample();
    let r = filter_and_sort(&files, &vec![], &vec![], "duration", "asc", 0).unwrap();
    assert_eq!(r, vec![2, 3, 0, 1]);
}

#[test]
fn sort_by_extension_lowercases() {
    let files = sample();
    let r = filter_and_sort(&files, &vec![], &vec![], "ext", "asc", 0).unwrap();
    assert_eq!(r, vec![3, 0, 2, 1]);
}

#[test]
fn equal_entries_keep_catalog_order() {
    let files = vec![rec("x", ".a", 1, 1, None), rec("X", ".a", 1, 1, None), rec("x", ".a", 1, 1, None)];
    let up = filter_and_sort(&files, &vec![], &vec![], "size", "asc", 0).unwrap();
    assert_eq!(up, vec![0, 1, 2]);
    let down = filter_and_sort(&files, &vec![], &vec![], "size", "desc", 0).unwrap();
    assert_eq!(down, vec![0, 1, 2]);
}

#[test]
fn include_clause_terms_all_match() {
    let files = sample();
    let inc = vec![clause(&["Media", "\\.m"])];
    let r = filter_and_sort(&files, &inc, &vec![], "path", "asc", 0).unwrap();
    assert_eq!(r, vec![1, 0]);
}

#[test]
fn include_clauses_are_alternatives_and_ignore_wins() {
    let files = sample();
    let inc = vec![clause(&["Music"]), clause(&["avi$"])];
    let ign = vec![clause(&["c\\.mp3"])];
    let r = filter_and_sort(&files, &inc, &ign, "path", "asc", 0).unwrap();
    assert_eq!(r, vec![3]);
}

#[test]
fn blank_terms_and_empty_clauses_are_skipped() {
    let files = sample();
    let inc = vec![clause(&["  ", ""]), clause(&[])];
    let r = filter_and_sort(&files, &inc, &vec![], "path", "asc", 0).unwrap();
    assert_eq!(r.len(), 4);
}

#[test]
fn refused_pattern_is_regex_error() {
    let files = sample();
    let inc = vec![clause(&["foo(bar"])];
    let r = filter_and_sort(&files, &inc, &vec![], "path", "asc", 0);
    assert!(matches!(r, Err(AppError::Regex(_))));
}

#[test]
fn random_order_is_permutation_of_kept() {
    let files = sample();
    let mut r = filter_and_sort(&files, &vec![], &vec![], "random", "asc", 0x1234_5678_9abc).unwrap();
    r.sort();
    assert_eq!(r, vec![0, 1, 2, 3]);
}

#[test]
fn shuffle_follows_the_generator() {
    // seed 0, three entries: state 1 then state 6364136223846793006
    let mut v = vec![10usize, 11, 12];
    shuffle(&mut v, 0);
    let mut state: u64 = 0;
    let mut expect = vec![10usize, 11, 12];
    for i in (1..3usize).rev() {
        state = state.wrapping_mul(6364136223846793005).wrapping_add(1);
        let j = (state >> 33) as usize % (i + 1);
        expect.swap(i, j);
    }
    assert_eq!(v, expect);
}

// ---------------------------------------------------------------- catalog

#[test]
fn comparable_paths() {
    assert_eq!(normalize_cmp("C:/Media/Films\\\\"), "c:\\media\\films");
}

#[test]
fn paths_under_roots() {
    assert!(path_under_root("D:\\Media\\a.mp4", "d:/media/"));
    assert!(path_under_root("D:\\Media", "D:\\Media"));
    assert!(!path_under_root("D:\\Mediathek\\a.mp4", "D:\\Media"));
    let roots = vec![s("E:\\x"), s("D:\\Media")];
    assert!(path_under_any_root("d:\\media\\b\\c.mkv", &roots));
    assert!(should_trim("F:\\y.mp4", &roots, true));
    assert!(should_trim("D:\\Media\\gone.mp4", &roots, false));
    assert!(!should_trim("D:\\Media\\here.mp4", &roots, true));
}

#[test]
fn files_directly_in_folder() {
    assert!(file_directly_in("D:\\Media\\a.mp4", "D:\\Media\\"));
    assert!(file_directly_in("D:\\Media/a.mp4", "D:\\Media"));
    assert!(!file_directly_in("D:\\Media\\sub\\a.mp4", "D:\\Media"));
    assert!(!file_directly_in("D:\\Media\\", "D:\\Media"));
    let (a, b) = folder_like_patterns("D:\\Media\\/");
    assert_eq!(a, "D:\\Media\\%");
    assert_eq!(b, "D:\\Media/%");
}

#[test]
fn tags_are_trimmed_and_keyed_without_case() {
    assert_eq!(normalize_tag_display("  Road Trip ").unwrap(), "Road Trip");
    assert!(matches!(normalize_tag_display("   "), Err(AppError::Message(m)) if m == "Tag cannot be empty"));
    assert_eq!(tag_key("Road Trip"), "road trip");
    assert_eq!(removal_key(" ROAD ").unwrap(), "road");
    assert!(removal_key(" ").is_err());
}

#[test]
fn tag_rows_keep_first_of_same_key() {
    let rows = plan_tag_rows(&vec![s("Beach"), s(" "), s("beach "), s("Sun")]);
    assert_eq!(rows, vec![(s("Beach"), s("beach")), (s("Sun"), s("sun"))]);
}

// ---------------------------------------------------------------- paths

#[test]
fn path_args_take_both_forms_and_last_wins() {
    let args = vec![s("app.exe"), s("--settings=a.json"), s("-d"), s("D:\\data"), s("-s"), s("b.json"), s("--data-dir")];
    let (st, dd) = parse_path_args(&args);
    assert_eq!(st, Some(s("b.json")));
    assert_eq!(dd, Some(s("D:\\data")));
    let (st, dd) = parse_path_args(&vec![s("--settings=ignored-program-name")]);
    assert_eq!((st, dd), (None, None));
}

#[test]
fn overrides_prefer_command_line() {
    assert_eq!(choose_settings_override(Some(s("a")), Some(s("b"))), Some(s("a")));
    assert_eq!(choose_settings_override(None, Some(s("  "))), None);
    assert_eq!(choose_settings_override(None, Some(s("b"))), Some(s("b")));
    assert!(matches!(choose_data_dir(None, Some(s(" "))), DataDirChoice::BesideExe));
    assert!(matches!(choose_data_dir(None, Some(s("x"))), DataDirChoice::FromEnv(d) if d == "x"));
    assert!(matches!(choose_data_dir(Some(s("y")), Some(s("x"))), DataDirChoice::Given(d) if d == "y"));
}

#[test]
fn path_state_precedence() {
    let st = PathState { session: None, data_dir: None, settings_file: None };
    assert!(matches!(st.data_dir(), Err(AppError::Message(m)) if m == "Data directory not initialized"));
    let st = PathState { session: None, data_dir: Some(s("D")), settings_file: None };
    assert!(matches!(st.settings_location(), Ok(SettingsLocation::InDataDir(d)) if d == "D"));
    let st = PathState { session: Some((s("S"), s("S\\settings.json"))), data_dir: Some(s("D")), settings_file: Some(s("F")) };
    assert_eq!(st.data_dir().unwrap(), "S");
    assert!(matches!(st.settings_location(), Ok(SettingsLocation::File(f)) if f == "S\\settings.json"));
}

#[test]
fn database_and_playlist_names() {
    assert!(matches!(database_location("  "), DbLocation::Default));
    assert!(matches!(database_location(" db\\x.db "), DbLocation::Given(p) if p == "db\\x.db"));
    assert_eq!(playlist_file_name(true, Some(s("settings1"))), "playlist-settings1.mpcpl");
    assert_eq!(playlist_file_name(true, Some(s(""))), "playlist-default.mpcpl");
    assert_eq!(playlist_file_name(false, Some(s("x"))), "playlist.mpcpl");
    assert_eq!(path_to_string("C:/a/b"), "C:\\a\\b");
}

// ---------------------------------------------------------------- settings

#[test]
fn extensions_are_normalized() {
    let r = normalize_extensions(&vec![s(" MP4"), s(".Mkv"), s(""), s("  "), s("flac ")]);
    assert_eq!(r, vec![s(".mp4"), s(".mkv"), s(".flac")]);
}

#[test]
fn defaults() {
    let d = AppSettings::default();
    assert_eq!(d.extensions, default_extensions());
    assert_eq!(d.extensions.len(), 14);
    assert_eq!(d.sort_field, "path");
    assert_eq!(d.sort_dir, "asc");
    let cols = default_table_columns();
    assert_eq!(cols.len(), 9);
    assert_eq!((cols[1].id.as_str(), cols[1].width, cols[1].visible), ("path", 480, true));
    assert_eq!((cols[8].id.as_str(), cols[8].width, cols[8].visible), ("indexedAt", 150, false));
}

#[test]
fn saving_settings_fills_database_path() {
    let mut st = AppSettings::default();
    st.extensions = vec![s("MP3")];
    st.database_path = s("   ");
    let saved = prepare_for_save(st.clone(), Ok(s("D\\file-index.db"))).unwrap();
    assert_eq!(saved.extensions, vec![s(".mp3")]);
    assert_eq!(saved.database_path, "D\\file-index.db");
    let failed = prepare_for_save(st.clone(), Err(AppError::Message(s("Data directory not initialized"))));
    assert!(failed.is_err());
    st.database_path = s(" x.db ");
    assert_eq!(prepare_for_save(st.clone(), Ok(s("unused"))).unwrap().database_path, "x.db");
    assert_eq!(prepare_for_import(st, Ok(s("unused"))).unwrap().database_path, " x.db ");
}

#[test]
fn old_settings_keys_migrate() {
    let m = migration_for(StoredKeys { sort_by_search: true, split_by_search: false, database_path: false, db_path: true, database_path_snake: true });
    assert!(m.rename_sort_by_search);
    assert_eq!(m.database_path_from, DbKeySource::DbPath);
    let m = migration_for(StoredKeys { sort_by_search: true, split_by_search: true, database_path: true, db_path: true, database_path_snake: false });
    assert!(!m.rename_sort_by_search);
    assert_eq!(m.database_path_from, DbKeySource::AsIs);
}

// ---------------------------------------------------------------- host

#[test]
fn host_address_and_types() {
    assert_eq!(host_url(HOST_PORT), "http://127.0.0.1:666/");
    assert_eq!(mime_for("assets/app.js"), "text/javascript; charset=utf-8");
    assert_eq!(mime_for("a.css"), "text/css; charset=utf-8");
    assert_eq!(mime_for("i.svg"), "image/svg+xml");
    assert_eq!(mime_for("index.html"), "text/html; charset=utf-8");
    assert_eq!(mime_for("font.woff2"), "application/octet-stream");
}

#[test]
fn requests_are_routed() {
    assert_eq!(request_path("/api/query?x=1?y"), "/api/query");
    assert_eq!(request_path(""), "");
    assert_eq!(asset_path("//assets/a.js"), "assets/a.js");
    assert_eq!(asset_path("/"), "index.html");
    assert_eq!(route(Method::Post, "/api/query"), Route::Query);
    assert_eq!(route(Method::Get, "/api/query"), Route::ApiNotFound);
    assert_eq!(route(Method::Get, "/api/host/info"), Route::HostInfo);
    assert_eq!(route(Method::Get, "/index.html"), Route::Static);
    assert_eq!(route(Method::Other, "/"), Route::MethodNotAllowed);
    assert!(route_needs_session(Route::ScanStart));
    assert!(!route_needs_session(Route::OpenFile));
}

#[test]
fn sessions_are_checked() {
    let e = session_gate(Some(s(""))).unwrap_err();
    assert_eq!((e.status, e.message.as_str()), (401, "Missing X-Session-Id"));
    assert!(session_gate(None).is_err());
    assert_eq!(session_gate(Some(s("abc"))).unwrap(), "abc");
    let e = unknown_session();
    assert_eq!((e.status, e.message.as_str()), (404, "Session not found"));
    let headers = vec![(s("x-session-id"), s("lower")), (s("X-Session-Id"), s("id1")), (s("X-Session-Id"), s("id2"))];
    assert_eq!(header_value(&headers, "X-Session-Id"), Some(s("id1")));
    assert_eq!(header_value(&headers, "Accept"), None);
}

// ---------------------------------------------------------------- playlist

#[test]
fn playlist_text() {
    let items = vec![
        PlaylistItem { path: s("D:\\a.mp4"), is_delimiter: false },
        PlaylistItem { path: s("--"), is_delimiter: true },
    ];
    assert_eq!(
        playlist_body(&items).unwrap(),
        "MPCPLAYLIST\n1,type,0\n1,filename,D:\\a.mp4\n2,type,1\n2,filename,--\n"
    );
    assert!(matches!(playlist_body(&vec![]), Err(AppError::Message(m)) if m == "Results list is empty"));
    assert_eq!(mpc_candidates()[0], "mpc-hc64.exe");
    assert_eq!(mpc_candidates().len(), 8);
}

#[test]
fn session_paths_apply_only_inside() {
    let mut st = PathState { session: None, data_dir: Some(s("D")), settings_file: Some(s("F.json")) };
    let seen = st.with_session(s("S"), s("S\\settings.json"), |inner| {
        (inner.data_dir().unwrap(), matches!(inner.settings_location(), Ok(SettingsLocation::File(f)) if f == "S\\settings.json"))
    });
    assert_eq!(seen, (s("S"), true));
    assert!(st.session.is_none());
    assert_eq!(st.data_dir().unwrap(), "D");
}

#[test]
fn playlists_of_different_settings_files_differ() {
    assert_ne!(
        playlist_file_name(true, Some(s("settings1"))),
        playlist_file_name(true, Some(s("settings2")))
    );
}

#[test]
fn host_port_fallback() {
    assert_eq!(host_url(667), "http://127.0.0.1:667/");
    assert_eq!(next_host_port(666), Some(667));
    assert_eq!(next_host_port(u16::MAX), None);
}

#[test]
fn normalized_extensions_start_with_dot() {
    for e in normalize_extensions(&vec![s("Mp4"), s(" .AVI "), s("\u{2003}"), s("x")]) {
        assert!(e.starts_with('.') && e.len() > 1);
    }
}

#[test]
fn tag_rows_hold_each_key_once() {
    let rows = plan_tag_rows(&vec![s("A"), s("a"), s(" A "), s("b"), s("B")]);
    let keys: Vec<&str> = rows.iter().map(|r| r.1.as_str()).collect();
    assert_eq!(keys, vec!["a", "b"]);
}

#[test]
fn refused_pattern_fails_even_without_files() {
    let none: Vec<RecordKeys> = vec![];
    let r = filter_and_sort(&none, &vec![clause(&["("])], &vec![], "path", "asc", 0);
    assert!(matches!(r, Err(AppError::Regex(_))));
    let r = filter_and_sort(&none, &vec![], &vec![clause(&["ok", "[z-a]"])], "path", "asc", 0);
    assert!(matches!(r, Err(AppError::Regex(_))));
}

#[test]
fn blank_or_valid_patterns_never_fail() {
    let files = vec![rec("C:\\a\\x.mp4", ".mp4", 1, 1, None)];
    let r = filter_and_sort(&files, &vec![clause(&["  ", "x\\.mp4$"])], &vec![clause(&[""])], "path", "asc", 0);
    assert_eq!(r.unwrap(), vec![0]);
}

#[test]
fn normalizing_extensions_twice_changes_nothing() {
    let once = normalize_extensions(&vec![s(" MP4"), s(".Mkv"), s(""), s("flac "), s("WaV")]);
    assert_eq!(normalize_extensions(&once), once);
    assert_eq!(once, vec![s(".mp4"), s(".mkv"), s(".flac"), s(".wav")]);
}

#[test]
fn no_roots_trim_the_whole_catalog() {
    assert!(trims_everything(&vec![]));
    assert!(should_trim("C:\\a\\x.mp4", &vec![], true));
    assert!(!trims_everything(&vec![s("C:\\a")]));
}
