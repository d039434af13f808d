//! Where settings, catalog and playlist live: command-line and environment
//! overrides, per-session paths, and how a configured database path is read.
use vstd::prelude::*;

use crate::models::AppError;
use crate::text::{
    blank, chars_of, has_prefix, is_blank, owned, push_str, replace_char, replace_chars, same_text,
    starts_with, string_of, trim, trim_text,
};

verus! {

/// A path as the user sees it: slashes turned into backslashes.
pub fn path_to_string(path: &str) -> (r: String)
    ensures
        r@ == replace_char(path@, '/', '\\'),
{
    string_of(&replace_chars(&chars_of(path), '/', '\\'))
}

pub open spec fn opt_view(o: Option<String>) -> Option<Seq<char>> {
    match o {
        Some(s) => Some(s@),
        None => None,
    }
}

/// The `--settings` and `--data-dir` values among the arguments from
/// position `i` on, given those found so far; a later one wins. Both take
/// `--flag=value`, or the value in the next argument (`-s` and `-d` too); a
/// flag with nothing after it is ignored.
pub open spec fn scan_args(
    args: Seq<Seq<char>>,
    i: int,
    settings: Option<Seq<char>>,
    data_dir: Option<Seq<char>>,
) -> (Option<Seq<char>>, Option<Seq<char>>)
    decreases args.len() - i,
{
    if i < 0 || i >= args.len() {
        (settings, data_dir)
    } else {
        let a = args[i];
        if has_prefix(a, "--settings="@) {
            scan_args(args, i + 1, Some(a.skip(11)), data_dir)
        } else if has_prefix(a, "--data-dir="@) {
            scan_args(args, i + 1, settings, Some(a.skip(11)))
        } else if (a == "--settings"@ || a == "-s"@) && i + 1 < args.len() {
            scan_args(args, i + 2, Some(args[i + 1]), data_dir)
        } else if (a == "--data-dir"@ || a == "-d"@) && i + 1 < args.len() {
            scan_args(args, i + 2, settings, Some(args[i + 1]))
        } else {
            scan_args(args, i + 1, settings, data_dir)
        }
    }
}

/// The settings file and data folder named on the command line (`args[0]`
/// is the program).
pub open spec fn path_args(args: Seq<Seq<char>>) -> (Option<Seq<char>>, Option<Seq<char>>) {
    scan_args(args, 1, None, None)
}

fn skip_text(s: &str, k: usize) -> (r: String)
    requires
        k <= s@.len(),
    ensures
        r@ == s@.skip(k as int),
{
    let cs = chars_of(s);
    let mut out: Vec<char> = Vec::new();
    let mut m: usize = k;
    while m < cs.len()
        invariant
            k <= m <= cs.len(),
            out@ == cs@.subrange(k as int, m as int),
        decreases cs.len() - m,
    {
        out.push(cs[m]);
        m = m + 1;
        assert(out@ == cs@.subrange(k as int, m as int));
    }
    string_of(&out)
}

fn text_has_prefix(s: &str, prefix: &str) -> (b: bool)
    ensures
        b == has_prefix(s@, prefix@),
{
    starts_with(&chars_of(s), &chars_of(prefix))
}

/// Reads `--settings` / `-s` and `--data-dir` / `-d` from the arguments.
pub fn parse_path_args(args: &Vec<String>) -> (r: (Option<String>, Option<String>))
    ensures
        (opt_view(r.0), opt_view(r.1)) == path_args(crate::models::texts(args@)),
{
    let ghost a = crate::models::texts(args@);
    let mut settings: Option<String> = None;
    let mut data_dir: Option<String> = None;
    let mut i: usize = 1;
    while i < args.len()
        invariant
            1 <= i,
            a == crate::models::texts(args@),
            scan_args(a, i as int, opt_view(settings), opt_view(data_dir)) == path_args(a),
        decreases args.len() - i,
    {
        let arg = args[i].as_str();
        proof {
            reveal_strlit("--settings=");
            reveal_strlit("--data-dir=");
        }
        assert(a[i as int] == arg@);
        if text_has_prefix(arg, "--settings=") {
            settings = Some(skip_text(arg, 11));
            i = i + 1;
            continue;
        }
        if text_has_prefix(arg, "--data-dir=") {
            data_dir = Some(skip_text(arg, 11));
            i = i + 1;
            continue;
        }
        if (same_text(arg, "--settings") || same_text(arg, "-s")) && i + 1 < args.len() {
            assert(a[i + 1] == args@[i + 1]@);
            settings = Some(owned(args[i + 1].as_str()));
            i = i + 2;
            continue;
        }
        if (same_text(arg, "--data-dir") || same_text(arg, "-d")) && i + 1 < args.len() {
            assert(a[i + 1] == args@[i + 1]@);
            data_dir = Some(owned(args[i + 1].as_str()));
            i = i + 2;
            continue;
        }
        i = i + 1;
    }
    (settings, data_dir)
}

/// The settings file to use: the one named on the command line, else a
/// non-blank `LFE_SETTINGS`.
pub open spec fn settings_override(cli: Option<Seq<char>>, env: Option<Seq<char>>) -> Option<Seq<char>> {
    match cli {
        Some(c) => Some(c),
        None => match env {
            Some(e) => if is_blank(e) {
                None
            } else {
                Some(e)
            },
            None => None,
        },
    }
}

pub fn choose_settings_override(cli: Option<String>, env: Option<String>) -> (r: Option<String>)
    ensures
        opt_view(r) == settings_override(opt_view(cli), opt_view(env)),
{
    match cli {
        Some(c) => Some(c),
        None => match env {
            Some(e) => if blank(e.as_str()) {
                None
            } else {
                Some(e)
            },
            None => None,
        },
    }
}

/// Where the data folder comes from.
#[derive(Debug)]
pub enum DataDirChoice {
    /// The folder asked for explicitly.
    Given(String),
    /// The folder in `LFE_DATA_DIR`.
    FromEnv(String),
    /// `data` beside the executable, with the settings file beside the
    /// executable too.
    BesideExe,
}

/// An explicit folder wins, then a non-blank `LFE_DATA_DIR`, else the folder
/// beside the executable.
pub fn choose_data_dir(given: Option<String>, env: Option<String>) -> (r: DataDirChoice)
    ensures
        match given {
            Some(g) => r matches DataDirChoice::Given(d) && d@ == g@,
            None => match env {
                Some(e) => if is_blank(e@) {
                    r is BesideExe
                } else {
                    r matches DataDirChoice::FromEnv(d) && d@ == e@
                },
                None => r is BesideExe,
            },
        },
{
    match given {
        Some(g) => DataDirChoice::Given(g),
        None => match env {
            Some(e) => if blank(e.as_str()) {
                DataDirChoice::BesideExe
            } else {
                DataDirChoice::FromEnv(e)
            },
            None => DataDirChoice::BesideExe,
        },
    }
}

/// The paths in force: a browser session's data folder and settings file,
/// the process-wide data folder and settings file.
#[derive(Debug)]
pub struct PathState {
    pub session: Option<(String, String)>,
    pub data_dir: Option<String>,
    pub settings_file: Option<String>,
}

/// Where the settings file is.
#[derive(Debug)]
pub enum SettingsLocation {
    /// This file.
    File(String),
    /// `settings.json` in this data folder.
    InDataDir(String),
}

impl PathState {
    /// The paths while a browser session's work runs.
    pub open spec fn in_session(&self, data_dir: String, settings_path: String) -> PathState {
        PathState {
            session: Some((data_dir, settings_path)),
            data_dir: self.data_dir,
            settings_file: self.settings_file,
        }
    }

    /// Runs `f` under a browser session's data folder and settings file;
    /// afterwards no session is in force.
    pub fn with_session<R, F: FnOnce(&PathState) -> R>(
        &mut self,
        data_dir: String,
        settings_path: String,
        f: F,
    ) -> (r: R)
        requires
            f.requires((&old(self).in_session(data_dir, settings_path),)),
        ensures
            f.ensures((&old(self).in_session(data_dir, settings_path),), r),
            final(self).session is None,
            final(self).data_dir == old(self).data_dir,
            final(self).settings_file == old(self).settings_file,
    {
        self.session = Some((data_dir, settings_path));
        let out = f(&*self);
        self.session = None;
        out
    }

    /// The data folder: the session's, else the process's; unset is an
    /// error.
    pub fn data_dir(&self) -> (r: Result<String, AppError>)
        ensures
            match self.session {
                Some(s) => r matches Ok(d) && d@ == s.0@,
                None => match self.data_dir {
                    Some(d) => r matches Ok(x) && x@ == d@,
                    None => r matches Err(e) && e.is_message("Data directory not initialized"@),
                },
            },
    {
        match &self.session {
            Some(s) => Ok(owned(s.0.as_str())),
            None => match &self.data_dir {
                Some(d) => Ok(owned(d.as_str())),
                None => Err(AppError::Message(owned("Data directory not initialized"))),
            },
        }
    }

    /// The settings file: the session's, else the one chosen at start, else
    /// `settings.json` in the data folder.
    pub fn settings_location(&self) -> (r: Result<SettingsLocation, AppError>)
        ensures
            match self.session {
                Some(s) => r matches Ok(SettingsLocation::File(f)) && f@ == s.1@,
                None => match self.settings_file {
                    Some(f) => r matches Ok(SettingsLocation::File(x)) && x@ == f@,
                    None => match self.data_dir {
                        Some(d) => r matches Ok(SettingsLocation::InDataDir(x)) && x@ == d@,
                        None => r matches Err(e) && e.is_message("Data directory not initialized"@),
                    },
                },
            },
    {
        match &self.session {
            Some(s) => Ok(SettingsLocation::File(owned(s.1.as_str()))),
            None => match &self.settings_file {
                Some(f) => Ok(SettingsLocation::File(owned(f.as_str()))),
                None => match self.data_dir() {
                    Ok(d) => Ok(SettingsLocation::InDataDir(d)),
                    Err(e) => Err(e),
                },
            },
        }
    }
}

/// Where the catalog database is, from the settings' `databasePath`.
#[derive(Debug)]
pub enum DbLocation {
    /// Empty: `file-index.db` in the data folder.
    Default,
    /// This path (trimmed): as is when absolute, else inside the data folder.
    Given(String),
}

pub fn database_location(setting: &str) -> (r: DbLocation)
    ensures
        trim(setting@).len() == 0 ==> r is Default,
        trim(setting@).len() != 0 ==> (r matches DbLocation::Given(p) && p@ == trim(setting@)),
{
    let raw = trim_text(setting);
    if raw.as_str().is_empty() {
        DbLocation::Default
    } else {
        DbLocation::Given(raw)
    }
}

/// The playlist's file name: with a settings file chosen at start,
/// `playlist-{stem}.mpcpl` after the file's stem (`default` for a missing or
/// empty one), else `playlist.mpcpl`.
pub open spec fn playlist_name(has_settings_file: bool, stem: Option<Seq<char>>) -> Seq<char> {
    if has_settings_file {
        let s = match stem {
            Some(t) => if t.len() > 0 {
                t
            } else {
                "default"@
            },
            None => "default"@,
        };
        "playlist-"@ + s + ".mpcpl"@
    } else {
        "playlist.mpcpl"@
    }
}

pub fn playlist_file_name(has_settings_file: bool, stem: Option<String>) -> (r: String)
    ensures
        r@ == playlist_name(has_settings_file, opt_view(stem)),
{
    if has_settings_file {
        let mut out: Vec<char> = Vec::new();
        push_str(&mut out, "playlist-");
        match stem {
            Some(t) => if t.as_str().is_empty() {
                push_str(&mut out, "default");
            } else {
                push_str(&mut out, t.as_str());
            },
            None => push_str(&mut out, "default"),
        }
        push_str(&mut out, ".mpcpl");
        string_of(&out)
    } else {
        owned("playlist.mpcpl")
    }
}


/// Turning slashes into backslashes a second time changes nothing.
pub proof fn path_to_string_idempotent(path: Seq<char>)
    ensures
        replace_char(replace_char(path, '/', '\\'), '/', '\\') == replace_char(path, '/', '\\'),
{
    assert(replace_char(replace_char(path, '/', '\\'), '/', '\\') =~= replace_char(path, '/', '\\'));
}


/// Instances started with settings files of different stems write different
/// playlists.
pub proof fn playlist_names_isolated(a: Seq<char>, b: Seq<char>)
    requires
        a.len() > 0,
        b.len() > 0,
        a != b,
    ensures
        playlist_name(true, Some(a)) != playlist_name(true, Some(b)),
{
    reveal_strlit("playlist-");
    reveal_strlit(".mpcpl");
    let na = playlist_name(true, Some(a));
    let nb = playlist_name(true, Some(b));
    if na == nb {
        assert(na.len() == 9 + a.len() + 6);
        assert(a.len() == b.len());
        assert(na.subrange(9, 9 + a.len() as int) =~= a);
        assert(nb.subrange(9, 9 + b.len() as int) =~= b);
    }
}

} // verus!
