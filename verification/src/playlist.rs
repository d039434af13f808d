//! MPC-HC/MPC-BE playlists.
use vstd::prelude::*;

use crate::models::{texts, AppError, PlaylistItem};
use crate::text::{decimal, owned, push_decimal, push_str, string_of};

verus! {

/// The two lines of the `n`-th entry (counting from 1): its type (1 for a
/// delimiter, else 0) and its file name.
pub open spec fn entry_lines(n: nat, item: PlaylistItem) -> Seq<char> {
    decimal(n) + ",type,"@ + (if item.is_delimiter {
        "1"@
    } else {
        "0"@
    }) + "\n"@ + decimal(n) + ",filename,"@ + item.path@ + "\n"@
}

/// The entries of the first `n` items.
pub open spec fn entries_upto(items: Seq<PlaylistItem>, n: int) -> Seq<char>
    decreases n,
{
    if n <= 0 {
        seq![]
    } else {
        entries_upto(items, n - 1) + entry_lines(n as nat, items[n - 1])
    }
}

/// A playlist file's text.
pub open spec fn playlist_text(items: Seq<PlaylistItem>) -> Seq<char> {
    "MPCPLAYLIST\n"@ + entries_upto(items, items.len() as int)
}

/// The text of a playlist of the items; an empty list is refused.
pub fn playlist_body(items: &Vec<PlaylistItem>) -> (r: Result<String, AppError>)
    ensures
        items@.len() == 0 ==> (r matches Err(e) && e.is_message("Results list is empty"@)),
        items@.len() > 0 ==> (r matches Ok(s) && s@ == playlist_text(items@)),
{
    if items.len() == 0 {
        return Err(AppError::Message(owned("Results list is empty")));
    }
    let mut body: Vec<char> = Vec::new();
    push_str(&mut body, "MPCPLAYLIST\n");
    let mut i: usize = 0;
    while i < items.len()
        invariant
            i <= items.len(),
            body@ == "MPCPLAYLIST\n"@ + entries_upto(items@, i as int),
        decreases items.len() - i,
    {
        let n: u64 = i as u64 + 1;
        let ghost before = body@;
        push_decimal(&mut body, n);
        push_str(&mut body, ",type,");
        if items[i].is_delimiter {
            push_str(&mut body, "1");
        } else {
            push_str(&mut body, "0");
        }
        push_str(&mut body, "\n");
        push_decimal(&mut body, n);
        push_str(&mut body, ",filename,");
        push_str(&mut body, items[i].path.as_str());
        push_str(&mut body, "\n");
        i = i + 1;
        assert(body@ =~= before + entry_lines(i as nat, items@[i - 1]));
    }
    Ok(string_of(&body))
}

/// The player executables tried, in order, before the file association.
pub open spec fn mpc_names() -> Seq<Seq<char>> {
    seq![
        "mpc-hc64.exe"@,
        "mpc-hc.exe"@,
        "mpc-be64.exe"@,
        "mpc-be.exe"@,
        "MPC-HC64.exe"@,
        "MPC-HC.exe"@,
        "MPC-BE64.exe"@,
        "MPC-BE.exe"@,
    ]
}

pub fn mpc_candidates() -> (r: Vec<String>)
    ensures
        texts(r@) == mpc_names(),
{
    let mut r: Vec<String> = Vec::new();
    r.push(owned("mpc-hc64.exe"));
    r.push(owned("mpc-hc.exe"));
    r.push(owned("mpc-be64.exe"));
    r.push(owned("mpc-be.exe"));
    r.push(owned("MPC-HC64.exe"));
    r.push(owned("MPC-HC.exe"));
    r.push(owned("MPC-BE64.exe"));
    r.push(owned("MPC-BE.exe"));
    assert(texts(r@) =~= mpc_names());
    r
}

} // verus!
