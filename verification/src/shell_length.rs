//! The Windows shell's "Length" column as a source of durations: the
//! PowerShell script that asks the shell for it, and the reading of the
//! script's reply.
use vstd::prelude::*;

use crate::models::texts;
use crate::text::{
    chars_of, decimal, has_prefix, push_decimal, push_str, starts_with, string_of, trim,
    trim_chars,
};

verus! {

/// Whether PowerShell reads `c` as a single quote: the ASCII apostrophe or
/// one of the typographic single quotes U+2018 to U+201B.
pub open spec fn is_single_quote(c: char) -> bool {
    c == '\'' || ('\u{2018}' <= c && c <= '\u{201B}')
}

/// `s` with every single quote doubled, as inside a PowerShell
/// single-quoted string, where a doubled quote stands for itself.
pub open spec fn quotes_doubled(s: Seq<char>) -> Seq<char>
    decreases s.len(),
{
    if s.len() == 0 {
        seq![]
    } else {
        let rest = quotes_doubled(s.drop_last());
        if is_single_quote(s.last()) {
            rest + seq![s.last(), s.last()]
        } else {
            rest.push(s.last())
        }
    }
}

fn push_quotes_doubled(out: &mut Vec<char>, s: &str)
    ensures
        final(out)@ == old(out)@ + quotes_doubled(s@),
{
    let cs = chars_of(s);
    let ghost start = out@;
    let mut i: usize = 0;
    while i < cs.len()
        invariant
            i <= cs.len(),
            cs@ == s@,
            out@ == start + quotes_doubled(cs@.take(i as int)),
        decreases cs.len() - i,
    {
        assert(cs@.take(i + 1).drop_last() == cs@.take(i as int));
        let c = cs[i];
        if c == '\'' || ('\u{2018}' <= c && c <= '\u{201B}') {
            out.push(c);
            out.push(c);
        } else {
            out.push(c);
        }
        assert(out@ =~= start + quotes_doubled(cs@.take(i + 1)));
        i = i + 1;
    }
    assert(cs@.take(cs.len() as int) == cs@);
}

/// The column hint as the script reads it: the cached column, or -1 when
/// none is cached yet.
pub open spec fn hint_text(hint: Option<i32>) -> Seq<char> {
    match hint {
        None => "-1"@,
        Some(c) => if c < 0 {
            seq!['-'] + decimal((-c) as nat)
        } else {
            decimal(c as nat)
        },
    }
}

fn push_hint(out: &mut Vec<char>, hint: Option<i32>)
    ensures
        final(out)@ == old(out)@ + hint_text(hint),
{
    match hint {
        None => {
            push_str(out, "-1");
        },
        Some(c) => {
            if c < 0 {
                let ghost start = out@;
                out.push('-');
                let m: i64 = 0i64 - (c as i64);
                push_decimal(out, m as u64);
                assert(out@ =~= start + (seq!['-'] + decimal((-c) as nat)));
            } else {
                push_decimal(out, c as u64);
            }
        },
    }
}

/// What the script does once `$folder`, `$name` and `$colHint` are set:
/// open the folder through Shell.Application, find the Length/Duration
/// column (unless the hint names it), read the file's entry there as
/// h:mm:ss or m:ss, and print the column and the milliseconds.
pub const LENGTH_SCRIPT_BODY: &'static str = r#"
$shell=New-Object -ComObject Shell.Application
$ns=$shell.NameSpace($folder)
if(-not $ns){ exit 2 }
$item=$ns.ParseName($name)
if(-not $item){ exit 3 }
function Parse-Len([string]$v) {
  if([string]::IsNullOrWhiteSpace($v)){ return $null }
  $v=$v.Trim()
  if($v -match '^(\d+):(\d{2}):(\d{2})(\.\d+)?$'){
    return ([int]$Matches[1]*3600+[int]$Matches[2]*60+[int]$Matches[3])*1000
  }
  if($v -match '^(\d+):(\d{2})(\.\d+)?$'){
    return ([int]$Matches[1]*60+[int]$Matches[2])*1000
  }
  return $null
}
$col=$colHint
if($col -lt 0){
  for($i=0; $i -le 320; $i++){
    $hdr=$ns.GetDetailsOf($null,$i)
    if($hdr -eq 'Length' -or $hdr -eq 'Duration' -or $hdr -eq 'Länge' -or $hdr -eq 'Dauer'){
      $col=$i; break
    }
  }
}
if($col -lt 0){ exit 4 }
$raw=$ns.GetDetailsOf($item,$col)
$ms=Parse-Len $raw
if($null -eq $ms){ exit 5 }
Write-Output ("COL="+$col)
Write-Output ("MS="+$ms)
"#;

/// The script that asks the shell for the length of file `name` in
/// `folder`, starting its column search from `hint`.
pub open spec fn length_script(folder: Seq<char>, name: Seq<char>, hint: Option<i32>) -> Seq<
    char,
> {
    "\n$ErrorActionPreference='Stop'\n$folder='"@ + quotes_doubled(folder) + "'\n$name='"@
        + quotes_doubled(name) + "'\n$colHint="@ + hint_text(hint) + LENGTH_SCRIPT_BODY@
}

/// Builds the script that asks the shell for the length of file `name` in
/// `folder`, quoting both for PowerShell.
pub fn length_script_for(folder: &str, name: &str, hint: Option<i32>) -> (r: String)
    ensures
        r@ == length_script(folder@, name@, hint),
{
    let mut out = chars_of("\n$ErrorActionPreference='Stop'\n$folder='");
    push_quotes_doubled(&mut out, folder);
    push_str(&mut out, "'\n$name='");
    push_quotes_doubled(&mut out, name);
    push_str(&mut out, "'\n$colHint=");
    push_hint(&mut out, hint);
    push_str(&mut out, LENGTH_SCRIPT_BODY);
    string_of(&out)
}

/// Splitting the first `i` characters of `s` at line feeds: the finished
/// lines, and the line still open.
pub open spec fn split_lines_upto(s: Seq<char>, i: int) -> (Seq<Seq<char>>, Seq<char>)
    decreases i,
{
    if i <= 0 {
        (seq![], seq![])
    } else {
        let prev = split_lines_upto(s, i - 1);
        if s[i - 1] == '\n' {
            (prev.0.push(prev.1), seq![])
        } else {
            (prev.0, prev.1.push(s[i - 1]))
        }
    }
}

/// The lines of `s`: the pieces between line feeds, the piece after the last
/// one included (empty when `s` ends with a line feed). A carriage return
/// before a line feed stays in its line.
pub open spec fn line_pieces(s: Seq<char>) -> Seq<Seq<char>> {
    split_lines_upto(s, s.len() as int).0.push(split_lines_upto(s, s.len() as int).1)
}

/// For each line that starts with `key`, in order, the rest of the line,
/// trimmed.
pub open spec fn keyed_values(lines: Seq<Seq<char>>, key: Seq<char>) -> Seq<Seq<char>>
    decreases lines.len(),
{
    if lines.len() == 0 {
        seq![]
    } else {
        let rest = keyed_values(lines.drop_last(), key);
        let l = lines.last();
        if has_prefix(l, key) {
            rest.push(trim(l.skip(key.len() as int)))
        } else {
            rest
        }
    }
}

fn push_keyed(out: &mut Vec<String>, line: &Vec<char>, key: &Vec<char>)
    ensures
        texts(final(out)@) == (if has_prefix(line@, key@) {
            texts(old(out)@).push(trim(line@.skip(key@.len() as int)))
        } else {
            texts(old(out)@)
        }),
{
    if starts_with(line, key) {
        let mut rest: Vec<char> = Vec::new();
        let mut j: usize = key.len();
        while j < line.len()
            invariant
                key.len() <= j <= line.len(),
                rest@ == line@.subrange(key.len() as int, j as int),
            decreases line.len() - j,
        {
            rest.push(line[j]);
            j = j + 1;
            assert(rest@ =~= line@.subrange(key.len() as int, j as int));
        }
        assert(rest@ =~= line@.skip(key@.len() as int));
        let t = trim_chars(&rest);
        let ghost before = out@;
        out.push(string_of(&t));
        assert(texts(out@) =~= texts(before).push(trim(line@.skip(key@.len() as int))));
    }
}

/// The values that the reply `text` gives for `key`: for each line of the
/// text that starts with `key`, in order, the rest of the line, trimmed.
pub fn reply_values(text: &str, key: &str) -> (r: Vec<String>)
    ensures
        texts(r@) == keyed_values(line_pieces(text@), key@),
{
    let cs = chars_of(text);
    let k = chars_of(key);
    let mut out: Vec<String> = Vec::new();
    let mut cur: Vec<char> = Vec::new();
    let mut i: usize = 0;
    while i < cs.len()
        invariant
            i <= cs.len(),
            cs@ == text@,
            k@ == key@,
            split_lines_upto(cs@, i as int).1 == cur@,
            texts(out@) == keyed_values(split_lines_upto(cs@, i as int).0, key@),
        decreases cs.len() - i,
    {
        let c = cs[i];
        if c == '\n' {
            let ghost done = split_lines_upto(cs@, i as int).0;
            push_keyed(&mut out, &cur, &k);
            assert(done.push(cur@).drop_last() == done);
            cur = Vec::new();
        } else {
            cur.push(c);
        }
        i = i + 1;
    }
    let ghost done = split_lines_upto(cs@, i as int).0;
    push_keyed(&mut out, &cur, &k);
    assert(done.push(cur@).drop_last() == done);
    out
}

} // verus!
