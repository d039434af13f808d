use local_file_explorer::shell_length::{length_script_for, reply_values};

fn expected_script(folder: &str, name: &str, col_expr: &str) -> String {
    format!(
        r#"
$ErrorActionPreference='Stop'
$folder='{folder}'
$name='{name}'
$colHint={col_expr}
$shell=New-Object -ComObject Shell.Application
$ns=$shell.NameSpace($folder)
if(-not $ns){{ exit 2 }}
$item=$ns.ParseName($name)
if(-not $item){{ exit 3 }}
function Parse-Len([string]$v) {{
  if([string]::IsNullOrWhiteSpace($v)){{ return $null }}
  $v=$v.Trim()
  if($v -match '^(\d+):(\d{{2}}):(\d{{2}})(\.\d+)?$'){{
    return ([int]$Matches[1]*3600+[int]$Matches[2]*60+[int]$Matches[3])*1000
  }}
  if($v -match '^(\d+):(\d{{2}})(\.\d+)?$'){{
    return ([int]$Matches[1]*60+[int]$Matches[2])*1000
  }}
  return $null
}}
$col=$colHint
if($col -lt 0){{
  for($i=0; $i -le 320; $i++){{
    $hdr=$ns.GetDetailsOf($null,$i)
    if($hdr -eq 'Length' -or $hdr -eq 'Duration' -or $hdr -eq 'Länge' -or $hdr -eq 'Dauer'){{
      $col=$i; break
    }}
  }}
}}
if($col -lt 0){{ exit 4 }}
$raw=$ns.GetDetailsOf($item,$col)
$ms=Parse-Len $raw
if($null -eq $ms){{ exit 5 }}
Write-Output ("COL="+$col)
Write-Output ("MS="+$ms)
"#
    )
}

#[test]
fn length_script_without_hint_searches_columns() {
    let script = length_script_for("C:\\Videos", "clip.mp4", None);
    assert_eq!(script, expected_script("C:\\Videos", "clip.mp4", "-1"));
}

#[test]
fn length_script_uses_cached_column() {
    let script = length_script_for("D:\\Music", "song.wav", Some(27));
    assert_eq!(script, expected_script("D:\\Music", "song.wav", "27"));
    let negative = length_script_for("D:\\Music", "song.wav", Some(-3));
    assert_eq!(negative, expected_script("D:\\Music", "song.wav", "-3"));
}

#[test]
fn length_script_doubles_single_quotes() {
    let script = length_script_for("C:\\Rock 'n' Roll", "It's.mp3", None);
    assert_eq!(script, expected_script("C:\\Rock ''n'' Roll", "It''s.mp3", "-1"));
    assert!(script.contains("$name='It''s.mp3'"));
}

#[test]
fn reply_values_reads_keyed_lines() {
    let reply = "COL=27\r\nMS=183000\r\n";
    assert_eq!(reply_values(reply, "COL="), vec!["27".to_string()]);
    assert_eq!(reply_values(reply, "MS="), vec!["183000".to_string()]);
}

#[test]
fn reply_values_keeps_every_match_in_order() {
    let reply = "noise\nMS= 1 \nother MS=5\nMS=2";
    assert_eq!(reply_values(reply, "MS="), vec!["1".to_string(), "2".to_string()]);
    assert_eq!(reply_values(reply, "COL="), Vec::<String>::new());
    assert_eq!(reply_values("", "MS="), Vec::<String>::new());
    assert_eq!(reply_values("MS=\n", "MS="), vec![String::new()]);
}

#[test]
fn length_script_doubles_typographic_quotes() {
    let script = length_script_for("C:\\Music", "Don\u{2019}t \u{2018}x\u{201B}.mp3", None);
    assert!(script.contains("$name='Don\u{2019}\u{2019}t \u{2018}\u{2018}x\u{201B}\u{201B}.mp3'"));
}
