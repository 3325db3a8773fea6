//! Text rules of the client: file-name sanitising, task names, report
//! links, package names, relative paths and the failure summary of a
//! module's error output.
use crate::strs::{
    chars_contain, chars_eq, chars_of, chars_slice, concat2, concat3, contains_seq, contains_str,
    file_safe_chars, file_safe_seq, join_spec, join_words, lines_of, lower_chars, newline_pieces,
    occurs_at, push_char, replace_all, replace_chars, replace_str, starts_with, string_from_chars,
    take_chars, take_first, trim, trim_chars, trim_chars_set, trim_set, trim_spec, words_spec,
    ascii_lower_seq, char_vecs_view, is_ws, str_eq, TrimSet,
};
use vstd::prelude::*;
use vstd::string::StringSliceAdditionalSpecFns;

verus! {

broadcast use vstd::string::group_string_axioms;

/// The text `"__"`.
pub open spec fn double_underscore() -> Seq<char> {
    seq!['_', '_']
}

/// Replacing a pattern by something no longer never lengthens a string,
/// and shortens it when the pattern occurs and the replacement is shorter.
pub proof fn lemma_replace_len(s: Seq<char>, pat: Seq<char>, rep: Seq<char>)
    requires
        pat.len() > 0,
        rep.len() <= pat.len(),
    ensures
        replace_all(s, pat, rep).len() <= s.len(),
        contains_seq(s, pat) && rep.len() < pat.len() ==> replace_all(s, pat, rep).len() < s.len(),
    decreases s.len(),
{
    if s.len() == 0 {
        if contains_seq(s, pat) {
            let i = choose|i: int| occurs_at(s, i, pat);
        }
    } else if pat.is_prefix_of(s) {
        lemma_replace_len(s.skip(pat.len() as int), pat, rep);
    } else {
        lemma_replace_len(s.drop_first(), pat, rep);
        if contains_seq(s, pat) {
            let i = choose|i: int| occurs_at(s, i, pat);
            if i == 0 {
                assert forall|k: int| 0 <= k < pat.len() implies pat[k] == s[k] by {
                    assert(s.subrange(0, pat.len() as int)[k] == s[k]);
                }
                assert(pat.is_prefix_of(s));
            }
            assert(s.drop_first().subrange(i - 1, i - 1 + pat.len()) =~= s.subrange(
                i,
                i + pat.len(),
            ));
            assert(occurs_at(s.drop_first(), i - 1, pat));
        }
    }
}

/// Runs of underscores collapsed by replacing `"__"` with `"_"` until none is left.
pub open spec fn collapse_underscores(s: Seq<char>) -> Seq<char>
    decreases s.len(),
{
    if contains_seq(s, double_underscore()) {
        proof {
            lemma_replace_len(s, double_underscore(), seq!['_']);
        }
        collapse_underscores(replace_all(s, double_underscore(), seq!['_']))
    } else {
        s
    }
}

/// What `sanitize_path_segment` returns.
pub open spec fn sanitize_path_segment_spec(value: Seq<char>, fallback: Seq<char>) -> Seq<char> {
    let cleaned = trim_set(file_safe_seq(trim_spec(value)), TrimSet::WhitespaceOrDot);
    let collapsed = collapse_underscores(cleaned);
    let segment = if collapsed.len() == 0 {
        fallback
    } else {
        collapsed
    };
    take_chars(segment, 80)
}

/// A string usable as one folder name: unsafe characters become `_`,
/// surrounding whitespace and dots are dropped, runs of `_` collapse,
/// an empty result falls back to `fallback`, and at most 80 characters are kept.
pub fn sanitize_path_segment(value: &str, fallback: &str) -> (r: String)
    ensures
        r@ == sanitize_path_segment_spec(value@, fallback@),
{
    proof {
        reveal_strlit("__");
        reveal_strlit("_");
    }
    let v = chars_of(value);
    let t = trim_chars(&v);
    let mapped = file_safe_chars(&t);
    let mut segment = trim_chars_set(&mapped, TrimSet::WhitespaceOrDot);
    let pat = chars_of("__");
    let rep = chars_of("_");
    assert(pat@ =~= double_underscore());
    while chars_contain(&segment, &pat)
        invariant
            pat@ == double_underscore(),
            rep@ == seq!['_'],
            collapse_underscores(segment@) == collapse_underscores(
                trim_set(file_safe_seq(trim_spec(value@)), TrimSet::WhitespaceOrDot),
            ),
        decreases segment@.len(),
    {
        proof {
            lemma_replace_len(segment@, pat@, rep@);
        }
        segment = replace_chars(&segment, &pat, &rep);
    }
    if segment.len() == 0 {
        segment = chars_of(fallback);
    }
    let kept = take_first(&segment, 80);
    string_from_chars(&kept)
}

/// The task name that one line of a note gives, if any.
pub open spec fn note_line_task_name(line: Seq<char>) -> Option<Seq<char>> {
    let t = trim_spec(line);
    let wide = "任务名称："@;
    let narrow = "任务名称:"@;
    if wide.is_prefix_of(t) && trim_spec(t.skip(wide.len() as int)).len() > 0 {
        Some(trim_spec(t.skip(wide.len() as int)))
    } else if narrow.is_prefix_of(t) && trim_spec(t.skip(narrow.len() as int)).len() > 0 {
        Some(trim_spec(t.skip(narrow.len() as int)))
    } else {
        None
    }
}

/// The task name of the first line that gives one.
pub open spec fn first_task_name(lines: Seq<Seq<char>>) -> Option<Seq<char>>
    decreases lines.len(),
{
    if lines.len() == 0 {
        None
    } else if note_line_task_name(lines[0]) is Some {
        note_line_task_name(lines[0])
    } else {
        first_task_name(lines.drop_first())
    }
}

/// What `task_name_from_note` returns.
pub open spec fn task_name_from_note_spec(note: Seq<char>, fallback: Seq<char>) -> Seq<char> {
    match first_task_name(newline_pieces(note)) {
        Some(name) => name,
        None => if trim_spec(fallback).len() == 0 {
            "审核任务"@
        } else {
            trim_spec(fallback)
        },
    }
}

/// The value after `prefix` on a trimmed line, trimmed, when it is not empty.
fn value_after_prefix(t: &Vec<char>, prefix: &str) -> (r: Option<Vec<char>>)
    ensures
        match r {
            Some(v) => prefix@.is_prefix_of(t@) && v@ == trim_spec(t@.skip(prefix@.len() as int))
                && v@.len() > 0,
            None => !(prefix@.is_prefix_of(t@) && trim_spec(t@.skip(prefix@.len() as int)).len()
                > 0),
        },
{
    let p = chars_of(prefix);
    if !crate::strs::chars_occur_at(t, 0, &p) {
        proof {
            if prefix@.is_prefix_of(t@) {
                assert(t@.subrange(0, p@.len() as int) =~= p@);
            }
        }
        return None;
    }
    proof {
        assert forall|k: int| 0 <= k < p@.len() implies p@[k] == t@[k] by {
            assert(t@.subrange(0, p@.len() as int)[k] == t@[k]);
        }
    }
    let rest = chars_slice(t, p.len(), t.len());
    assert(rest@ =~= t@.skip(prefix@.len() as int));
    let value = trim_chars(&rest);
    if value.len() > 0 {
        Some(value)
    } else {
        None
    }
}

/// The task name written in a note as `任务名称：…` (or with an ASCII colon)
/// on some line; else the trimmed fallback; else `审核任务`.
pub fn task_name_from_note(input_note: &str, fallback: &str) -> (r: String)
    ensures
        r@ == task_name_from_note_spec(input_note@, fallback@),
{
    let lines = lines_of(input_note);
    let ghost all = char_vecs_view(lines@);
    let mut i: usize = 0;
    assert(all.skip(0) =~= all);
    while i < lines.len()
        invariant
            i <= lines.len(),
            all == char_vecs_view(lines@),
            all == newline_pieces(input_note@),
            first_task_name(all) == first_task_name(all.skip(i as int)),
        decreases lines.len() - i,
    {
        let t = trim_chars(&lines[i]);
        assert(all.skip(i as int)[0] == lines@[i as int]@);
        assert(all.skip(i as int).drop_first() =~= all.skip(i + 1));
        match value_after_prefix(&t, "任务名称：") {
            Some(v) => {
                return string_from_chars(&v);
            },
            None => {},
        }
        match value_after_prefix(&t, "任务名称:") {
            Some(v) => {
                return string_from_chars(&v);
            },
            None => {},
        }
        i += 1;
    }
    let f = trim(fallback);
    if f.as_str().is_empty() {
        "审核任务".to_owned()
    } else {
        f
    }
}

/// What `scheme_file_stem` returns.
pub open spec fn scheme_file_stem_spec(name: Seq<char>) -> Seq<char> {
    let mapped = file_safe_seq(trim_spec(name));
    let joined = trim_spec(join_spec(words_spec(mapped), seq![' ']));
    let stem = trim_set_end_space_dot(joined);
    take_chars(if stem.len() == 0 { "审核方案"@ } else { stem }, 80)
}

/// `s` without trailing dots and spaces.
pub open spec fn trim_set_end_space_dot(s: Seq<char>) -> Seq<char> {
    crate::strs::trim_end_set(s, TrimSet::SpaceOrDot)
}

/// A file stem for a scheme named `name`: unsafe characters become `_`,
/// whitespace runs become one space, trailing dots and spaces are dropped,
/// an empty stem becomes `审核方案`, and at most 80 characters are kept.
pub fn scheme_file_stem(name: &str) -> (r: String)
    ensures
        r@ == scheme_file_stem_spec(name@),
{
    let v = chars_of(name);
    let t = trim_chars(&v);
    let mapped = file_safe_chars(&t);
    let joined = join_words(&mapped);
    let trimmed = trim_chars(&joined);
    let mut end = trimmed.len();
    while end > 0 && (trimmed[end - 1] == '.' || trimmed[end - 1] == ' ')
        invariant
            end <= trimmed.len(),
            forall|i: int|
                end <= i < trimmed@.len() ==> crate::strs::in_trim_set(
                    TrimSet::SpaceOrDot,
                    #[trigger] trimmed@[i],
                ),
        decreases end,
    {
        end -= 1;
    }
    proof {
        crate::strs::lemma_trim_end_take(trimmed@, TrimSet::SpaceOrDot, end as int);
    }
    let stem = chars_slice(&trimmed, 0, end);
    assert(stem@ =~= trimmed@.take(end as int));
    if stem.len() == 0 {
        let d = chars_of("审核方案");
        let kept = take_first(&d, 80);
        string_from_chars(&kept)
    } else {
        let kept = take_first(&stem, 80);
        string_from_chars(&kept)
    }
}

/// What `module_folder_name` returns.
pub open spec fn module_folder_name_spec(module_id: Seq<char>) -> Seq<char> {
    trim_set(file_safe_seq(trim_spec(module_id)), TrimSet::SpaceOrDot)
}

/// The folder name for a module id: unsafe characters become `_`, and
/// surrounding spaces and dots are dropped.
pub fn module_folder_name(module_id: &str) -> (r: String)
    ensures
        r@ == module_folder_name_spec(module_id@),
{
    let v = chars_of(module_id);
    let t = trim_chars(&v);
    let mapped = file_safe_chars(&t);
    let kept = trim_chars_set(&mapped, TrimSet::SpaceOrDot);
    string_from_chars(&kept)
}

/// Bytes that a URL keeps as they are.
pub open spec fn unreserved(b: u8) -> bool {
    (65 <= b && b <= 90) || (97 <= b && b <= 122) || (48 <= b && b <= 57) || b == 45 || b == 95
        || b == 46 || b == 126
}

/// The upper-case hexadecimal digit for `d < 16`.
pub open spec fn hex_upper(d: u8) -> char {
    if d < 10 {
        (48 + d) as char
    } else {
        (55 + d) as char
    }
}

/// Percent-encoding of bytes: unreserved bytes as themselves, the rest as `%XX`.
pub open spec fn percent_encode_bytes(bs: Seq<u8>) -> Seq<char>
    decreases bs.len(),
{
    if bs.len() == 0 {
        Seq::empty()
    } else {
        let b = bs.last();
        percent_encode_bytes(bs.drop_last()) + if unreserved(b) {
            seq![b as char]
        } else {
            seq!['%', hex_upper(b / 16), hex_upper(b % 16)]
        }
    }
}

/// The upper-case hexadecimal digit for `d < 16`.
fn hex_digit(d: u8) -> (c: char)
    requires
        d < 16,
    ensures
        c == hex_upper(d),
{
    if d < 10 {
        (48u8 + d) as char
    } else {
        (55u8 + d) as char
    }
}

/// The UTF-8 bytes of `value`, percent-encoded.
pub fn percent_encode_path(value: &str) -> (r: String)
    ensures
        r@ == percent_encode_bytes(utf8_of(value@)),
{
    let bytes = value.as_bytes();
    let mut out = String::new();
    let mut i: usize = 0;
    while i < bytes.len()
        invariant
            i <= bytes@.len(),
            bytes@ == utf8_of(value@),
            out@ == percent_encode_bytes(bytes@.take(i as int)),
        decreases bytes.len() - i,
    {
        let b = bytes[i];
        let ghost before = out@;
        assert(bytes@.take(i + 1).drop_last() =~= bytes@.take(i as int));
        if (65 <= b && b <= 90) || (97 <= b && b <= 122) || (48 <= b && b <= 57) || b == 45 || b
            == 95 || b == 46 || b == 126 {
            push_char(&mut out, b as char);
            assert(out@ =~= before + seq![b as char]);
        } else {
            push_char(&mut out, '%');
            push_char(&mut out, hex_digit(b / 16));
            push_char(&mut out, hex_digit(b % 16));
            assert(out@ =~= before + seq!['%', hex_upper(b / 16), hex_upper(b % 16)]);
        }
        i += 1;
    }
    assert(bytes@.take(bytes@.len() as int) =~= bytes@);
    out
}

/// What `table_cell` returns.
pub open spec fn table_cell_spec(value: Seq<char>) -> Seq<char> {
    replace_all(replace_all(value, seq!['|'], seq!['\\', '|']), seq!['\n'], seq![' '])
}

/// A value safe inside a Markdown table cell: `|` escaped, newlines as spaces.
pub fn table_cell(value: &str) -> (r: String)
    ensures
        r@ == table_cell_spec(value@),
{
    proof {
        reveal_strlit("|");
        reveal_strlit("\\|");
        reveal_strlit("\n");
        reveal_strlit(" ");
    }
    assert("|"@ =~= seq!['|']);
    assert("\\|"@ =~= seq!['\\', '|']);
    assert("\n"@ =~= seq!['\n']);
    assert(" "@ =~= seq![' ']);
    let a = replace_str(value, "|", "\\|");
    replace_str(a.as_str(), "\n", " ")
}

/// What `markdown_link_text` returns.
pub open spec fn markdown_link_text_spec(value: Seq<char>) -> Seq<char> {
    replace_all(
        replace_all(
            replace_all(table_cell_spec(value), seq!['\\'], seq!['\\', '\\']),
            seq!['['],
            seq!['\\', '['],
        ),
        seq![']'],
        seq!['\\', ']'],
    )
}

/// Text safe as the label of a Markdown link inside a table.
pub fn markdown_link_text(value: &str) -> (r: String)
    ensures
        r@ == markdown_link_text_spec(value@),
{
    proof {
        reveal_strlit("\\");
        reveal_strlit("\\\\");
        reveal_strlit("[");
        reveal_strlit("\\[");
        reveal_strlit("]");
        reveal_strlit("\\]");
    }
    assert("\\"@ =~= seq!['\\']);
    assert("\\\\"@ =~= seq!['\\', '\\']);
    assert("["@ =~= seq!['[']);
    assert("\\["@ =~= seq!['\\', '[']);
    assert("]"@ =~= seq![']']);
    assert("\\]"@ =~= seq!['\\', ']']);
    let a = table_cell(value);
    let b = replace_str(a.as_str(), "\\", "\\\\");
    let c = replace_str(b.as_str(), "[", "\\[");
    replace_str(c.as_str(), "]", "\\]")
}

/// The UTF-8 encoding of a character sequence.
pub open spec fn utf8_of(s: Seq<char>) -> Seq<u8> {
    vstd::utf8::encode_utf8(s)
}

/// What `report_target_url` returns.
pub open spec fn report_target_url_spec(path: Seq<char>) -> Seq<char> {
    let t = trim_spec(path);
    if t.len() == 0 {
        Seq::empty()
    } else {
        "ugcaudit://reveal?path="@ + percent_encode_bytes(utf8_of(t))
    }
}

/// The client link that reveals `path`; empty for a blank path.
pub fn report_target_url(path: &str) -> (r: String)
    ensures
        r@ == report_target_url_spec(path@),
{
    let t = trim(path);
    if t.as_str().is_empty() {
        String::new()
    } else {
        let encoded = percent_encode_path(t.as_str());
        concat2("ugcaudit://reveal?path=", encoded.as_str())
    }
}

/// What `report_file_link` returns.
pub open spec fn report_file_link_spec(label: Seq<char>, path: Seq<char>) -> Seq<char> {
    let url = report_target_url_spec(path);
    if url.len() == 0 {
        markdown_link_text_spec(label)
    } else {
        seq!['['] + markdown_link_text_spec(label) + seq![']', '('] + url + seq![')']
    }
}

/// A Markdown link to `path` labelled `label`; the bare label for a blank path.
pub fn report_file_link(label: &str, path: &str) -> (r: String)
    ensures
        r@ == report_file_link_spec(label@, path@),
{
    proof {
        reveal_strlit("[");
        reveal_strlit("](");
        reveal_strlit(")");
    }
    let url = report_target_url(path);
    let text = markdown_link_text(label);
    if url.as_str().is_empty() {
        text
    } else {
        let mut out = "[".to_owned();
        out.append(text.as_str());
        out.append("](");
        out.append(url.as_str());
        out.append(")");
        out
    }
}

/// What `normalize_package_name` returns.
pub open spec fn normalize_package_name_spec(name: Seq<char>) -> Seq<char> {
    replace_all(replace_all(ascii_lower_seq(name), seq!['-'], seq!['_']), seq!['.'], seq!['_'])
}

/// A package name lower-cased with `-` and `.` as `_`.
pub fn normalize_package_name(name: &str) -> (r: String)
    ensures
        r@ == normalize_package_name_spec(name@),
{
    proof {
        reveal_strlit("-");
        reveal_strlit("_");
        reveal_strlit(".");
    }
    assert("-"@ =~= seq!['-']);
    assert("_"@ =~= seq!['_']);
    assert("."@ =~= seq!['.']);
    let v = chars_of(name);
    let lower = lower_chars(&v);
    let l = string_from_chars(&lower);
    let a = replace_str(l.as_str(), "-", "_");
    replace_str(a.as_str(), ".", "_")
}

/// What `site_package_entry_matches` returns.
pub open spec fn site_package_entry_matches_spec(entry_name: Seq<char>, package_name: Seq<char>) -> bool {
    let entry = normalize_package_name_spec(entry_name);
    let package = normalize_package_name_spec(package_name);
    ||| entry == package
    ||| entry == package + ".py"@
    ||| (package + "_"@).is_prefix_of(entry)
    ||| (package + "-"@).is_prefix_of(entry)
}

/// Whether a `site-packages` entry belongs to the package `package_name`.
pub fn site_package_entry_matches(entry_name: &str, package_name: &str) -> (r: bool)
    ensures
        r == site_package_entry_matches_spec(entry_name@, package_name@),
{
    let entry = normalize_package_name(entry_name);
    let package = normalize_package_name(package_name);
    let with_py = concat2(package.as_str(), ".py");
    let with_underscore = concat2(package.as_str(), "_");
    let with_dash = concat2(package.as_str(), "-");
    str_eq(entry.as_str(), package.as_str()) || str_eq(entry.as_str(), with_py.as_str())
        || starts_with(entry.as_str(), with_underscore.as_str()) || starts_with(
        entry.as_str(),
        with_dash.as_str(),
    )
}

/// What `normalized_relative_path` returns.
pub open spec fn normalized_relative_path_spec(path: Seq<char>) -> Seq<char> {
    trim_spec(trim_set(replace_all(path, seq!['\\'], seq!['/']), TrimSet::Slash))
}

/// A relative path with `/` separators and no leading or trailing `/`.
pub fn normalized_relative_path(path: &str) -> (r: String)
    ensures
        r@ == normalized_relative_path_spec(path@),
{
    proof {
        reveal_strlit("\\");
        reveal_strlit("/");
    }
    assert("\\"@ =~= seq!['\\']);
    assert("/"@ =~= seq!['/']);
    let a = replace_str(path, "\\", "/");
    let v = chars_of(a.as_str());
    let b = trim_chars_set(&v, TrimSet::Slash);
    let c = trim_chars(&b);
    string_from_chars(&c)
}

/// What `relative_path_matches` returns.
pub open spec fn relative_path_matches_spec(path: Seq<char>, prefix: Seq<char>) -> bool {
    let p = normalized_relative_path_spec(path);
    let q = normalized_relative_path_spec(prefix);
    q.len() == 0 || p == q || (q + seq!['/']).is_prefix_of(p)
}

/// Whether `path` lies at or below the relative folder `prefix`.
pub fn relative_path_matches(path: &str, prefix: &str) -> (r: bool)
    ensures
        r == relative_path_matches_spec(path@, prefix@),
{
    proof {
        reveal_strlit("/");
    }
    let p = normalized_relative_path(path);
    let q = normalized_relative_path(prefix);
    if q.as_str().is_empty() {
        return true;
    }
    let with_slash = concat2(q.as_str(), "/");
    str_eq(p.as_str(), q.as_str()) || starts_with(p.as_str(), with_slash.as_str())
}

/// What `path_matches_relative_file` returns.
pub open spec fn path_matches_relative_file_spec(
    asset_path: Seq<char>,
    file_name: Option<Seq<char>>,
    relative_path: Seq<char>,
) -> bool {
    let r = normalized_relative_path_spec(relative_path);
    &&& r.len() > 0
    &&& ((file_name matches Some(f) && normalized_relative_path_spec(f) == r) || r.is_suffix_of(
        normalized_relative_path_spec(asset_path),
    ))
}

/// Whether the relative file name of a report link names the asset at
/// `asset_path`, whose last component is `file_name` when it has one: the
/// normalised name is not blank, and it is the asset's normalised file name or
/// ends the asset's normalised path.
pub fn path_matches_relative_file(asset_path: &str, file_name: Option<&str>, relative_path: &str) -> (r: bool)
    ensures
        r == path_matches_relative_file_spec(
            asset_path@,
            match file_name {
                Some(f) => Some(f@),
                None => None,
            },
            relative_path@,
        ),
{
    let rel = normalized_relative_path(relative_path);
    if rel.as_str().is_empty() {
        return false;
    }
    let name_matches = match file_name {
        Some(f) => {
            let nf = normalized_relative_path(f);
            str_eq(nf.as_str(), rel.as_str())
        },
        None => false,
    };
    if name_matches {
        return true;
    }
    let np = normalized_relative_path(asset_path);
    crate::strs::ends_with(np.as_str(), rel.as_str())
}

/// What `replace_arg_placeholders` returns.
pub open spec fn replace_arg_placeholders_spec(
    arg: Seq<char>,
    input_path: Seq<char>,
    output_path: Seq<char>,
    resource_dir: Seq<char>,
    params_json: Seq<char>,
) -> Seq<char> {
    replace_all(
        replace_all(
            replace_all(replace_all(arg, "{inputJson}"@, input_path), "{outputJson}"@, output_path),
            "{resourceRoot}"@,
            resource_dir,
        ),
        "{paramsJson}"@,
        params_json,
    )
}

/// A launch argument with its placeholders filled in.
pub fn replace_arg_placeholders(
    arg: &str,
    input_path: &str,
    output_path: &str,
    resource_dir: &str,
    params_json: &str,
) -> (r: String)
    ensures
        r@ == replace_arg_placeholders_spec(arg@, input_path@, output_path@, resource_dir@, params_json@),
{
    proof {
        reveal_strlit("{inputJson}");
        reveal_strlit("{outputJson}");
        reveal_strlit("{resourceRoot}");
        reveal_strlit("{paramsJson}");
    }
    let a = replace_str(arg, "{inputJson}", input_path);
    let b = replace_str(a.as_str(), "{outputJson}", output_path);
    let c = replace_str(b.as_str(), "{resourceRoot}", resource_dir);
    replace_str(c.as_str(), "{paramsJson}", params_json)
}

/// A run id is usable as a folder name under `runs`.
pub open spec fn safe_run_id(run_id: Seq<char>) -> bool {
    trim_spec(run_id).len() > 0 && !run_id.contains('/') && !run_id.contains('\\')
        && !contains_seq(run_id, seq!['.', '.'])
}

/// Checks a run id before it is used as a folder name under `runs`;
/// returns the id, or the error the client reports.
pub fn safe_run_dir(run_id: &str) -> (r: Result<String, String>)
    ensures
        safe_run_id(run_id@) ==> (r matches Ok(id) && id@ == run_id@),
        !safe_run_id(run_id@) ==> (r matches Err(e) && e@ == "运行记录 ID 不合法。"@),
{
    proof {
        reveal_strlit("..");
    }
    assert(".."@ =~= seq!['.', '.']);
    let t = trim(run_id);
    if t.as_str().is_empty() || crate::strs::contains_char(run_id, '/')
        || crate::strs::contains_char(run_id, '\\') || contains_str(run_id, "..") {
        return Err("运行记录 ID 不合法。".to_owned());
    }
    Ok(run_id.to_owned())
}

} // verus!
