//! Application DSL files: metadata scanning, folder layout and file naming.

use vstd::prelude::*;

use crate::text::{
    append_chars, char_is_ws, chars_lines, chars_of, chars_replace_all, chars_starts_with, chars_trim,
    chars_trim_quotes, is_ws, lines, opt_view, replace_all, slice_chars, starts_with, str_eq,
    owned, string_of, trim, trim_end, trim_quotes, trim_start, views,
};

verus! {

// ---------------------------------------------------------------------------
// Folder layout
// ---------------------------------------------------------------------------

/// The folder that holds the DSL files of an application mode.
pub open spec fn mode_folder(mode: Seq<char>) -> Seq<char> {
    if mode == "workflow"@ {
        "workflows"@
    } else if mode == "advanced-chat"@ {
        "chatflows"@
    } else {
        mode
    }
}

/// The folder under which the DSL files of `mode` are kept:
/// `workflows` for workflows, `chatflows` for advanced chats, and the mode's
/// own name for every other mode.
pub fn get_mode_folder(mode: &str) -> (res: &str)
    ensures
        res@ == mode_folder(mode@),
{
    if str_eq(mode, "workflow") {
        "workflows"
    } else if str_eq(mode, "advanced-chat") {
        "chatflows"
    } else {
        mode
    }
}

/// Whether an imported application of `mode` is published afterwards:
/// only workflows and advanced chats are.
pub open spec fn publishable_mode(mode: Seq<char>) -> bool {
    mode == "workflow"@ || mode == "advanced-chat"@
}

/// Whether an application of `mode` is published after an import.
pub fn should_publish(mode: &str) -> (res: bool)
    ensures
        res == publishable_mode(mode@),
{
    str_eq(mode, "workflow") || str_eq(mode, "advanced-chat")
}

/// Whether a file extension marks a DSL file (`yml` or `yaml`).
pub open spec fn dsl_extension(ext: Option<Seq<char>>) -> bool {
    match ext {
        Some(e) => e == "yml"@ || e == "yaml"@,
        None => false,
    }
}

/// Whether a file with the extension `ext` is taken for import.
pub fn is_dsl_extension(ext: Option<&str>) -> (res: bool)
    ensures
        res == dsl_extension(
            match ext {
                Some(e) => Some(e@),
                None => None,
            },
        ),
{
    match ext {
        Some(e) => str_eq(e, "yml") || str_eq(e, "yaml"),
        None => false,
    }
}

/// A relative path with every `\` turned into `/`.
pub fn normalize_separators(rel: &str) -> (res: String)
    ensures
        res@ == replace_all(rel@, seq!['\\'], seq!['/']),
{
    let s = chars_of(rel);
    let mut pat: Vec<char> = Vec::new();
    pat.push('\\');
    let mut rep: Vec<char> = Vec::new();
    rep.push('/');
    assert(pat@ =~= seq!['\\']);
    assert(rep@ =~= seq!['/']);
    let r = chars_replace_all(&s, &pat, &rep);
    string_of(&r)
}

// ---------------------------------------------------------------------------
// File names
// ---------------------------------------------------------------------------

/// The characters that a file name keeps: word characters, white space,
/// hyphens and CJK ideographs; every other character matches this pattern.
pub const FILE_NAME_DISALLOWED: &'static str = r"[^\w\s\-\u{4e00}-\u{9fa5}]";

/// A run of white space.
pub const WHITESPACE_RUN: &'static str = r"\s+";

/// What `Regex::new(pattern)` followed by `replace_all(text, replacement)`
/// yields; `None` where the pattern does not compile.
pub uninterp spec fn regex_replaced(
    pattern: Seq<char>,
    text: Seq<char>,
    replacement: Seq<char>,
) -> Option<Seq<char>>;

/// Replaces every match of `pattern` in `text` with the `regex` crate.
///
/// Trusted: the result is `regex_replaced` of the three arguments, a function
/// of them alone; nothing about regular expressions is stated.
#[verifier::external_body]
fn regex_replace_all(pattern: &str, text: &str, replacement: &str) -> (res: Option<String>)
    ensures
        opt_view(res) == regex_replaced(pattern@, text@, replacement@),
{
    match regex::Regex::new(pattern) {
        Ok(re) => Some(re.replace_all(text, replacement).into_owned()),
        Err(_) => None,
    }
}

/// The file name (without extension) that an application's name is saved
/// under: the characters outside [`FILE_NAME_DISALLOWED`]'s class are dropped,
/// the rest is trimmed, every run of white space becomes `_`, and an empty
/// result becomes `unnamed_app` (as does a pattern that does not compile).
pub open spec fn sanitized_name(name: Seq<char>) -> Seq<char> {
    match regex_replaced(FILE_NAME_DISALLOWED@, name, ""@) {
        Some(clean) => match regex_replaced(WHITESPACE_RUN@, trim(clean), "_"@) {
            Some(c) => if c.len() == 0 {
                "unnamed_app"@
            } else {
                c
            },
            None => "unnamed_app"@,
        },
        None => "unnamed_app"@,
    }
}

/// Turns an application's name into a file name.
pub fn sanitize_filename(name: &str) -> (res: String)
    ensures
        res@ == sanitized_name(name@),
        res@.len() > 0,
{
    proof {
        reveal_strlit("unnamed_app");
    }
    let cleaned = match regex_replace_all(FILE_NAME_DISALLOWED, name, "") {
        Some(c) => c,
        None => return owned("unnamed_app"),
    };
    let cc = chars_of(cleaned.as_str());
    let trimmed = string_of(&chars_trim(&cc));
    match regex_replace_all(WHITESPACE_RUN, trimmed.as_str(), "_") {
        Some(c) => {
            if c.as_str().unicode_len() == 0 {
                owned("unnamed_app")
            } else {
                c
            }
        },
        None => owned("unnamed_app"),
    }
}

/// A file name is built in this order: the disallowed characters are dropped
/// from the whole name first, the rest is trimmed, and only then each run of
/// white space becomes one `_` (so "Q & A" loses `&` before its spaces are
/// collapsed, and gives one `_`); an empty outcome, or a pattern that does not
/// compile, gives `unnamed_app`.
pub proof fn law_sanitize_drops_then_collapses(name: Seq<char>)
    ensures
        match regex_replaced(FILE_NAME_DISALLOWED@, name, ""@) {
            Some(clean) => match regex_replaced(WHITESPACE_RUN@, trim(clean), "_"@) {
                Some(c) => (c.len() > 0 ==> sanitized_name(name) == c) && (c.len() == 0
                    ==> sanitized_name(name) == "unnamed_app"@),
                None => sanitized_name(name) == "unnamed_app"@,
            },
            None => sanitized_name(name) == "unnamed_app"@,
        },
        sanitized_name(name).len() > 0,
{
    reveal_strlit("unnamed_app");
}

/// The path, relative to the output directory, under which an exported
/// application is saved: its mode's folder, `/`, its sanitized name and `.yml`.
pub open spec fn export_rel_path(mode: Seq<char>, name: Seq<char>) -> Seq<char> {
    mode_folder(mode) + "/"@ + sanitized_name(name) + ".yml"@
}

/// The relative path of an exported application's DSL file.
pub fn export_path(mode: &str, name: &str) -> (res: String)
    ensures
        res@ == export_rel_path(mode@, name@),
{
    let mut p = chars_of(get_mode_folder(mode));
    append_chars(&mut p, &chars_of("/"));
    let n = sanitize_filename(name);
    append_chars(&mut p, &chars_of(n.as_str()));
    append_chars(&mut p, &chars_of(".yml"));
    string_of(&p)
}

// ---------------------------------------------------------------------------
// Metadata of a DSL document
// ---------------------------------------------------------------------------

/// What the scan of a DSL document has found so far:
/// the application's name, its mode, and whether the scan is inside the
/// top-level `app:` block.
pub struct MetaScan {
    pub name: Option<Seq<char>>,
    pub mode: Option<Seq<char>>,
    pub in_app: bool,
}

/// The value of a `key: value` line under `app:`, without white space and
/// quotes around it.
pub open spec fn scalar_after(t: Seq<char>, key: Seq<char>) -> Seq<char> {
    trim_quotes(trim(t.skip(key.len() as int)))
}

/// One line of the scan: blank lines and comments change nothing; a line
/// without indentation opens or closes the `app:` block; an indented
/// `name:` or `mode:` line inside that block records its value.
pub open spec fn meta_step(st: MetaScan, line: Seq<char>) -> MetaScan {
    let t = trim(line);
    if t.len() == 0 || t[0] == '#' {
        st
    } else if !is_ws(line[0]) {
        MetaScan { in_app: starts_with(t, "app:"@), ..st }
    } else if st.in_app && starts_with(t, "name:"@) {
        MetaScan { name: Some(scalar_after(t, "name:"@)), ..st }
    } else if st.in_app && starts_with(t, "mode:"@) {
        MetaScan { mode: Some(scalar_after(t, "mode:"@)), ..st }
    } else {
        st
    }
}

/// The scan over a sequence of lines.
pub open spec fn meta_scan(ls: Seq<Seq<char>>) -> MetaScan
    decreases ls.len(),
{
    if ls.len() == 0 {
        MetaScan { name: None, mode: None, in_app: false }
    } else {
        meta_step(meta_scan(ls.drop_last()), ls.last())
    }
}

/// The application name and mode declared under the top-level `app:` key of a
/// DSL document; the last declaration of each wins.
pub open spec fn dsl_metadata(yaml: Seq<char>) -> (Option<Seq<char>>, Option<Seq<char>>) {
    let st = meta_scan(lines(yaml));
    (st.name, st.mode)
}

/// Reads the application name and mode from the `app:` block of a DSL
/// document, line by line, without parsing the YAML.
pub fn parse_dsl_metadata(yaml: &str) -> (res: (Option<String>, Option<String>))
    ensures
        (opt_view(res.0), opt_view(res.1)) == dsl_metadata(yaml@),
{
    let text = chars_of(yaml);
    let ls = chars_lines(&text);
    let app_key = chars_of("app:");
    let name_key = chars_of("name:");
    let mode_key = chars_of("mode:");
    let mut name: Option<Vec<char>> = None;
    let mut mode: Option<Vec<char>> = None;
    let mut in_app = false;
    let mut i: usize = 0;
    while i < ls.len()
        invariant
            i <= ls.len(),
            views(ls@) == lines(yaml@),
            app_key@ == "app:"@,
            name_key@ == "name:"@,
            mode_key@ == "mode:"@,
            meta_scan(views(ls@).take(i as int)) == (MetaScan {
                name: match name {
                    Some(v) => Some(v@),
                    None => None,
                },
                mode: match mode {
                    Some(v) => Some(v@),
                    None => None,
                },
                in_app: in_app,
            }),
        decreases ls.len() - i,
    {
        let line = &ls[i];
        assert(views(ls@).take(i + 1).drop_last() =~= views(ls@).take(i as int));
        assert(views(ls@)[i as int] == line@);
        let t = chars_trim(line);
        if t.len() == 0 || t[0] == '#' {
        } else if !char_is_ws(line[0]) {
            in_app = chars_starts_with(&t, &app_key);
        } else if in_app && chars_starts_with(&t, &name_key) {
            let rest = slice_chars(&t, name_key.len(), t.len());
            let v = chars_trim(&rest);
            name = Some(chars_trim_quotes(&v));
        } else if in_app && chars_starts_with(&t, &mode_key) {
            let rest = slice_chars(&t, mode_key.len(), t.len());
            let v = chars_trim(&rest);
            mode = Some(chars_trim_quotes(&v));
        }
        proof {
            lemma_trim_nonempty_line(line@);
        }
        i = i + 1;
    }
    assert(views(ls@).take(ls.len() as int) =~= views(ls@));
    let res_name = match name {
        Some(v) => Some(string_of(&v)),
        None => None,
    };
    let res_mode = match mode {
        Some(v) => Some(string_of(&v)),
        None => None,
    };
    (res_name, res_mode)
}

/// A line whose trimmed form is not empty is not empty itself.
proof fn lemma_trim_nonempty_line(line: Seq<char>)
    ensures
        trim(line).len() > 0 ==> line.len() > 0,
{
    lemma_trim_start_len(line);
    lemma_trim_end_len(trim_start(line));
}

proof fn lemma_trim_start_len(s: Seq<char>)
    ensures
        trim_start(s).len() <= s.len(),
    decreases s.len(),
{
    if s.len() > 0 && is_ws(s[0]) {
        lemma_trim_start_len(s.drop_first());
    }
}

proof fn lemma_trim_end_len(s: Seq<char>)
    ensures
        trim_end(s).len() <= s.len(),
    decreases s.len(),
{
    if s.len() > 0 && is_ws(s.last()) {
        lemma_trim_end_len(s.drop_last());
    }
}

} // verus!
