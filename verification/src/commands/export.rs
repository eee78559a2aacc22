//! The decisions of an export: which modes, whether to go on, and how the
//! environment's mapping follows the exported files.

use vstd::prelude::*;

use crate::dsl::{get_mode_folder, mode_folder};
use crate::strmap::StrMap;
use crate::text::{
    append_chars, chars_eq, chars_join, chars_of, chars_split, chars_trim, join, owned,
    starts_with, string_of, string_views, split_char, trim, views,
};

verus! {

/// The application modes there are.
pub open spec fn available_modes() -> Seq<Seq<char>> {
    seq!["workflow"@, "advanced-chat"@, "chat"@, "agent-chat"@, "completion"@]
}

/// Whether a modes argument asks for all modes: it is `all` in any case.
pub open spec fn means_all(s: Seq<char>) -> bool {
    &&& s.len() == 3
    &&& (s[0] == 'a' || s[0] == 'A')
    &&& (s[1] == 'l' || s[1] == 'L')
    &&& (s[2] == 'l' || s[2] == 'L')
}

/// The modes a modes argument names: its comma-separated parts, trimmed.
pub open spec fn requested_modes(s: Seq<char>) -> Seq<Seq<char>> {
    split_char(s, ',').map_values(|p: Seq<char>| trim(p))
}

/// The named modes that do not exist, in order.
pub open spec fn unknown_modes(ms: Seq<Seq<char>>) -> Seq<Seq<char>>
    decreases ms.len(),
{
    if ms.len() == 0 {
        Seq::<Seq<char>>::empty()
    } else {
        let prev = unknown_modes(ms.drop_last());
        if available_modes().contains(ms.last()) {
            prev
        } else {
            prev.push(ms.last())
        }
    }
}

/// The modes to export for a modes argument, or the error that names the
/// unknown ones.
pub open spec fn modes_to_export(s: Seq<char>) -> Result<Seq<Seq<char>>, Seq<char>> {
    if means_all(s) {
        Ok(available_modes())
    } else {
        let ms = requested_modes(s);
        let bad = unknown_modes(ms);
        if bad.len() > 0 {
            Err(
                "Invalid app modes: "@ + join(bad, ", "@) + ". Available: "@ + join(
                    available_modes(),
                    ", "@,
                ),
            )
        } else {
            Ok(ms)
        }
    }
}

/// The modes there are, in order.
pub fn all_modes() -> (res: Vec<String>)
    ensures
        string_views(res@) == available_modes(),
{
    let mut v: Vec<String> = Vec::new();
    v.push(owned("workflow"));
    v.push(owned("advanced-chat"));
    v.push(owned("chat"));
    v.push(owned("agent-chat"));
    v.push(owned("completion"));
    assert(string_views(v@) =~= available_modes());
    v
}

fn is_available(m: &Vec<char>, all: &Vec<String>) -> (res: bool)
    requires
        string_views(all@) == available_modes(),
    ensures
        res == available_modes().contains(m@),
{
    let mut i: usize = 0;
    while i < all.len()
        invariant
            i <= all.len(),
            string_views(all@) == available_modes(),
            forall|j: int| 0 <= j < i ==> available_modes()[j] != m@,
        decreases all.len() - i,
    {
        let a = chars_of(all[i].as_str());
        assert(available_modes()[i as int] == a@);
        if chars_eq(&a, m) {
            return true;
        }
        i = i + 1;
    }
    false
}

/// The modes that a modes argument asks to export: `all` (in any case) for
/// every mode, or a comma-separated list of modes, each trimmed; a list that
/// names a mode that does not exist is refused with the unknown modes and
/// the available ones.
pub fn parse_modes(modes: &str) -> (res: Result<Vec<String>, String>)
    ensures
        match res {
            Ok(v) => modes_to_export(modes@) == Ok::<Seq<Seq<char>>, Seq<char>>(string_views(v@)),
            Err(e) => modes_to_export(modes@) == Err::<Seq<Seq<char>>, Seq<char>>(e@),
        },
{
    let s = chars_of(modes);
    let all = all_modes();
    if s.len() == 3 && (s[0] == 'a' || s[0] == 'A') && (s[1] == 'l' || s[1] == 'L') && (s[2] == 'l'
        || s[2] == 'L') {
        return Ok(all);
    }
    let parts = chars_split(&s, ',');
    let ghost ms = requested_modes(modes@);
    let mut names: Vec<String> = Vec::new();
    let mut bad: Vec<Vec<char>> = Vec::new();
    let mut i: usize = 0;
    while i < parts.len()
        invariant
            i <= parts.len(),
            views(parts@) == split_char(modes@, ','),
            ms == requested_modes(modes@),
            string_views(all@) == available_modes(),
            string_views(names@) == ms.take(i as int),
            names.len() == i,
            views(bad@) == unknown_modes(ms.take(i as int)),
        decreases parts.len() - i,
    {
        let m = chars_trim(&parts[i]);
        assert(views(parts@)[i as int] == parts@[i as int]@);
        assert(ms[i as int] == m@);
        assert(ms.take(i + 1).drop_last() =~= ms.take(i as int));
        if !is_available(&m, &all) {
            bad.push(slice_all(&m));
            assert(views(bad@) =~= unknown_modes(ms.take(i + 1)));
        }
        names.push(string_of(&m));
        assert(string_views(names@) =~= ms.take(i + 1));
        i = i + 1;
    }
    assert(ms.take(parts.len() as int) =~= ms);
    if bad.len() > 0 {
        let mut msg = chars_of("Invalid app modes: ");
        let sep = chars_of(", ");
        append_chars(&mut msg, &chars_join(&bad, &sep));
        append_chars(&mut msg, &chars_of(". Available: "));
        let mut avail: Vec<Vec<char>> = Vec::new();
        let mut k: usize = 0;
        while k < all.len()
            invariant
                k <= all.len(),
                string_views(all@) == available_modes(),
                views(avail@) == available_modes().take(k as int),
                avail.len() == k,
            decreases all.len() - k,
        {
            let ghost before = avail@;
            assert(string_views(all@)[k as int] == all@[k as int]@);
            avail.push(chars_of(all[k].as_str()));
            assert forall|j: int| 0 <= j < k implies avail@[j] == before[j] by {}
            assert(views(avail@) =~= available_modes().take(k + 1));
            k = k + 1;
        }
        assert(available_modes().take(all.len() as int) =~= available_modes());
        append_chars(&mut msg, &chars_join(&avail, &sep));
        return Err(string_of(&msg));
    }
    Ok(names)
}

fn slice_all(v: &Vec<char>) -> (res: Vec<char>)
    ensures
        res@ == v@,
{
    crate::text::slice_chars(v, 0, v.len())
}

/// Whether an export goes on once the console has listed `app_count`
/// matching applications: it does where there is at least one; with none it
/// stops, without touching local files, as a failure where a tag was asked
/// for (the tag may be misspelt) and quietly otherwise.
pub fn export_safety_check(app_count: usize, tag: Option<&str>) -> (res: Result<bool, String>)
    ensures
        app_count > 0 ==> res == Ok::<bool, String>(true),
        app_count == 0 && tag is None ==> res == Ok::<bool, String>(false),
        app_count == 0 && tag is Some ==> (res matches Err(e) && e@
            == "Safety check failed, aborted export."@),
{
    if app_count > 0 {
        Ok(true)
    } else if tag.is_some() {
        Err(owned("Safety check failed, aborted export."))
    } else {
        Ok(false)
    }
}

/// The mapping keys of a mode's folder begin with this: the folder and `/`.
pub open spec fn folder_prefix(mode: Seq<char>) -> Seq<char> {
    mode_folder(mode) + "/"@
}

/// Drops from an environment's mapping every file of a mode's folder, as the
/// folder is emptied before the export writes it anew; files of other
/// folders keep their ids.
pub fn clear_mode_folder(env_map: &mut StrMap<String>, mode: &str)
    requires
        old(env_map).wf(),
    ensures
        final(env_map).wf(),
        final(env_map)@ == old(env_map)@.restrict(
            old(env_map)@.dom().filter(|k: Seq<char>| !starts_with(k, folder_prefix(mode@))),
        ),
{
    let mut p = chars_of(get_mode_folder(mode));
    append_chars(&mut p, &chars_of("/"));
    let prefix = string_of(&p);
    env_map.remove_prefixed(prefix.as_str());
}

/// After a mode's folder is cleared, no file of that folder is left in the
/// mapping, and every other file keeps its id.
pub proof fn law_cleared_folder_has_no_files(
    before: Map<Seq<char>, Seq<char>>,
    mode: Seq<char>,
    key: Seq<char>,
)
    ensures
        ({
            let after = before.restrict(
                before.dom().filter(|k: Seq<char>| !starts_with(k, folder_prefix(mode))),
            );
            &&& starts_with(key, folder_prefix(mode)) ==> !after.contains_key(key)
            &&& !starts_with(key, folder_prefix(mode)) ==> (after.contains_key(key)
                == before.contains_key(key) && (before.contains_key(key) ==> after[key]
                == before[key]))
        }),
{
}

/// With no unknown mode among them, every named mode exists.
proof fn lemma_no_unknown_all_available(ms: Seq<Seq<char>>)
    requires
        unknown_modes(ms).len() == 0,
    ensures
        forall|i: int| 0 <= i < ms.len() ==> available_modes().contains(#[trigger] ms[i]),
    decreases ms.len(),
{
    if ms.len() > 0 {
        let prev = unknown_modes(ms.drop_last());
        if !available_modes().contains(ms.last()) {
            assert(unknown_modes(ms).len() == prev.len() + 1);
        }
        lemma_no_unknown_all_available(ms.drop_last());
        assert forall|i: int| 0 <= i < ms.len() implies available_modes().contains(#[trigger] ms[i]) by {
            if i < ms.len() - 1 {
                assert(ms[i] == ms.drop_last()[i]);
            }
        }
    }
}

/// An export only ever asks for modes that exist.
pub proof fn law_exported_modes_exist(modes: Seq<char>)
    ensures
        modes_to_export(modes) matches Ok(ms) ==> forall|i: int|
            0 <= i < ms.len() ==> available_modes().contains(#[trigger] ms[i]),
{
    if !means_all(modes) {
        let ms = requested_modes(modes);
        if unknown_modes(ms).len() == 0 {
            lemma_no_unknown_all_available(ms);
        }
    } else {
        assert forall|i: int| 0 <= i < available_modes().len() implies available_modes().contains(
            #[trigger] available_modes()[i],
        ) by {}
    }
}

} // verus!
