//! The decisions of an import: what is imported where, how the mapping
//! follows, and how a batch ends.

use vstd::prelude::*;

use crate::dify_api::ImportResult;
use crate::dsl::{dsl_metadata, parse_dsl_metadata};
use crate::strmap::StrMap;
use crate::text::{opt_view, owned, str_eq};

verus! {

/// What an import reads: one DSL file, or a directory of them.
pub enum ImportSource {
    File(String),
    Dir(String),
}

/// The source of an import: exactly one of a file and a directory is given.
pub fn select_import_source(file: Option<String>, dir: Option<String>) -> (res: Result<
    ImportSource,
    String,
>)
    ensures
        file is None && dir is None ==> (res matches Err(e) && e@
            == "At least one of -f/--file or -d/--dir must be specified."@),
        file is Some && dir is Some ==> (res matches Err(e) && e@
            == "Only one of -f/--file or -d/--dir can be specified."@),
        file is Some && dir is None ==> (res matches Ok(ImportSource::File(f)) && Some(f) == file),
        file is None && dir is Some ==> (res matches Ok(ImportSource::Dir(d)) && Some(d) == dir),
{
    match (file, dir) {
        (None, None) => Err(owned("At least one of -f/--file or -d/--dir must be specified.")),
        (Some(_), Some(_)) => Err(owned("Only one of -f/--file or -d/--dir can be specified.")),
        (Some(f), None) => Ok(ImportSource::File(f)),
        (None, Some(d)) => Ok(ImportSource::Dir(d)),
    }
}

/// What becomes of one file of a batch import.
pub enum ImportTarget {
    /// Not imported: the mapping file exists and names no application for it.
    Skip,
    /// Imported over the application the mapping names.
    Existing(String),
    /// Imported as a new application.
    New,
}

/// What becomes of the file at `rel_path` (relative to the DSL directory) in
/// a batch import: it updates its mapped application; without one, it is
/// imported as a new application only where there was no mapping file, so
/// that an environment never gets applications it was not meant to have.
pub fn plan_import(apps: &StrMap<String>, rel_path: &str, map_file_exists: bool) -> (res: ImportTarget)
    requires
        apps.wf(),
    ensures
        apps@.contains_key(rel_path@) ==> (res matches ImportTarget::Existing(id) && id@
            == apps@[rel_path@]),
        !apps@.contains_key(rel_path@) && map_file_exists ==> res is Skip,
        !apps@.contains_key(rel_path@) && !map_file_exists ==> res is New,
{
    match apps.get(rel_path) {
        Some(id) => ImportTarget::Existing(id.clone()),
        None => {
            if map_file_exists {
                ImportTarget::Skip
            } else {
                ImportTarget::New
            }
        },
    }
}

/// The mapping after a file's import was answered with `res_id`.
pub open spec fn mapping_after_import(
    before: Map<Seq<char>, Seq<char>>,
    rel_path: Seq<char>,
    target: Option<Seq<char>>,
    res_id: Seq<char>,
) -> Map<Seq<char>, Seq<char>> {
    if target == Some(res_id) {
        before
    } else {
        before.insert(rel_path, res_id)
    }
}

/// Follows an import in the mapping: where the console answered with an
/// application other than the target (a new one, or a changed id), the file
/// is mapped to it. Says whether the mapping changed.
pub fn record_import(
    apps: &mut StrMap<String>,
    rel_path: &str,
    target: Option<&str>,
    res_id: &str,
) -> (changed: bool)
    requires
        old(apps).wf(),
    ensures
        final(apps).wf(),
        changed == (match target {
            Some(t) => t@ != res_id@,
            None => true,
        }),
        final(apps)@ == mapping_after_import(
            old(apps)@,
            rel_path@,
            match target {
                Some(t) => Some(t@),
                None => None,
            },
            res_id@,
        ),
{
    let same = match target {
        Some(t) => str_eq(t, res_id),
        None => false,
    };
    if same {
        false
    } else {
        apps.insert(owned(rel_path), owned(res_id));
        true
    }
}

/// The name, id and mode that an import is reported with.
pub struct ImportSummary {
    pub name: String,
    pub app_id: String,
    pub mode: String,
}

/// The first of two optional texts that is there, or `Unknown`.
pub open spec fn first_known(a: Option<Seq<char>>, b: Option<Seq<char>>) -> Seq<char> {
    match a {
        Some(x) => x,
        None => match b {
            Some(y) => y,
            None => "Unknown"@,
        },
    }
}

fn first_known_exec(a: &Option<String>, b: Option<String>) -> (res: String)
    ensures
        res@ == first_known(opt_view(*a), opt_view(b)),
{
    match a {
        Some(x) => x.clone(),
        None => match b {
            Some(y) => y,
            None => owned("Unknown"),
        },
    }
}

/// The name, id and mode of an import: the console's answer where it has
/// them, else the name and mode declared in the imported DSL (the id falls
/// back to the answer's `id`), else `Unknown`.
pub fn summarize_import(result: &ImportResult, yaml_content: &str) -> (res: ImportSummary)
    ensures
        res.name@ == first_known(opt_view(result.name), dsl_metadata(yaml_content@).0),
        res.app_id@ == first_known(opt_view(result.app_id), opt_view(result.id)),
        res.mode@ == first_known(opt_view(result.mode), dsl_metadata(yaml_content@).1),
{
    let (fallback_name, fallback_mode) = parse_dsl_metadata(yaml_content);
    let id = match &result.id {
        Some(i) => Some(i.clone()),
        None => None,
    };
    ImportSummary {
        name: first_known_exec(&result.name, fallback_name),
        app_id: first_known_exec(&result.app_id, id),
        mode: first_known_exec(&result.mode, fallback_mode),
    }
}

/// How a batch import ends: whether the mapping file is written (only where
/// there was none before, so that an existing one is never modified), and
/// the outcome, a failure unless every file was imported.
pub fn finish_batch(success_count: usize, file_count: usize, map_file_existed: bool) -> (res: (
    bool,
    Result<(), String>,
))
    ensures
        res.0 == !map_file_existed,
        success_count == file_count ==> res.1 is Ok,
        success_count != file_count ==> (res.1 matches Err(e) && e@
            == "Some files failed to import."@),
{
    let outcome = if success_count != file_count {
        Err(owned("Some files failed to import."))
    } else {
        Ok(())
    };
    (!map_file_existed, outcome)
}

/// Recording an import touches only the imported file's entry: every other
/// file keeps its mapping (present or absent, with the same id), and the file
/// itself is mapped to the application the console answered with; where that
/// is the target it already had, the mapping is left as it was.
pub proof fn law_record_import_touches_only_its_file(
    before: Map<Seq<char>, Seq<char>>,
    rel_path: Seq<char>,
    target: Option<Seq<char>>,
    res_id: Seq<char>,
    k: Seq<char>,
)
    ensures
        ({
            let after = mapping_after_import(before, rel_path, target, res_id);
            &&& k != rel_path ==> (after.contains_key(k) == before.contains_key(k) && (
            before.contains_key(k) ==> after[k] == before[k]))
            &&& target != Some(res_id) ==> (after.contains_key(rel_path) && after[rel_path]
                == res_id)
            &&& target == Some(res_id) ==> after == before
        }),
{
}

/// Once an import that went to the file's mapped application (or to a new
/// one) is recorded, the mapping names the application the console answered
/// with, so that the next import of the file updates it.
pub proof fn law_recorded_import_is_target(
    before: Map<Seq<char>, Seq<char>>,
    rel_path: Seq<char>,
    target: Option<Seq<char>>,
    res_id: Seq<char>,
)
    requires
        target matches Some(t) ==> before.contains_key(rel_path) && before[rel_path] == t,
    ensures
        mapping_after_import(before, rel_path, target, res_id).contains_key(rel_path),
        mapping_after_import(before, rel_path, target, res_id)[rel_path] == res_id,
{
}

} // verus!
