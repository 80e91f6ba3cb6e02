//! The cache of the application index: when it counts as fresh, how the
//! index is written into it and read back, and where its file lies.
//!
//! The file holds a JSON array with one row per application: name, command,
//! icon name, icon file. Reading and writing the file is left to the caller;
//! this module turns records into the text of the file and back.

use vstd::prelude::*;
use crate::state::{records_of, ApplicationInfo, ApplicationRecord};
use crate::text::{join_path, joined, texts};

verus! {

/// The age in seconds up to which a cache file is used.
pub const CACHE_TTL_SECS: u64 = 3600;

/// A cache written at `modified_at` is fresh at `now` while its age is no
/// more than the freshness window.
pub open spec fn is_fresh(modified_at: u64, now: u64) -> bool {
    now - modified_at <= CACHE_TTL_SECS
}

/// Where the cache file lies below the user's cache directory.
pub open spec fn cache_file_path(cache_dir: Seq<char>) -> Seq<char> {
    joined(joined(cache_dir, "nlauncher"@), "app_ids.json"@)
}

/// The rows that a JSON text holds when it is an array of rows of the form
/// `[name, command, icon name or null, icon file or null]`; `None` for any
/// other text.
pub uninterp spec fn json_rows(text: Seq<char>) -> Option<Seq<ApplicationRecord>>;

/// The indented JSON text for a list of rows.
pub uninterp spec fn json_text(rows: Seq<ApplicationRecord>) -> Seq<char>;

/// The contents of an optional list of records.
pub open spec fn optional_records(rows: Option<Vec<ApplicationInfo>>) -> Option<
    Seq<ApplicationRecord>,
> {
    match rows {
        Some(list) => Some(records_of(list@)),
        None => None,
    }
}

/// `serde_json::from_str` at the type of a list of rows. The parser reads
/// nothing but the text, so the rows that come out, or the refusal, are a
/// function of the text.
#[verifier::external_body]
fn parse_rows(text: &str) -> (rows: Option<Vec<ApplicationInfo>>)
    ensures
        optional_records(rows) == json_rows(text@),
{
    let rows: Vec<(String, String, Option<String>, Option<String>)> = serde_json::from_str(
        text,
    ).ok()?;
    Some(
        rows.into_iter().map(
            |(name, exec_command, icon_ref, icon_resolved_path)|
                ApplicationInfo { name, exec_command, icon_ref, icon_resolved_path },
        ).collect(),
    )
}

/// `serde_json::to_string_pretty` on a list of rows. It fails only where a
/// value refuses to be written or a map has a key that is no string; rows
/// of strings and optional strings do neither, so a text always comes out,
/// and the text is a function of the rows.
#[verifier::external_body]
fn print_rows(records: &Vec<ApplicationInfo>) -> (text: Option<String>)
    ensures
        text is Some,
        text->0@ == json_text(records_of(records@)),
{
    let rows: Vec<(&String, &String, &Option<String>, &Option<String>)> = records.iter().map(
        |r| (&r.name, &r.exec_command, &r.icon_ref, &r.icon_resolved_path),
    ).collect();
    serde_json::to_string_pretty(&rows).ok()
}

/// Why the index could not be written to the cache.
#[derive(Clone, Copy, Debug, PartialEq, Eq)]
pub enum CacheError {
    /// The records could not be turned into text.
    Unserializable,
}

/// Whether a cache file last written at `modified_at` can be used at `now`.
/// Both are in seconds since the epoch.
pub fn cache_is_fresh(modified_at: u64, now: u64) -> (fresh: bool)
    ensures
        fresh == is_fresh(modified_at, now),
{
    now <= modified_at || now - modified_at <= CACHE_TTL_SECS
}

/// The rows that the cache holds, if the cache can be used: its file was
/// there, was last written no longer ago than the freshness window, and
/// holds a list of rows. A file that is older counts as not there, whatever
/// it holds.
pub fn load_from_cache(file: Option<&str>, modified_at: u64, now: u64) -> (rows: Option<
    Vec<ApplicationInfo>,
>)
    ensures
        optional_records(rows) == if file is Some && is_fresh(modified_at, now) {
            json_rows(file->0@)
        } else {
            None
        },
{
    if !cache_is_fresh(modified_at, now) {
        return None;
    }
    match file {
        Some(text) => parse_rows(text),
        None => None,
    }
}

/// The text to write into the cache file for `records`. Every list of
/// records has one.
pub fn save_to_cache(records: &Vec<ApplicationInfo>) -> (text: Result<String, CacheError>)
    ensures
        text is Ok,
        text->Ok_0@ == json_text(records_of(records@)),
{
    match print_rows(records) {
        Some(text) => Ok(text),
        None => Err(CacheError::Unserializable),
    }
}

/// The path of the cache file below the user's cache directory.
pub fn get_cache_file_path(cache_dir: &str) -> (path: String)
    ensures
        path@ == cache_file_path(cache_dir@),
{
    let app_dir = join_path(cache_dir, "nlauncher");
    join_path(app_dir.as_str(), "app_ids.json")
}

/// Whether the command line asks for the cache to be thrown away: one of
/// its arguments is `--refresh`.
pub open spec fn asks_refresh(args: Seq<Seq<char>>) -> bool {
    exists|i: int| 0 <= i < args.len() && #[trigger] args[i] == "--refresh"@
}

/// Whether the cache file has to be deleted before anything is loaded.
/// When this says yes the file goes, whatever its age.
pub fn refresh_requested(args: &Vec<String>) -> (clear: bool)
    ensures
        clear == asks_refresh(texts(args@)),
{
    let flag: String = "--refresh".to_owned();
    let mut i: usize = 0;
    while i < args.len()
        invariant
            i <= args.len(),
            flag@ == "--refresh"@,
            forall|j: int| 0 <= j < i ==> #[trigger] texts(args@)[j] != "--refresh"@,
        decreases args.len() - i,
    {
        if args[i] == flag {
            assert(texts(args@)[i as int] == "--refresh"@);
            return true;
        }
        i += 1;
    }
    false
}

} // verus!
