//! The local manifest of the cache folder, ahead of a hosted manifest sync.

use vstd::prelude::*;
use crate::errors::AppError;
use crate::game_files::j;
use crate::layout::GameFilesLayout;
use crate::paths::join_path;
use crate::text::{chars_of, concat_chars, decimal_chars, decimal_chars_exec, string_from_chars};

verus! {

/// One file recorded in the local manifest.
#[derive(Debug, Clone, PartialEq, Eq)]
pub struct LocalManifestFileEntry {
    pub path: String,
    pub sha256: Option<String>,
}

/// The local manifest.
#[derive(Debug, Clone, PartialEq, Eq)]
pub struct LocalManifest {
    pub schema_version: u32,
    pub installed_at: String,
    pub files: Vec<LocalManifestFileEntry>,
}

/// The outcome of an update check.
#[derive(Debug, Clone, Copy, PartialEq, Eq)]
pub enum SyncStatus {
    NotConfigured,
    UpToDate,
}

/// `{root}/manifest.local.json`.
pub fn local_manifest_path(layout: &GameFilesLayout) -> (r: String)
    ensures
        r@ == j(layout.root@, "manifest.local.json"@),
{
    join_path(layout.root.as_str(), "manifest.local.json")
}

/// `unix:{secs}`.
pub fn unix_timestamp_text(secs: u64) -> (r: String)
    ensures
        r@ == "unix:"@ + decimal_chars(secs as nat),
{
    let a = chars_of("unix:");
    let b = decimal_chars_exec(secs);
    let c = concat_chars(a.as_slice(), b.as_slice());
    string_from_chars(c.as_slice())
}

/// The manifest written when none exists: schema 1, installed at the given
/// time, no files.
pub fn placeholder_manifest(secs: u64) -> (r: LocalManifest)
    ensures
        r.schema_version == 1,
        r.installed_at@ == "unix:"@ + decimal_chars(secs as nat),
        r.files@.len() == 0,
{
    LocalManifest { schema_version: 1, installed_at: unix_timestamp_text(secs), files: Vec::new() }
}

/// The update check: once the local manifest is in place there is nothing
/// hosted to compare against yet, so the status is `NotConfigured`; a failure
/// to put the manifest in place is passed on.
pub fn check_for_updates(placeholder: Result<(), AppError>) -> (r: Result<SyncStatus, AppError>)
    ensures
        match placeholder {
            Ok(()) => r == Ok::<SyncStatus, AppError>(SyncStatus::NotConfigured),
            Err(e) => r == Err::<SyncStatus, AppError>(e),
        },
{
    match placeholder {
        Ok(()) => Ok(SyncStatus::NotConfigured),
        Err(e) => Err(e),
    }
}

} // verus!
