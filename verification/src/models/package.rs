//! The package records of the installer.
use vstd::prelude::*;

verus! {

/// Metadata read from a .deb file's control fields (not persisted).
#[derive(Debug, Clone, PartialEq, Eq)]
pub struct DebInfo {
    pub name: String,
    pub version: String,
    pub architecture: String,
    pub description: String,
    pub installed_size_kb: u64,
    pub depends: Vec<String>,
    pub maintainer: String,
    pub section: Option<String>,
}

/// A record of a package installed through the installer (persisted).
/// The install time is a UTC instant: seconds since the Unix epoch and the
/// nanoseconds within that second.
#[derive(Debug, Clone, PartialEq, Eq)]
pub struct InstalledPackage {
    pub name: String,
    pub version: String,
    pub architecture: String,
    pub description: String,
    pub install_date_secs: i64,
    pub install_date_nanos: u32,
    pub source_file: Option<String>,
}

/// The characters of each string in a sequence.
pub open spec fn string_views(v: Seq<String>) -> Seq<Seq<char>> {
    v.map_values(|s: String| s@)
}

/// The characters of an optional string.
pub open spec fn opt_view(o: Option<String>) -> Option<Seq<char>> {
    match o {
        Some(s) => Some(s@),
        None => None,
    }
}

} // verus!
