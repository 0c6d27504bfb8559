use vstd::prelude::*;

verus! {

/// The kind of a game version in a version list.
#[derive(Clone, Copy, Debug, PartialEq, Eq, Structural)]
pub enum VersionType {
    Snapshot,
    Release,
    OldBeta,
    OldAlpha,
}

/// Why a version field could not be read.
#[derive(Clone, Debug, PartialEq, Eq)]
pub enum VersionError {
    /// The text names no known version type.
    UnknownVersionType(String),
}

/// The version type that `s` names, if any.
pub open spec fn version_type_named(s: Seq<char>) -> Option<VersionType> {
    if s == "snapshot"@ {
        Some(VersionType::Snapshot)
    } else if s == "release"@ {
        Some(VersionType::Release)
    } else if s == "old_beta"@ {
        Some(VersionType::OldBeta)
    } else if s == "old_alpha"@ {
        Some(VersionType::OldAlpha)
    } else {
        None
    }
}

fn same_text(a: &str, b: &str) -> (r: bool)
    ensures
        r == (a@ == b@),
{
    a.to_owned() == b.to_owned()
}

impl VersionType {
    /// Reads a version type from its name in a version list.
    pub fn try_from(value: &str) -> (r: Result<VersionType, VersionError>)
        ensures
            match version_type_named(value@) {
                Some(t) => r == Ok::<VersionType, VersionError>(t),
                None => r matches Err(VersionError::UnknownVersionType(s)) && s@ == value@,
            },
    {
        if same_text(value, "snapshot") {
            Ok(VersionType::Snapshot)
        } else if same_text(value, "release") {
            Ok(VersionType::Release)
        } else if same_text(value, "old_beta") {
            Ok(VersionType::OldBeta)
        } else if same_text(value, "old_alpha") {
            Ok(VersionType::OldAlpha)
        } else {
            Err(VersionError::UnknownVersionType(value.to_owned()))
        }
    }
}

/// A game version's identifier, such as `1.19.3`.
#[derive(Clone, Debug, PartialEq, Eq)]
pub struct VersionId(pub String);

impl VersionId {
    pub fn from(value: &str) -> (r: VersionId)
        ensures
            r.0@ == value@,
    {
        VersionId(value.to_owned())
    }
}

/// The newest release and the newest snapshot of a version list.
#[derive(Clone, Debug, PartialEq, Eq)]
pub struct LatestVersions {
    pub release: VersionId,
    pub snapshot: VersionId,
}

} // verus!
