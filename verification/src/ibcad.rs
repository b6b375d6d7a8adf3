//! The rules of the `.ibcad` project file: which format versions are read, and which
//! projects may be written or accepted after reading.

use vstd::prelude::*;

use crate::project::Project;
use crate::validate::{rotations_checkable, validation_error};

verus! {

/// The format version that is written.
pub const FORMAT_VERSION: u32 = 2;

/// The earlier format version that is still read, by migration.
pub const LEGACY_FORMAT_VERSION: u32 = 1;

/// How a stored project is to be read.
#[derive(Clone, Copy, Debug, PartialEq, Eq, Structural)]
pub enum StoredFormat {
    /// The current schema.
    Current,
    /// The first schema, migrated while reading.
    Legacy,
}

/// Why a project file is refused.
#[derive(Clone, Copy, Debug, PartialEq, Eq, Structural)]
pub enum FormatError {
    /// The file declares a format version that is not read.
    UnsupportedVersion(u32),
    /// The project breaks a rule of the domain.
    InvalidProject,
}

/// The current version is read as is, the first one by migration; every other version is
/// refused without guessing.
pub open spec fn format_of(version: u32) -> Result<StoredFormat, FormatError> {
    if version == FORMAT_VERSION {
        Ok(StoredFormat::Current)
    } else if version == LEGACY_FORMAT_VERSION {
        Ok(StoredFormat::Legacy)
    } else {
        Err(FormatError::UnsupportedVersion(version))
    }
}

/// How a file of the given format version is read.
pub fn stored_format(version: u32) -> (r: Result<StoredFormat, FormatError>)
    ensures
        r == format_of(version),
{
    if version == FORMAT_VERSION {
        Ok(StoredFormat::Current)
    } else if version == LEGACY_FORMAT_VERSION {
        Ok(StoredFormat::Legacy)
    } else {
        Err(FormatError::UnsupportedVersion(version))
    }
}

/// A project that may be written, or accepted after reading: every rotation can be checked,
/// and the project passes the domain's validation.
pub open spec fn storable(p: Project) -> bool {
    rotations_checkable(p) && validation_error(p) is None
}

/// Checks a project before it is written and after it is read.
pub fn check_storable(project: &Project) -> (r: Result<(), FormatError>)
    ensures
        r == if storable(*project) {
            Ok::<(), FormatError>(())
        } else {
            Err(FormatError::InvalidProject)
        },
{
    if !project.rotations_in_range() {
        return Err(FormatError::InvalidProject);
    }
    match project.validate() {
        Ok(()) => Ok(()),
        Err(_) => Err(FormatError::InvalidProject),
    }
}

} // verus!
