pub mod classify;
pub mod confirm;
pub mod engine;
pub mod manifest;
pub mod paths;
pub mod pkginfo;
pub mod sysinfo;
pub mod text;

use vstd::prelude::*;

verus! {

/// Fatal failure classes of an install or uninstall operation.
#[derive(Clone, Copy, PartialEq, Eq, Structural, Debug)]
pub enum InstallError {
    /// The chosen prefix requires elevated privilege and the process has none.
    PermissionPolicy,
    /// The user declined the confirmation prompt.
    UserCancelled,
    /// The package metadata file is missing or unreadable.
    MetadataUnreadable,
    /// No manifest is recorded for the package being uninstalled.
    ManifestNotFound,
    /// A filesystem operation failed.
    IoFailure,
}

} // verus!
