//! The application error returned across the command boundary.

use vstd::prelude::*;

use crate::codes::Code;

verus! {

/// Why a workspace path was refused.
#[derive(Debug, Clone, Copy, PartialEq, Eq, Structural)]
pub enum WorkspaceProblem {
    /// The path contains characters Windows paths cannot hold.
    UnsupportedCharacters,
    /// The path is not an absolute local Windows path.
    NotAbsolute,
    /// Network, device and verbatim paths are not supported.
    NotLocalPrefix,
    /// The path contains `.` or `..` components.
    Traversal,
    /// A component names an alternate data stream.
    AlternateDataStream,
    /// A component is a reserved Windows name or ends in a dot or space.
    ReservedName,
    /// The path is not on a local drive.
    NotOnLocalDrive,
    /// A drive root cannot be a workspace.
    DriveRoot,
    /// The canonical path is not valid Unicode.
    NotUnicode,
    /// The folder does not exist.
    Missing,
    /// The path names something other than a folder.
    NotDirectory,
    /// The path passes through a link or reparse point.
    LinkOrReparsePoint,
    /// The metadata of a path component could not be read.
    MetadataUnavailable,
    /// The folder could not be resolved to its canonical path.
    Unresolvable,
    /// The drive is not a fixed local drive.
    NotFixedDrive,
    /// Workspaces are supported only on Windows.
    UnsupportedPlatform,
    /// Only the default workspace leaf may be created automatically.
    NotDefaultLeaf,
}

/// Stable machine-readable error codes.
#[derive(Debug, Clone, Copy, PartialEq, Eq, Structural)]
pub enum AppErrorCode {
    CommandNotAuthorized,
    WorkspaceInvalid(WorkspaceProblem),
    SettingsRevisionExhausted,
    SettingsRevisionConflict,
    SettingsUnavailable,
    WorkspaceUnwritable,
    Credential(Code),
    OpenRouter(Code),
}

/// An error reported to the frontend: a fixed code and whether a retry may help.
#[derive(Debug, Clone, Copy, PartialEq, Eq, Structural)]
pub struct AppError {
    pub code: AppErrorCode,
    pub retryable: bool,
}

impl AppError {
    pub open spec fn command_not_authorized_spec() -> AppError {
        AppError { code: AppErrorCode::CommandNotAuthorized, retryable: false }
    }

    /// The window that sent the command may not invoke it.
    pub fn command_not_authorized() -> (r: AppError)
        ensures
            r == Self::command_not_authorized_spec(),
    {
        AppError { code: AppErrorCode::CommandNotAuthorized, retryable: false }
    }

    pub open spec fn workspace_invalid_spec(problem: WorkspaceProblem) -> AppError {
        AppError { code: AppErrorCode::WorkspaceInvalid(problem), retryable: false }
    }

    /// The workspace path was refused for `problem`.
    pub fn workspace_invalid(problem: WorkspaceProblem) -> (r: AppError)
        ensures
            r == Self::workspace_invalid_spec(problem),
    {
        AppError { code: AppErrorCode::WorkspaceInvalid(problem), retryable: false }
    }

    pub open spec fn settings_revision_exhausted_spec() -> AppError {
        AppError { code: AppErrorCode::SettingsRevisionExhausted, retryable: false }
    }

    /// The settings revision counter cannot advance any further.
    pub fn settings_revision_exhausted() -> (r: AppError)
        ensures
            r == Self::settings_revision_exhausted_spec(),
    {
        AppError { code: AppErrorCode::SettingsRevisionExhausted, retryable: false }
    }

    pub open spec fn settings_revision_conflict_spec() -> AppError {
        AppError { code: AppErrorCode::SettingsRevisionConflict, retryable: false }
    }

    /// The settings changed since the caller read them.
    pub fn settings_revision_conflict() -> (r: AppError)
        ensures
            r == Self::settings_revision_conflict_spec(),
    {
        AppError { code: AppErrorCode::SettingsRevisionConflict, retryable: false }
    }

    pub open spec fn settings_unavailable_spec() -> AppError {
        AppError { code: AppErrorCode::SettingsUnavailable, retryable: true }
    }

    pub open spec fn workspace_unwritable_spec() -> AppError {
        AppError { code: AppErrorCode::WorkspaceUnwritable, retryable: false }
    }

    /// The workspace folder cannot be written to.
    pub fn workspace_unwritable() -> (r: AppError)
        ensures
            r == Self::workspace_unwritable_spec(),
    {
        AppError { code: AppErrorCode::WorkspaceUnwritable, retryable: false }
    }

    pub open spec fn credential_error_spec(code: Code) -> AppError {
        AppError { code: AppErrorCode::Credential(code), retryable: false }
    }

    /// The stored credential could not be used, for `code`.
    pub fn credential_error(code: Code) -> (r: AppError)
        ensures
            r == Self::credential_error_spec(code),
    {
        AppError { code: AppErrorCode::Credential(code), retryable: false }
    }

    pub open spec fn openrouter_error_spec(code: Code) -> AppError {
        AppError { code: AppErrorCode::OpenRouter(code), retryable: false }
    }

    /// A model request cannot be made, for `code`.
    pub fn openrouter_error(code: Code) -> (r: AppError)
        ensures
            r == Self::openrouter_error_spec(code),
    {
        AppError { code: AppErrorCode::OpenRouter(code), retryable: false }
    }

    /// The local settings could not be read or written.
    pub fn settings_unavailable() -> (r: AppError)
        ensures
            r == Self::settings_unavailable_spec(),
    {
        AppError { code: AppErrorCode::SettingsUnavailable, retryable: true }
    }
}

} // verus!
