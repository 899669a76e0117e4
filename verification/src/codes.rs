//! Stable, content-free error codes shared by every store of the library.

use vstd::prelude::*;

verus! {

/// A fixed error code; its wire spelling is the variant name in snake case.
#[derive(Debug, Clone, Copy, PartialEq, Eq, Structural)]
pub enum Code {
    ProjectAlreadyExists,
    ProjectContractInvalid,
    ProjectCreateFaultInjected,
    ProjectDirectoryCreateFailed,
    ProjectDiscoveryFailed,
    ProjectDiscoveryLimitExceeded,
    ProjectDuplicateId,
    ProjectEntryMetadataUnavailable,
    ProjectEntryNameInvalid,
    ProjectEntryNotDirectory,
    ProjectExternalModification,
    ProjectIndexCorrupt,
    ProjectIndexFaultInjected,
    ProjectIndexFutureSchema,
    ProjectIndexGenerationExhausted,
    ProjectIndexInvalid,
    ProjectIndexUnavailable,
    ProjectNotFound,
    ProjectPageInvalid,
    ProjectPageStale,
    ProjectPathIdentityChanged,
    ProjectPathIdentityUnavailable,
    ProjectPathOpenFailed,
    ProjectPathUnsafe,
    ProjectRevisionConflict,
    ProjectRevisionInvalid,
    ProjectSnapshotCleanupFailed,
    ProjectSnapshotIdentityMismatch,
    ProjectSnapshotInvalid,
    ProjectSnapshotMissing,
    ProjectSnapshotPublishFailed,
    ProjectSnapshotReadFailed,
    ProjectSnapshotRecoveryFailed,
    ProjectSnapshotRenderFailed,
    ProjectSnapshotTooLarge,
    ProjectSnapshotVerifyFailed,
    ProjectSnapshotWriteFailed,
    ProjectUpdateFaultInjected,
    ProjectWindowsOnly,
    ProjectWorkspaceInvalid,
    PromptCatalogInvalid,
    PromptContextBudgetExceeded,
    PromptContextBudgetTooSmall,
    PromptContextRecordInvalid,
    PromptContextScopeInvalid,
    PromptContextSerializationFailed,
    PromptModelNotSelected,
    PromptSegmentConflict,
    PromptSegmentsInvalid,
    PromptSelectedSegmentExceedsBudget,
    PromptSelectedSegmentMissing,
    PromptTaskInvalid,
    SessionAlreadyExists,
    SessionAlreadyRunning,
    SessionContractInvalid,
    SessionCreateFaultInjected,
    SessionDirectoryCreateFailed,
    SessionDiscoveryFailed,
    SessionDiscoveryLimitExceeded,
    SessionDuplicateId,
    SessionEntryMetadataUnavailable,
    SessionEntryNameInvalid,
    SessionEntryNotDirectory,
    SessionExternalModification,
    SessionIndexCorrupt,
    SessionIndexFaultInjected,
    SessionIndexFutureSchema,
    SessionIndexGenerationExhausted,
    SessionIndexInvalid,
    SessionIndexUnavailable,
    SessionJournalAppendInvalid,
    SessionJournalCheckpointInvalid,
    SessionJournalChecksumMismatch,
    SessionJournalEventConflict,
    SessionJournalLifecycleConflict,
    SessionJournalLimitExceeded,
    SessionJournalLockFailed,
    SessionJournalMutationInvalid,
    SessionJournalOpenFailed,
    SessionJournalPathUnsafe,
    SessionJournalReadFailed,
    SessionJournalRecordInvalid,
    SessionJournalSegmentConflict,
    SessionJournalSessionMissing,
    SessionJournalSessionUnavailable,
    SessionJournalWindowsOnly,
    SessionJournalWriteFailed,
    SessionLifecycleInvalid,
    SessionLifecycleStateUnavailable,
    SessionNotFound,
    SessionNotRunning,
    SessionPageInvalid,
    SessionPageStale,
    SessionPathIdentityChanged,
    SessionPathIdentityUnavailable,
    SessionPathOpenFailed,
    SessionPathUnsafe,
    SessionProjectIdentityMismatch,
    SessionProjectInvalid,
    SessionProjectNotFound,
    SessionProjectUnavailable,
    SessionProjectionRefreshPending,
    SessionRevisionConflict,
    SessionRevisionInvalid,
    SessionSnapshotCleanupFailed,
    SessionSnapshotIdentityMismatch,
    SessionSnapshotInvalid,
    SessionSnapshotMissing,
    SessionSnapshotPublishFailed,
    SessionSnapshotReadFailed,
    SessionSnapshotRecoveryFailed,
    SessionSnapshotRenderFailed,
    SessionSnapshotTooLarge,
    SessionSnapshotVerifyFailed,
    SessionSnapshotWriteFailed,
    SessionUpdateFaultInjected,
    SessionWorkspaceInvalid,
    SessionWriterClockInvalid,
    SessionWriterClockUnavailable,
    SessionWriterFaultInjected,
    SessionWriterStateUnavailable,
    SessionWriterWorkerFailed,
    SummaryDocumentIdentityMismatch,
    SummaryDocumentInvalid,
    SummaryDocumentMissing,
    SummaryDocumentPublishFailed,
    SummaryDocumentReadFailed,
    SummaryDocumentTooLarge,
    SummaryDocumentVerifyFailed,
    SummaryInvalid,
    SummarySessionMissing,
    SummarySessionUnavailable,
    SummaryTranscriptEmpty,
    TranscriptCheckpointInvalid,
    TranscriptDiscoveryLimitExceeded,
    TranscriptJournalUnavailable,
    TranscriptPageCursorInvalid,
    TranscriptPageStale,
    TranscriptPathUnsafe,
    TranscriptSearchCorrupt,
    TranscriptSearchCursorInvalid,
    TranscriptSearchFaultInjected,
    TranscriptSearchFutureSchema,
    TranscriptSearchGenerationExhausted,
    TranscriptSearchIndexInvalid,
    TranscriptSearchLimitExceeded,
    TranscriptSearchPageStale,
    TranscriptSearchRequestInvalid,
    TranscriptSearchUnavailable,
    TranscriptSearchWorkspaceInvalid,
    TranscriptSegmentNotFound,
    TranscriptSessionMissing,
    TranscriptSessionUnavailable,
    TranscriptSnapshotConflict,
    TranscriptSnapshotFaultInjected,
    TranscriptSnapshotInvalid,
    TranscriptSnapshotMissing,
    TranscriptSnapshotPublishFailed,
    TranscriptSnapshotReadFailed,
    TranscriptSnapshotRecoveryFailed,
    TranscriptSnapshotRenderFailed,
    TranscriptSnapshotTooLarge,
    TranscriptSnapshotVerifyFailed,
    TranscriptSnapshotWriteFailed,
    WorkspaceRequired,
    LiveTranscriptionConsentRequired,
    RecoveryRequired,
    CredentialKeyInvalid,
    CredentialStatusUnavailable,
    OpenrouterCredentialMissing,
    ManualQuestionInvalid,
    ManualQuestionSegmentNotFound,
    InsightInvalid,
    InsightTranscriptEmpty,
}

} // verus!
