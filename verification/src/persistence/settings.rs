//! Revision rules of the versioned application settings: how revisions
//! advance, and which stored version a read recovers to.

use vstd::prelude::*;

use crate::errors::AppError;
use crate::security::workspace::{validate_workspace_path_syntax, workspace_path_verdict};

verus! {

/// Largest settings revision (the largest JSON-safe integer).
pub const MAX_SETTINGS_REVISION: u64 = 9_007_199_254_740_991;

/// The revision after `revision`, while it stays JSON-safe.
pub fn next_revision(revision: u64) -> (r: Result<u64, AppError>)
    ensures
        r is Ok <==> revision < MAX_SETTINGS_REVISION,
        r matches Ok(v) ==> v == revision + 1,
        r matches Err(e) ==> e == AppError::settings_revision_exhausted_spec(),
{
    match revision.checked_add(1) {
        Some(value) => if value <= MAX_SETTINGS_REVISION {
            Ok(value)
        } else {
            Err(AppError::settings_revision_exhausted())
        },
        None => Err(AppError::settings_revision_exhausted()),
    }
}

/// One stored settings version, newest first: its revision as stored, and
/// whether its record parses with that revision and a valid workspace path.
#[derive(Debug, Clone, Copy)]
pub struct StoredSettingsVersion {
    pub revision: i64,
    pub usable: bool,
}

/// Which settings a read returns.
#[derive(Debug, Clone, Copy, PartialEq, Eq, Structural)]
pub enum SettingsRecovery {
    /// The newest version is valid and is returned as is.
    UseNewest,
    /// An older version is valid; it is stored again at `revision`.
    Restore { index: usize, revision: u64 },
    /// No version is usable; the defaults are stored at `revision`.
    Reset { revision: u64 },
}

/// Index of the first usable version among the first `k`, or `k`.
pub open spec fn first_usable(versions: Seq<StoredSettingsVersion>, k: int) -> int
    decreases k,
{
    if k <= 0 {
        0
    } else if first_usable(versions, k - 1) < k - 1 {
        first_usable(versions, k - 1)
    } else if versions[k - 1].usable {
        k - 1
    } else {
        k
    }
}

proof fn lemma_first_usable_bounds(versions: Seq<StoredSettingsVersion>, k: int)
    requires
        0 <= k,
    ensures
        0 <= first_usable(versions, k) <= k,
        first_usable(versions, k) < k ==> versions[first_usable(versions, k)].usable,
        forall|j: int| 0 <= j < first_usable(versions, k) ==> !(#[trigger] versions[j]).usable,
    decreases k,
{
    if k > 0 {
        lemma_first_usable_bounds(versions, k - 1);
    }
}

/// How a read recovers, given the stored versions (newest first) and the
/// last revision the store ever allocated.
pub open spec fn settings_recovery_spec(
    versions: Seq<StoredSettingsVersion>,
    last_allocated: Option<u64>,
) -> Result<SettingsRecovery, AppError> {
    if exists|j: int| 0 <= j < versions.len() && (#[trigger] versions[j]).revision < 0 {
        Err(AppError::settings_unavailable_spec())
    } else if versions.len() == 0 {
        match last_allocated {
            None => Ok(SettingsRecovery::Reset { revision: 0 }),
            Some(last) => if last < MAX_SETTINGS_REVISION {
                Ok(SettingsRecovery::Reset { revision: (last + 1) as u64 })
            } else {
                Err(AppError::settings_revision_exhausted_spec())
            },
        }
    } else {
        let k = first_usable(versions, versions.len() as int);
        let newest = versions[0].revision;
        if k == 0 {
            Ok(SettingsRecovery::UseNewest)
        } else if newest >= MAX_SETTINGS_REVISION {
            Err(AppError::settings_revision_exhausted_spec())
        } else if k < versions.len() {
            Ok(SettingsRecovery::Restore { index: k as usize, revision: (newest + 1) as u64 })
        } else {
            Ok(SettingsRecovery::Reset { revision: (newest + 1) as u64 })
        }
    }
}

/// Decides what a settings read returns: the newest valid version as is;
/// otherwise the first older valid version, or the defaults, stored again
/// at the revision after the newest; with no versions at all, the defaults
/// at the revision after the last one allocated.
pub fn settings_recovery(versions: &[StoredSettingsVersion], last_allocated: Option<u64>) -> (r:
    Result<SettingsRecovery, AppError>)
    ensures
        r == settings_recovery_spec(versions@, last_allocated),
{
    let n = versions.len();
    for j in 0..n
        invariant
            n == versions@.len(),
            forall|i: int| 0 <= i < j ==> (#[trigger] versions@[i]).revision >= 0,
    {
        if versions[j].revision < 0 {
            return Err(AppError::settings_unavailable());
        }
    }
    if n == 0 {
        return match last_allocated {
            None => Ok(SettingsRecovery::Reset { revision: 0 }),
            Some(last) => match next_revision(last) {
                Ok(revision) => Ok(SettingsRecovery::Reset { revision }),
                Err(e) => Err(e),
            },
        };
    }
    let mut k: usize = 0;
    while k < n && !versions[k].usable
        invariant
            k <= n,
            n == versions@.len(),
            forall|i: int| 0 <= i < k ==> !(#[trigger] versions@[i]).usable,
        decreases n - k,
    {
        k = k + 1;
    }
    proof {
        lemma_first_usable_bounds(versions@, n as int);
        let f = first_usable(versions@, n as int);
        if f < k {
            assert(!versions@[f].usable);
        }
        if (k as int) < f {
            assert(versions@[k as int].usable);
        }
        assert(f == k);
    }
    if k == 0 {
        return Ok(SettingsRecovery::UseNewest);
    }
    let newest = versions[0].revision as u64;
    let revision = match next_revision(newest) {
        Ok(revision) => revision,
        Err(e) => return Err(e),
    };
    if k < n {
        Ok(SettingsRecovery::Restore { index: k, revision })
    } else {
        Ok(SettingsRecovery::Reset { revision })
    }
}

/// A recovered version is always stored at a revision above every stored
/// one, so revisions only grow.
pub proof fn recovered_revisions_only_grow(
    versions: Seq<StoredSettingsVersion>,
    last_allocated: Option<u64>,
)
    requires
        forall|i: int, j: int|
            0 <= i < j < versions.len() ==> (#[trigger] versions[i]).revision
                > (#[trigger] versions[j]).revision,
    ensures
        settings_recovery_spec(versions, last_allocated) matches Ok(SettingsRecovery::Restore {
            revision,
            ..
        }) ==> forall|j: int| 0 <= j < versions.len() ==> (#[trigger] versions[j]).revision
            < revision,
        settings_recovery_spec(versions, last_allocated) matches Ok(SettingsRecovery::Reset {
            revision,
        }) ==> (forall|j: int| 0 <= j < versions.len() ==> (#[trigger] versions[j]).revision
            < revision) && (versions.len() == 0 && last_allocated is Some ==> last_allocated->0
            < revision),
{
}


/// Recovery restores the newest usable version: a restored version is
/// usable and every newer one is not; the newest is used as it is only when
/// it is usable; settings are reset, with versions stored, only when none of
/// them is usable.
pub proof fn recovery_restores_the_newest_usable_version(
    versions: Seq<StoredSettingsVersion>,
    last_allocated: Option<u64>,
)
    requires
        versions.len() <= usize::MAX,
    ensures
        settings_recovery_spec(versions, last_allocated) matches Ok(SettingsRecovery::Restore {
            index,
            ..
        }) ==> index < versions.len() && versions[index as int].usable && forall|j: int|
            0 <= j < index ==> !(#[trigger] versions[j]).usable,
        settings_recovery_spec(versions, last_allocated) matches Ok(SettingsRecovery::UseNewest)
            ==> versions.len() > 0 && versions[0].usable,
        settings_recovery_spec(versions, last_allocated) matches Ok(SettingsRecovery::Reset { .. })
            ==> forall|j: int| 0 <= j < versions.len() ==> !(#[trigger] versions[j]).usable,
{
    lemma_first_usable_bounds(versions, versions.len() as int);
}

/// An update made against `expected` applies to settings at `current`.
pub open spec fn accepts_update(current: u64, expected: u64) -> bool {
    current == expected
}

/// An update applies only to the revision it was made against.
pub fn check_settings_revision(current: u64, expected: u64) -> (r: Result<(), AppError>)
    ensures
        r is Ok <==> accepts_update(current, expected),
        r matches Err(e) ==> e == AppError::settings_revision_conflict_spec(),
{
    if current != expected {
        return Err(AppError::settings_revision_conflict());
    }
    Ok(())
}

/// Of two updates made against the same revision only the first applies: it
/// moves the settings to the next revision, which the second does not name.
pub proof fn an_expected_revision_is_accepted_once(expected: u64)
    requires
        expected < MAX_SETTINGS_REVISION,
    ensures
        accepts_update(expected, expected),
        !accepts_update((expected + 1) as u64, expected),
{
}

/// A stored settings version is usable when its record names the revision
/// it is stored under and a workspace path of valid syntax.
pub open spec fn version_usable_spec(
    stored_revision: i64,
    record_revision: Option<u64>,
    workspace_path: Option<Seq<char>>,
) -> bool {
    &&& stored_revision >= 0
    &&& record_revision == Some(stored_revision as u64)
    &&& workspace_path matches Some(p) && workspace_path_verdict(p) is Ok
}

/// Whether a stored settings version can be used as it is: the revision in
/// its record is the one it is stored under, and its workspace path is
/// syntactically valid.
pub fn version_usable(
    stored_revision: i64,
    record_revision: Option<u64>,
    workspace_path: Option<&str>,
) -> (r: bool)
    ensures
        r == version_usable_spec(
            stored_revision,
            record_revision,
            match workspace_path {
                Some(p) => Some(p@),
                None => None,
            },
        ),
{
    if stored_revision < 0 {
        return false;
    }
    match record_revision {
        Some(v) => {
            if v != stored_revision as u64 {
                return false;
            }
        },
        None => return false,
    }
    match workspace_path {
        Some(p) => validate_workspace_path_syntax(p).is_ok(),
        None => false,
    }
}

} // verus!
