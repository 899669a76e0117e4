//! Only the main window may invoke privileged commands.

use vstd::prelude::*;

use crate::errors::{AppError, AppErrorCode};
use crate::text::{chars_equal, to_chars};

verus! {

/// The label of the one window that may invoke commands.
pub open spec fn main_window_label() -> Seq<char> {
    seq!['m', 'a', 'i', 'n']
}

/// Accepts exactly the label `main`; every other label is refused with a
/// non-retryable `command_not_authorized` error.
pub fn authorize_main_window(window_label: &str) -> (r: Result<(), AppError>)
    ensures
        r is Ok <==> window_label@ == main_window_label(),
        r matches Err(e) ==> e == AppError::command_not_authorized_spec(),
{
    let label = to_chars(window_label);
    let expected = ['m', 'a', 'i', 'n'];
    proof {
        assert(expected@ =~= main_window_label());
    }
    if chars_equal(label.as_slice(), &expected) {
        Ok(())
    } else {
        Err(AppError::command_not_authorized())
    }
}

} // verus!
