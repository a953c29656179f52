use vstd::prelude::*;

use crate::error::{DigError, ErrorKind};
use crate::model::{DIG_CONFIG_VERSION, DIG_OPERATION_VERSION, DIG_STATE_VERSION};
use crate::restack::PlanError;
use crate::text::{decimal_digits, push_decimal, push_str, to_owned_string};

verus! {

/// What reading a stored file of kind `what` makes of its version field: a missing field and
/// a version newer than `supported` are refused; otherwise whether the field has to be
/// rewritten to `supported`. The field is read as a 32-bit number.
pub open spec fn version_check_spec(version: Option<u64>, supported: u32, what: Seq<char>) -> Result<bool, PlanError> {
    match version {
        None => Err((ErrorKind::InvalidData, what + " file missing 'version' field"@)),
        Some(v) => {
            let t = v as u32;
            if t > supported {
                Err(
                    (
                        ErrorKind::InvalidData,
                        what + " version "@ + decimal_digits(t as nat) + " is newer than supported version "@
                            + decimal_digits(supported as nat) + "; upgrade dgr"@,
                    ),
                )
            } else {
                Ok(t != supported)
            }
        },
    }
}

/// Checks the version field of a stored file: whether it has to be rewritten, or why the file
/// cannot be read.
pub fn check_version(version: Option<u64>, supported: u32, what: &str) -> (r: Result<bool, DigError>)
    ensures
        match r {
            Ok(b) => version_check_spec(version, supported, what@) == Ok::<bool, PlanError>(b),
            Err(e) => version_check_spec(version, supported, what@) == Err::<bool, PlanError>((e.kind, e.message@)),
        },
{
    match version {
        None => {
            let mut message = to_owned_string(what);
            push_str(&mut message, " file missing 'version' field");
            Err(DigError::new(ErrorKind::InvalidData, message))
        },
        Some(v) => {
            #[verifier::truncate]
            let t = v as u32;
            if t > supported {
                let mut message = to_owned_string(what);
                push_str(&mut message, " version ");
                push_decimal(&mut message, t as u64);
                push_str(&mut message, " is newer than supported version ");
                push_decimal(&mut message, supported as u64);
                push_str(&mut message, "; upgrade dgr");
                Err(DigError::new(ErrorKind::InvalidData, message))
            } else {
                Ok(t != supported)
            }
        },
    }
}

/// Checks the version of a stored state.
pub fn migrate_state(version: Option<u64>) -> (r: Result<bool, DigError>)
    ensures
        match r {
            Ok(b) => version_check_spec(version, DIG_STATE_VERSION, "state"@) == Ok::<bool, PlanError>(b),
            Err(e) => version_check_spec(version, DIG_STATE_VERSION, "state"@) == Err::<bool, PlanError>(
                (e.kind, e.message@),
            ),
        },
{
    check_version(version, DIG_STATE_VERSION, "state")
}

/// Checks the version of a stored config.
pub fn migrate_config(version: Option<u64>) -> (r: Result<bool, DigError>)
    ensures
        match r {
            Ok(b) => version_check_spec(version, DIG_CONFIG_VERSION, "config"@) == Ok::<bool, PlanError>(b),
            Err(e) => version_check_spec(version, DIG_CONFIG_VERSION, "config"@) == Err::<bool, PlanError>(
                (e.kind, e.message@),
            ),
        },
{
    check_version(version, DIG_CONFIG_VERSION, "config")
}

/// Checks the version of a stored pending operation.
pub fn migrate_operation(version: Option<u64>) -> (r: Result<bool, DigError>)
    ensures
        match r {
            Ok(b) => version_check_spec(version, DIG_OPERATION_VERSION, "operation"@) == Ok::<bool, PlanError>(b),
            Err(e) => version_check_spec(version, DIG_OPERATION_VERSION, "operation"@) == Err::<bool, PlanError>(
                (e.kind, e.message@),
            ),
        },
{
    check_version(version, DIG_OPERATION_VERSION, "operation")
}

} // verus!
