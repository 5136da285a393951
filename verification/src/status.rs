//! Status codes of the native MemStore API and how they become store errors.

use crate::error;
use crate::error::{ErrorKind, Failure, MemStoreStoreError};
use crate::text;
use vstd::prelude::*;
use vstd::string::StringExecFns;

verus! {

/// MemStore operation result.
pub type CResult = i32;

pub const RET_MMS_OK: CResult = 0;

pub const RET_MMS_PROTECTED: CResult = 1;

pub const RET_MMS_ERROR: CResult = 2;

pub const RET_MMS_EPERM: CResult = 3;

pub const RET_MMS_BUSY: CResult = 4;

pub const RET_MMS_NEED_RETRY: CResult = 5;

pub const RET_MMS_NOT_READY: CResult = 6;

pub const RET_MMS_NOT_FOUND: CResult = 7;

pub const RET_MMS_CONFLICT: CResult = 8;

pub const RET_MMS_MISS: CResult = 9;

pub const RET_MMS_NO_SPACE: CResult = 10;

pub const RET_MMS_UNAVAILABLE: CResult = 11;

pub const RET_MMS_EXCEED_QUOTA: CResult = 12;

pub const RET_MMS_PT_FAULT: CResult = 13;

pub const RET_MMS_READ_EXCEED: CResult = 14;

pub const RET_MMS_EXISTS: CResult = 15;

/// What an item's result holds until the native call sets it.
pub const RESULT_SENTINEL: CResult = i32::MIN;

/// The answer where a call succeeded as a whole but left an item's result unset.
pub open spec fn unset_result(operation: Seq<char>) -> Failure {
    error::failure(
        ErrorKind::Internal,
        "MemStore "@ + operation + " left an item result unset"@,
    )
}

/// The status that counts for an item: its own, or that of the whole call where the item has
/// none and the call failed.
pub open spec fn effective(item: CResult, overall: CResult, operation: Seq<char>) -> Result<
    CResult,
    Failure,
> {
    if item != RESULT_SENTINEL {
        Ok(item)
    } else if overall != RET_MMS_OK {
        Ok(overall)
    } else {
        Err(unset_result(operation))
    }
}

/// The answer where the native call handed back another buffer than the caller's.
pub open spec fn replaced_buffer(operation: Seq<char>) -> Failure {
    error::failure(
        ErrorKind::Internal,
        "MemStore "@ + operation + " replaced a caller-owned read buffer"@,
    )
}

/// The class of error that a status belongs to.
pub open spec fn status_kind(code: CResult) -> ErrorKind {
    if code == RET_MMS_BUSY || code == RET_MMS_NEED_RETRY || code == RET_MMS_NOT_READY || code
        == RET_MMS_UNAVAILABLE || code == RET_MMS_NO_SPACE || code == RET_MMS_EXCEED_QUOTA || code
        == RET_MMS_PT_FAULT {
        ErrorKind::Unavailable
    } else if code == RET_MMS_EPERM || code == RET_MMS_READ_EXCEED {
        ErrorKind::InvalidArgument
    } else {
        ErrorKind::Internal
    }
}

/// The failure that a status stands for, while the service reports itself serviceable or not.
pub open spec fn status_failure(code: CResult, operation: Seq<char>, serviceable: bool) -> Failure {
    error::failure(
        status_kind(code),
        operation + " returned MemStore status "@ + text::signed_decimal(code as int)
            + " (serviceable="@ + text::boolean(serviceable) + ")"@,
    )
}

/// The status that counts for an item.
pub fn effective_result(item_result: CResult, overall_result: CResult, operation: &str) -> (result:
    Result<CResult, MemStoreStoreError>)
    ensures
        error::settled(result) == effective(item_result, overall_result, operation@),
{
    if item_result != RESULT_SENTINEL {
        Ok(item_result)
    } else if overall_result != RET_MMS_OK {
        Ok(overall_result)
    } else {
        let mut message = "MemStore ".to_owned();
        message.append(operation);
        message.append(" left an item result unset");
        Err(MemStoreStoreError::Internal(message))
    }
}

/// The error for a read that handed back another buffer than the caller's.
pub fn zero_copy_error(operation: &str) -> (error: MemStoreStoreError)
    ensures
        error@ == replaced_buffer(operation@),
{
    let mut message = "MemStore ".to_owned();
    message.append(operation);
    message.append(" replaced a caller-owned read buffer");
    MemStoreStoreError::Internal(message)
}

/// The error that a status stands for. `serviceable` is the service state that the native
/// runtime last reported.
pub fn map_native_status(code: CResult, operation: &str, serviceable: bool) -> (error:
    MemStoreStoreError)
    ensures
        error@ == status_failure(code, operation@, serviceable),
{
    let mut detail = operation.to_owned();
    detail.append(" returned MemStore status ");
    text::push_signed_decimal(&mut detail, code);
    detail.append(" (serviceable=");
    text::push_boolean(&mut detail, serviceable);
    detail.append(")");
    if code == RET_MMS_BUSY || code == RET_MMS_NEED_RETRY || code == RET_MMS_NOT_READY || code
        == RET_MMS_UNAVAILABLE || code == RET_MMS_NO_SPACE || code == RET_MMS_EXCEED_QUOTA || code
        == RET_MMS_PT_FAULT {
        MemStoreStoreError::Unavailable(detail)
    } else if code == RET_MMS_EPERM || code == RET_MMS_READ_EXCEED {
        MemStoreStoreError::InvalidArgument(detail)
    } else {
        MemStoreStoreError::Internal(detail)
    }
}

/// An item's own status always counts, whatever became of the call as a whole.
pub proof fn own_status_counts(item: CResult, overall: CResult, operation: Seq<char>)
    requires
        item != RESULT_SENTINEL,
    ensures
        effective(item, overall, operation) == Ok::<CResult, Failure>(item),
{
}

/// An item without a status never counts as a success.
pub proof fn unset_items_never_succeed(overall: CResult, operation: Seq<char>)
    ensures
        effective(RESULT_SENTINEL, overall, operation) != Ok::<CResult, Failure>(RET_MMS_OK),
{
}

} // verus!
