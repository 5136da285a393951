//! The errors of the store boundary and of the cache provider.

use vstd::prelude::*;
use vstd::string::StringExecFns;

verus! {

/// The classes that store errors and cache errors share.
#[derive(Debug, Clone, Copy, PartialEq, Eq, Structural)]
pub enum ErrorKind {
    Unavailable,
    Timeout,
    InvalidArgument,
    InvalidData,
    Internal,
}

/// What an error says: its class and its message.
pub struct Failure {
    pub kind: ErrorKind,
    pub message: Seq<char>,
}

/// The failure of class `kind` with the given message.
pub open spec fn failure(kind: ErrorKind, message: Seq<char>) -> Failure {
    Failure { kind, message }
}

/// Errors returned by the synchronous MemStore KV boundary.
#[derive(Debug)]
pub enum MemStoreStoreError {
    Unavailable(String),
    Timeout(String),
    InvalidArgument(String),
    InvalidData(String),
    Internal(String),
}

impl View for MemStoreStoreError {
    type V = Failure;

    open spec fn view(&self) -> Failure {
        match self {
            MemStoreStoreError::Unavailable(message) => failure(
                ErrorKind::Unavailable,
                message@,
            ),
            MemStoreStoreError::Timeout(message) => failure(ErrorKind::Timeout, message@),
            MemStoreStoreError::InvalidArgument(message) => failure(
                ErrorKind::InvalidArgument,
                message@,
            ),
            MemStoreStoreError::InvalidData(message) => failure(
                ErrorKind::InvalidData,
                message@,
            ),
            MemStoreStoreError::Internal(message) => failure(ErrorKind::Internal, message@),
        }
    }
}

/// Errors returned by cache providers.
#[derive(Debug)]
pub enum CacheError {
    Unavailable(String),
    Timeout(String),
    InvalidArgument(String),
    InvalidData(String),
    Internal(String),
}

impl View for CacheError {
    type V = Failure;

    open spec fn view(&self) -> Failure {
        match self {
            CacheError::Unavailable(message) => failure(ErrorKind::Unavailable, message@),
            CacheError::Timeout(message) => failure(ErrorKind::Timeout, message@),
            CacheError::InvalidArgument(message) => failure(ErrorKind::InvalidArgument, message@),
            CacheError::InvalidData(message) => failure(ErrorKind::InvalidData, message@),
            CacheError::Internal(message) => failure(ErrorKind::Internal, message@),
        }
    }
}

/// Result of a cache provider operation.
pub type CacheResult<T> = Result<T, CacheError>;

/// Result for one item within a native MemStore batch operation.
pub type MemStoreItemResult<T> = Result<T, MemStoreStoreError>;

/// A result with its value as it is and its error taken by its view.
pub open spec fn settled<T, E: View<V = Failure>>(result: Result<T, E>) -> Result<T, Failure> {
    match result {
        Ok(value) => Ok(value),
        Err(error) => Err(error@),
    }
}

/// A result with its value and its error taken by their views.
pub open spec fn outcome<T: View, E: View<V = Failure>>(result: Result<T, E>) -> Result<
    T::V,
    Failure,
> {
    match result {
        Ok(value) => Ok(value@),
        Err(error) => Err(error@),
    }
}

/// What stands before the message in the text of a store error of class `kind`.
pub open spec fn store_error_label(kind: ErrorKind) -> Seq<char> {
    match kind {
        ErrorKind::Unavailable => "MemStore unavailable: "@,
        ErrorKind::Timeout => "MemStore operation timed out: "@,
        ErrorKind::InvalidArgument => "invalid MemStore argument: "@,
        ErrorKind::InvalidData => "invalid MemStore data: "@,
        ErrorKind::Internal => "MemStore operation failed: "@,
    }
}

impl MemStoreStoreError {
    /// The error as one line of text.
    pub fn describe(&self) -> (text: String)
        ensures
            text@ == store_error_label(self@.kind) + self@.message,
    {
        let (label, message) = match self {
            MemStoreStoreError::Unavailable(message) => ("MemStore unavailable: ", message),
            MemStoreStoreError::Timeout(message) => ("MemStore operation timed out: ", message),
            MemStoreStoreError::InvalidArgument(message) => (
                "invalid MemStore argument: ",
                message,
            ),
            MemStoreStoreError::InvalidData(message) => ("invalid MemStore data: ", message),
            MemStoreStoreError::Internal(message) => ("MemStore operation failed: ", message),
        };
        label.to_owned().concat(message.as_str())
    }
}

/// Carries a store error over to the cache contract: same class, same message.
pub fn map_store_error(error: MemStoreStoreError) -> (mapped: CacheError)
    ensures
        mapped@ == error@,
{
    match error {
        MemStoreStoreError::Unavailable(message) => CacheError::Unavailable(message),
        MemStoreStoreError::Timeout(message) => CacheError::Timeout(message),
        MemStoreStoreError::InvalidArgument(message) => CacheError::InvalidArgument(message),
        MemStoreStoreError::InvalidData(message) => CacheError::InvalidData(message),
        MemStoreStoreError::Internal(message) => CacheError::Internal(message),
    }
}

/// A second copy of a finished operation's result.
pub fn clone_cache_result(result: &CacheResult<()>) -> (copy: CacheResult<()>)
    ensures
        copy == *result,
{
    match result {
        Ok(done) => Ok(*done),
        Err(CacheError::Unavailable(message)) => Err(CacheError::Unavailable(message.clone())),
        Err(CacheError::Timeout(message)) => Err(CacheError::Timeout(message.clone())),
        Err(CacheError::InvalidData(message)) => Err(CacheError::InvalidData(message.clone())),
        Err(CacheError::InvalidArgument(message)) => Err(
            CacheError::InvalidArgument(message.clone()),
        ),
        Err(CacheError::Internal(message)) => Err(CacheError::Internal(message.clone())),
    }
}

// Laws.

/// Every error says its own class and its own message.
pub proof fn errors_say_what_they_are(text: String)
    ensures
        MemStoreStoreError::Unavailable(text)@ == failure(ErrorKind::Unavailable, text@),
        MemStoreStoreError::Timeout(text)@ == failure(ErrorKind::Timeout, text@),
        MemStoreStoreError::InvalidArgument(text)@ == failure(ErrorKind::InvalidArgument, text@),
        MemStoreStoreError::InvalidData(text)@ == failure(ErrorKind::InvalidData, text@),
        MemStoreStoreError::Internal(text)@ == failure(ErrorKind::Internal, text@),
        CacheError::Unavailable(text)@ == failure(ErrorKind::Unavailable, text@),
        CacheError::Timeout(text)@ == failure(ErrorKind::Timeout, text@),
        CacheError::InvalidArgument(text)@ == failure(ErrorKind::InvalidArgument, text@),
        CacheError::InvalidData(text)@ == failure(ErrorKind::InvalidData, text@),
        CacheError::Internal(text)@ == failure(ErrorKind::Internal, text@),
        failure(ErrorKind::Internal, text@).kind == ErrorKind::Internal,
        failure(ErrorKind::Internal, text@).message == text@,
{
}

/// A result is taken as it is: success with its value, and an error with what it says.
pub proof fn results_are_taken_as_they_are<T>(value: T, error: CacheError)
    ensures
        settled::<T, CacheError>(Ok(value)) == Ok::<T, Failure>(value),
        settled::<T, CacheError>(Err(error)) == Err::<T, Failure>(error@),
{
}

/// An outcome is taken by what it holds: success with the content of its value, and an error with
/// what it says.
pub proof fn outcomes_are_taken_by_what_they_hold(value: Vec<u8>, error: MemStoreStoreError)
    ensures
        outcome::<Vec<u8>, MemStoreStoreError>(Ok(value)) == Ok::<Seq<u8>, Failure>(value@),
        outcome::<Vec<u8>, MemStoreStoreError>(Err(error)) == Err::<Seq<u8>, Failure>(error@),
{
}

/// The line of text of an error names its class in front of its message.
pub proof fn error_lines_name_the_class()
    ensures
        store_error_label(ErrorKind::Unavailable) == "MemStore unavailable: "@,
        store_error_label(ErrorKind::Timeout) == "MemStore operation timed out: "@,
        store_error_label(ErrorKind::InvalidArgument) == "invalid MemStore argument: "@,
        store_error_label(ErrorKind::InvalidData) == "invalid MemStore data: "@,
        store_error_label(ErrorKind::Internal) == "MemStore operation failed: "@,
{
}

} // verus!
