//! The error type of the store.
use vstd::prelude::*;

verus! {

/// Everything that can go wrong in the document store.
#[derive(Debug)]
pub enum SentinelError {
    /// An I/O operation failed.
    Io { message: String },
    /// JSON serialization or deserialization failed.
    Json { message: String },
    /// The document is not in the collection.
    DocumentNotFound { id: String, collection: String },
    /// The collection is not in the store.
    CollectionNotFound { name: String },
    /// The document already exists.
    DocumentAlreadyExists { id: String, collection: String },
    /// The document ID is not a valid ID.
    InvalidDocumentId { id: String },
    /// The collection name is not a valid name.
    InvalidCollectionName { name: String },
    /// The store is corrupted.
    StoreCorruption { reason: String },
    /// A transaction failed.
    TransactionFailed { reason: String },
    /// A lock could not be acquired.
    LockFailed { reason: String },
    /// A cryptographic operation failed.
    CryptoFailed { operation: String },
    /// The configuration is wrong.
    ConfigError { message: String },
    /// An unexpected condition.
    Internal { message: String },
    /// A document's hash does not match its data.
    HashVerificationFailed { id: String, reason: String },
    /// A document's signature is missing or does not verify.
    SignatureVerificationFailed { id: String, reason: String },
    /// Waiting for a lock took longer than the timeout.
    LockTimeout { path: String, timeout_ms: u64 },
    /// A lock request would close a cycle of waiting transactions.
    DeadlockDetected,
    /// A lock guard is not in the state the operation needs.
    InvalidLockState { reason: String },
    /// Other locks on the path prevent the operation.
    LockContention { reason: String },
}

/// The result type of the store's operations.
pub type Result<T> = std::result::Result<T, SentinelError>;

impl SentinelError {
    /// A copy of the error.
    pub fn clone_error(&self) -> (r: SentinelError)
        ensures
            r == *self,
    {
        match self {
            SentinelError::Io { message } => SentinelError::Io { message: message.clone() },
            SentinelError::Json { message } => SentinelError::Json { message: message.clone() },
            SentinelError::DocumentNotFound { id, collection } => SentinelError::DocumentNotFound { id: id.clone(), collection: collection.clone() },
            SentinelError::CollectionNotFound { name } => SentinelError::CollectionNotFound { name: name.clone() },
            SentinelError::DocumentAlreadyExists { id, collection } => SentinelError::DocumentAlreadyExists { id: id.clone(), collection: collection.clone() },
            SentinelError::InvalidDocumentId { id } => SentinelError::InvalidDocumentId { id: id.clone() },
            SentinelError::InvalidCollectionName { name } => SentinelError::InvalidCollectionName { name: name.clone() },
            SentinelError::StoreCorruption { reason } => SentinelError::StoreCorruption { reason: reason.clone() },
            SentinelError::TransactionFailed { reason } => SentinelError::TransactionFailed { reason: reason.clone() },
            SentinelError::LockFailed { reason } => SentinelError::LockFailed { reason: reason.clone() },
            SentinelError::CryptoFailed { operation } => SentinelError::CryptoFailed { operation: operation.clone() },
            SentinelError::ConfigError { message } => SentinelError::ConfigError { message: message.clone() },
            SentinelError::Internal { message } => SentinelError::Internal { message: message.clone() },
            SentinelError::HashVerificationFailed { id, reason } => SentinelError::HashVerificationFailed { id: id.clone(), reason: reason.clone() },
            SentinelError::SignatureVerificationFailed { id, reason } => SentinelError::SignatureVerificationFailed { id: id.clone(), reason: reason.clone() },
            SentinelError::LockTimeout { path, timeout_ms } => SentinelError::LockTimeout { path: path.clone(), timeout_ms: *timeout_ms },
            SentinelError::DeadlockDetected => SentinelError::DeadlockDetected,
            SentinelError::InvalidLockState { reason } => SentinelError::InvalidLockState { reason: reason.clone() },
            SentinelError::LockContention { reason } => SentinelError::LockContention { reason: reason.clone() },
        }
    }
}

} // verus!
