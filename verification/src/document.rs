//! Documents: JSON data with an id, a format version, timestamps, a hash and a signature.
use vstd::prelude::*;

use crate::error::SentinelError;
use crate::json::{JsonSpec, JsonValue};

verus! {

/// The current version of the document format.
pub const DOCUMENT_SENTINEL_VERSION: u32 = 1;

/// A point in time: whole seconds since the Unix epoch and the nanoseconds past them.
#[derive(Debug, Clone, Copy, PartialEq, Eq, Structural)]
pub struct Timestamp {
    pub secs: i64,
    pub nanos: u32,
}

/// A document of the database.
#[derive(Debug)]
pub struct Document {
    /// The unique identifier of the document.
    pub id: String,
    /// The version of the document format that wrote it.
    pub version: u32,
    /// When the document was created.
    pub created_at: Timestamp,
    /// When the document was last updated.
    pub updated_at: Timestamp,
    /// The hash of the document data.
    pub hash: String,
    /// The signature of the hash; empty when the document is unsigned.
    pub signature: String,
    /// The JSON data of the document.
    pub data: JsonValue,
    /// Whether the document was read while a write to it may have been under way.
    pub stale_data_warning: bool,
    /// When the stale data warning was set, if it is set.
    pub warning_timestamp: Option<Timestamp>,
}

impl Document {
    /// The document's data as a mathematical JSON value.
    pub open spec fn data_view(&self) -> JsonSpec {
        self.data@
    }

    /// A fresh signed document from its id, its data, the hash of the data, the
    /// signature of that hash and the current time, which becomes both its
    /// creation and its update time.
    pub fn new(id: String, data: JsonValue, hash: String, signature: String, now: Timestamp) -> (r: Document)
        ensures
            r.id@ == id@,
            r.version == DOCUMENT_SENTINEL_VERSION,
            r.created_at == now,
            r.updated_at == now,
            r.hash@ == hash@,
            r.signature@ == signature@,
            r.data@ == data@,
            !r.stale_data_warning,
            r.warning_timestamp is None,
    {
        Document {
            id,
            version: DOCUMENT_SENTINEL_VERSION,
            created_at: now,
            updated_at: now,
            hash,
            signature,
            data,
            stale_data_warning: false,
            warning_timestamp: None,
        }
    }

    /// A fresh unsigned document (its signature is empty) from its id, its data,
    /// the hash of the data and the current time.
    pub fn new_without_signature(id: String, data: JsonValue, hash: String, now: Timestamp) -> (r: Document)
        ensures
            r.id@ == id@,
            r.version == DOCUMENT_SENTINEL_VERSION,
            r.created_at == now,
            r.updated_at == now,
            r.hash@ == hash@,
            r.signature@.len() == 0,
            r.data@ == data@,
            !r.stale_data_warning,
            r.warning_timestamp is None,
    {
        Document::new(id, data, hash, String::new(), now)
    }

    /// Returns the document ID.
    pub fn id(&self) -> (r: &str)
        ensures
            r@ == self.id@,
    {
        self.id.as_str()
    }

    /// Returns the document version.
    pub fn version(&self) -> (r: u32)
        ensures
            r == self.version,
    {
        self.version
    }

    /// Returns the creation timestamp.
    pub fn created_at(&self) -> (r: Timestamp)
        ensures
            r == self.created_at,
    {
        self.created_at
    }

    /// Returns the last update timestamp.
    pub fn updated_at(&self) -> (r: Timestamp)
        ensures
            r == self.updated_at,
    {
        self.updated_at
    }

    /// Returns the hash of the document data.
    pub fn hash(&self) -> (r: &str)
        ensures
            r@ == self.hash@,
    {
        self.hash.as_str()
    }

    /// Returns the signature of the document data.
    pub fn signature(&self) -> (r: &str)
        ensures
            r@ == self.signature@,
    {
        self.signature.as_str()
    }

    /// Returns a reference to the document data.
    pub fn data(&self) -> (r: &JsonValue)
        ensures
            r@ == self.data@,
    {
        &self.data
    }

    /// Returns whether this document has a stale data warning.
    pub fn stale_data_warning(&self) -> (r: bool)
        ensures
            r == self.stale_data_warning,
    {
        self.stale_data_warning
    }

    /// Returns the timestamp when the stale data warning was set.
    pub fn warning_timestamp(&self) -> (r: Option<Timestamp>)
        ensures
            r == self.warning_timestamp,
    {
        self.warning_timestamp
    }

    /// Sets the stale data warning state.
    pub fn set_stale_data_warning(&mut self, warning: bool, timestamp: Option<Timestamp>)
        ensures
            final(self).stale_data_warning == warning,
            final(self).warning_timestamp == timestamp,
            final(self).id@ == old(self).id@,
            final(self).version == old(self).version,
            final(self).created_at == old(self).created_at,
            final(self).updated_at == old(self).updated_at,
            final(self).hash@ == old(self).hash@,
            final(self).signature@ == old(self).signature@,
            final(self).data@ == old(self).data@,
    {
        self.stale_data_warning = warning;
        self.warning_timestamp = timestamp;
    }

    /// Replaces the document's data, recording the time of the change and the new
    /// data's hash and signature (empty for an unsigned document).
    pub fn set_data(&mut self, data: JsonValue, now: Timestamp, hash: String, signature: String)
        ensures
            final(self).data@ == data@,
            final(self).updated_at == now,
            final(self).hash@ == hash@,
            final(self).signature@ == signature@,
            final(self).id@ == old(self).id@,
            final(self).version == old(self).version,
            final(self).created_at == old(self).created_at,
            final(self).stale_data_warning == old(self).stale_data_warning,
            final(self).warning_timestamp == old(self).warning_timestamp,
    {
        self.data = data;
        self.updated_at = now;
        self.hash = hash;
        self.signature = signature;
    }

    /// The outcome of checking the document's signature, given the outcome of
    /// checking it against the public key: whether it is valid, or the message of
    /// the error that check ended in. A document without a signature fails,
    /// whatever that check gave.
    pub fn verify_signature(&self, check: &Result<bool, String>) -> (r: Result<(), SentinelError>)
        ensures
            r is Ok <==> (self.signature@.len() > 0 && check == &Ok::<bool, String>(true)),
            r matches Err(e) ==> (e matches SentinelError::SignatureVerificationFailed { id: x, reason } && x@
                == self.id@ && reason@ == if self.signature@.len() == 0 {
                "Document has no signature"@
            } else {
                match check {
                    Ok(_) => "Signature is invalid"@,
                    Err(m) => "Signature verification failed: "@ + m@,
                }
            }),
    {
        if self.signature.as_str().unicode_len() == 0 {
            return Err(
                SentinelError::SignatureVerificationFailed {
                    id: self.id.clone(),
                    reason: "Document has no signature".to_owned(),
                },
            );
        }
        match check {
            Ok(true) => Ok(()),
            Ok(false) => Err(
                SentinelError::SignatureVerificationFailed { id: self.id.clone(), reason: "Signature is invalid".to_owned() },
            ),
            Err(m) => {
                let mut reason = "Signature verification failed: ".to_owned();
                reason.append(m.as_str());
                Err(SentinelError::SignatureVerificationFailed { id: self.id.clone(), reason })
            },
        }
    }

    /// The outcome of checking the document's hash, given the outcome of hashing
    /// its data: the hash, or the message of the hasher's error.
    pub fn verify_hash(&self, computed: &Result<String, String>) -> (r: Result<(), SentinelError>)
        ensures
            r is Ok <==> (computed matches Ok(h) && h@ == self.hash@),
            r matches Err(e) ==> (e matches SentinelError::HashVerificationFailed { id: x, reason } && x@ == self.id@
                && reason@ == match computed {
                Ok(h) => "Hash mismatch: expected "@ + self.hash@ + ", got "@ + h@,
                Err(m) => "Hash computation failed: "@ + m@,
            }),
    {
        match computed {
            Err(m) => {
                let mut reason = "Hash computation failed: ".to_owned();
                reason.append(m.as_str());
                Err(SentinelError::HashVerificationFailed { id: self.id.clone(), reason })
            },
            Ok(h) => {
                if h.clone() == self.hash.clone() {
                    Ok(())
                } else {
                    let mut reason = "Hash mismatch: expected ".to_owned();
                    reason.append(self.hash.as_str());
                    reason.append(", got ");
                    reason.append(h.as_str());
                    Err(SentinelError::HashVerificationFailed { id: self.id.clone(), reason })
                }
            },
        }
    }
}

} // verus!
