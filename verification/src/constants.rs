//! Names and limits of the store's layout on disk.
use vstd::prelude::*;

verus! {

/// Directory under the store root that holds the collections.
pub const DATA_DIR: &'static str = "data";

/// Extension of document files.
pub const DOCUMENT_EXTENSION: &'static str = "json";

/// Directory of the write-ahead log.
pub const WAL_DIR: &'static str = ".wal";

/// File of the write-ahead log.
pub const WAL_FILE: &'static str = "transactions.wal";

/// Directory of a collection into which deleted documents are moved.
pub const DELETED_DIR: &'static str = ".deleted";

/// Metadata file of a collection.
pub const COLLECTION_METADATA_FILE: &'static str = ".metadata.json";

/// Metadata file of the store.
pub const STORE_METADATA_FILE: &'static str = ".store.json";

/// Internal collection that holds the keys.
pub const KEYS_COLLECTION: &'static str = ".keys";

/// File of the signing key.
pub const SIGNING_KEY_FILE: &'static str = "signing_key";

/// Largest size of a collection's metadata file, in bytes.
pub const MAX_COLLECTION_METADATA_SIZE: u64 = 1024 * 1024;

/// Largest size of the store's metadata file, in bytes.
pub const MAX_STORE_METADATA_SIZE: u64 = 10 * 1024 * 1024;

/// The current version of the metadata format.
pub const META_SENTINEL_VERSION: u32 = 2;

} // verus!
