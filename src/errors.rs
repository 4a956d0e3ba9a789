use vstd::prelude::*;

verus! {

/// The failures that a store operation or a request can end in.
#[derive(Clone, Debug, PartialEq, Eq)]
pub enum KVStoreError {
    /// A remove of a key that the store does not hold.
    KeyNotFound,
    /// A fault reported by the embedded storage library, with its message.
    SledError(String),
    /// A failure of the server side: a job that never signalled completion.
    ServerError(String),
    /// A record or a segment set that cannot be replayed.
    CorruptRecord(String),
    /// A value that is not valid UTF-8.
    Utf8Error,
    /// A segment file could not be read, written or flushed.
    IoError(String),
}

/// The result of a store operation.
pub type Result<T> = std::result::Result<T, KVStoreError>;

/// The text that a client is shown for a failure.
pub open spec fn key_not_found_text() -> Seq<char> {
    seq!['K', 'e', 'y', ' ', 'n', 'o', 't', ' ', 'f', 'o', 'u', 'n', 'd']
}

/// The text shown for a value that is not valid UTF-8.
pub open spec fn utf8_error_text() -> Seq<char> {
    seq!['I', 'n', 'v', 'a', 'l', 'i', 'd', ' ', 'U', 'T', 'F', '-', '8']
}

impl KVStoreError {
    /// What a client is told of this failure.
    pub open spec fn spec_message(&self) -> Seq<char> {
        match self {
            KVStoreError::KeyNotFound => key_not_found_text(),
            KVStoreError::SledError(m) => m@,
            KVStoreError::ServerError(m) => m@,
            KVStoreError::CorruptRecord(m) => m@,
            KVStoreError::Utf8Error => utf8_error_text(),
            KVStoreError::IoError(m) => m@,
        }
    }

    /// The human-readable message of this failure.
    pub fn message(&self) -> (r: String)
        ensures
            r@ == self.spec_message(),
    {
        match self {
            KVStoreError::KeyNotFound => {
                let s = "Key not found";
                proof {
                    reveal_strlit("Key not found");
                }
                let r = s.to_owned();
                assert(r@ =~= key_not_found_text());
                r
            },
            KVStoreError::SledError(m) => m.clone(),
            KVStoreError::ServerError(m) => m.clone(),
            KVStoreError::CorruptRecord(m) => m.clone(),
            KVStoreError::IoError(m) => m.clone(),
            KVStoreError::Utf8Error => {
                let s = "Invalid UTF-8";
                proof {
                    reveal_strlit("Invalid UTF-8");
                }
                let r = s.to_owned();
                assert(r@ =~= utf8_error_text());
                r
            },
        }
    }
}

} // verus!
