use vstd::prelude::*;
use vstd::utf8::{decode_utf8, encode_utf8, valid_utf8};

use crate::errors::{KVStoreError, Result};
use crate::kvs_engine::KvsEngine;

verus! {

#[verifier::external_type_specification]
#[verifier::external_body]
pub struct ExSledDb(sled::Db);

#[verifier::external_type_specification]
#[verifier::external_body]
pub struct ExSledError(sled::Error);

/// An engine that keeps its data in an embedded sled database. The database
/// file is locked by sled, so this handle is the one owner of the tree.
pub struct SledKvStore {
    inner: sled::Db,
}

/// The entries of a sled database: the bytes of each key, with the bytes
/// stored under it.
pub uninterp spec fn sled_tree(db: sled::Db) -> Map<Seq<u8>, Seq<u8>>;

/// The text entries of a tree: each key whose UTF-8 bytes are stored, with
/// the characters of the bytes stored under it.
pub open spec fn text_view(tree: Map<Seq<u8>, Seq<u8>>) -> Map<Seq<char>, Seq<char>> {
    Map::new(
        |k: Seq<char>| tree.contains_key(encode_utf8(k)),
        |k: Seq<char>| decode_utf8(tree[encode_utf8(k)]),
    )
}

/// Relies on sled::open: opens, or creates, the database at `path`.
#[verifier::external_body]
fn sled_open(path: &str) -> (r: std::result::Result<sled::Db, sled::Error>) {
    sled::open(path)
}

/// Relies on sled::Tree::insert: on success the entry for the key's bytes
/// holds the value's bytes, and no other entry changes. A failure comes
/// either before the new entry is installed or after, never in between.
#[verifier::external_body]
fn sled_insert(db: &mut sled::Db, key: &str, value: &str) -> (r: std::result::Result<(), sled::Error>)
    ensures
        r is Ok ==> sled_tree(*final(db)) == sled_tree(*old(db)).insert(
            encode_utf8(key@),
            encode_utf8(value@),
        ),
        r is Err ==> sled_tree(*final(db)) == sled_tree(*old(db)) || sled_tree(*final(db))
            == sled_tree(*old(db)).insert(encode_utf8(key@), encode_utf8(value@)),
{
    db.insert(key.as_bytes(), value.as_bytes()).map(|_| ())
}

/// Relies on sled::Tree::get: the bytes stored under the key's bytes, or
/// `None` where there is no such entry.
#[verifier::external_body]
fn sled_get(db: &sled::Db, key: &str) -> (r: std::result::Result<Option<Vec<u8>>, sled::Error>)
    ensures
        r matches Ok(o) ==> (o is Some <==> sled_tree(*db).contains_key(encode_utf8(key@))),
        r matches Ok(Some(b)) ==> b@ == sled_tree(*db)[encode_utf8(key@)],
{
    db.get(key.as_bytes()).map(|o| o.map(|v| v.to_vec()))
}

/// Relies on sled::Tree::remove: deletes the entry for the key's bytes,
/// handing back the bytes it held, or `None` where there was no entry.
#[verifier::external_body]
fn sled_remove(db: &mut sled::Db, key: &str) -> (r: std::result::Result<Option<Vec<u8>>, sled::Error>)
    ensures
        r matches Ok(o) ==> (o is Some <==> sled_tree(*old(db)).contains_key(encode_utf8(key@))),
        r matches Ok(Some(b)) ==> b@ == sled_tree(*old(db))[encode_utf8(key@)],
        r is Ok ==> sled_tree(*final(db)) == sled_tree(*old(db)).remove(encode_utf8(key@)),
{
    db.remove(key.as_bytes()).map(|o| o.map(|v| v.to_vec()))
}

/// Relies on sled::Tree::flush: writes the dirty buffers to disk.
#[verifier::external_body]
fn sled_flush(db: &sled::Db) -> (r: std::result::Result<(), sled::Error>) {
    db.flush().map(|_| ())
}

/// Relies on the `Display` impl of sled::Error for its message.
#[verifier::external_body]
fn sled_error_message(e: &sled::Error) -> (r: String) {
    e.to_string()
}

/// Relies on String::from_utf8: succeeds exactly on valid UTF-8, whose
/// characters it keeps.
#[verifier::external_body]
fn utf8_string(b: Vec<u8>) -> (r: Option<String>)
    ensures
        r is Some <==> valid_utf8(b@),
        r matches Some(s) ==> s@ == decode_utf8(b@),
{
    String::from_utf8(b).ok()
}

/// Writing the UTF-8 bytes of a value under the UTF-8 bytes of a key writes
/// that value under that key in the text view, and nothing else.
proof fn lemma_text_insert(t: Map<Seq<u8>, Seq<u8>>, k: Seq<char>, v: Seq<char>)
    ensures
        text_view(t.insert(encode_utf8(k), encode_utf8(v))) == text_view(t).insert(k, v),
{
    broadcast use vstd::utf8::encode_utf8_decode_utf8;

    assert forall|k2: Seq<char>| encode_utf8(k2) == encode_utf8(k) implies k2 == k by {
        assert(decode_utf8(encode_utf8(k2)) == k2);
    }
    assert(text_view(t.insert(encode_utf8(k), encode_utf8(v))) =~= text_view(t).insert(k, v));
}

/// Deleting the UTF-8 bytes of a key deletes that key in the text view, and
/// nothing else.
proof fn lemma_text_remove(t: Map<Seq<u8>, Seq<u8>>, k: Seq<char>)
    ensures
        text_view(t.remove(encode_utf8(k))) == text_view(t).remove(k),
{
    broadcast use vstd::utf8::encode_utf8_decode_utf8;

    assert forall|k2: Seq<char>| encode_utf8(k2) == encode_utf8(k) implies k2 == k by {
        assert(decode_utf8(encode_utf8(k2)) == k2);
    }
    assert(text_view(t.remove(encode_utf8(k))) =~= text_view(t).remove(k));
}

/// A storage fault, carrying the library's message.
fn sled_failure(e: sled::Error) -> (r: KVStoreError)
    ensures
        r is SledError,
{
    KVStoreError::SledError(sled_error_message(&e))
}

/// The value that stored bytes stand for: their characters where they are
/// valid UTF-8, else `Utf8Error`.
pub fn decode_value(found: Option<Vec<u8>>) -> (r: Result<Option<String>>)
    ensures
        found is None ==> r matches Ok(None),
        found matches Some(b) ==> (valid_utf8(b@) <==> r is Ok),
        found matches Some(b) ==> (r matches Ok(v) ==> (v matches Some(s) && s@ == decode_utf8(
            b@,
        ))),
        found is Some ==> (r matches Err(e) ==> e is Utf8Error),
{
    match found {
        None => Ok(None),
        Some(b) => match utf8_string(b) {
            Some(s) => Ok(Some(s)),
            None => Err(KVStoreError::Utf8Error),
        },
    }
}

/// The outcome of a removal from what the database reported: `KeyNotFound`
/// where no entry was there, else the outcome of the flush that follows.
pub fn removal_result(found: bool, flushed: std::result::Result<(), sled::Error>) -> (r: Result<()>)
    ensures
        !found ==> (r matches Err(KVStoreError::KeyNotFound)),
        found ==> (r is Ok <==> flushed is Ok),
        found ==> (r matches Err(e) ==> e is SledError),
{
    if !found {
        Err(KVStoreError::KeyNotFound)
    } else {
        match flushed {
            Ok(()) => Ok(()),
            Err(e) => Err(sled_failure(e)),
        }
    }
}

impl SledKvStore {
    /// Opens the sled database at `path`; a storage fault becomes a
    /// `SledError`.
    pub fn open(path: &str) -> (r: Result<SledKvStore>)
        ensures
            r matches Err(e) ==> e is SledError,
    {
        match sled_open(path) {
            Ok(inner) => Ok(SledKvStore { inner }),
            Err(e) => Err(sled_failure(e)),
        }
    }
}

impl View for SledKvStore {
    type V = Map<Seq<char>, Seq<char>>;

    closed spec fn view(&self) -> Map<Seq<char>, Seq<char>> {
        text_view(sled_tree(self.inner))
    }
}

impl KvsEngine for SledKvStore {
    open spec fn inv(&self) -> bool {
        true
    }

    open spec fn contents(&self) -> Map<Seq<char>, Seq<char>> {
        self@
    }

    /// Every fault of the database comes back as `SledError`.
    open spec fn is_fault(&self, e: KVStoreError) -> bool {
        e is SledError
    }

    /// Inserts, then flushes, so that a success is durable.
    fn set(&mut self, key: String, value: String) -> (r: Result<()>) {
        proof {
            lemma_text_insert(sled_tree(self.inner), key@, value@);
        }
        match sled_insert(&mut self.inner, key.as_str(), value.as_str()) {
            Ok(()) => match sled_flush(&self.inner) {
                Ok(()) => Ok(()),
                Err(e) => Err(sled_failure(e)),
            },
            Err(e) => Err(sled_failure(e)),
        }
    }

    fn get(&self, key: String) -> (r: Result<Option<String>>) {
        match sled_get(&self.inner, key.as_str()) {
            Ok(found) => decode_value(found),
            Err(e) => Err(sled_failure(e)),
        }
    }

    fn remove(&mut self, key: String) -> (r: Result<()>) {
        proof {
            lemma_text_remove(sled_tree(self.inner), key@);
        }
        match sled_remove(&mut self.inner, key.as_str()) {
            Ok(found) => removal_result(found.is_some(), sled_flush(&self.inner)),
            Err(e) => Err(sled_failure(e)),
        }
    }
}

} // verus!
