use vstd::prelude::*;

use crate::engine::{lookup, KvStore};
use crate::errors::{KVStoreError, Result};
use crate::protocol::{opt_view, respond, response_for, Request, Response};

verus! {

/// The operations that every storage engine offers to the server, stated
/// over the map from keys to values that the engine holds.
pub trait KvsEngine: Sized {
    /// What the engine needs to hold between calls.
    spec fn inv(&self) -> bool;

    /// The keys and values that the engine holds.
    spec fn contents(&self) -> Map<Seq<char>, Seq<char>>;

    /// The errors by which the engine reports a fault of its storage.
    spec fn is_fault(&self, e: KVStoreError) -> bool;

    /// Writes `value` under `key`; on success the key maps to the value and
    /// every other key is unchanged. A failure is a storage fault, never
    /// `KeyNotFound`, and the write then landed whole or not at all.
    fn set(&mut self, key: String, value: String) -> (r: Result<()>)
        requires
            old(self).inv(),
        ensures
            final(self).inv(),
            r is Ok ==> final(self).contents() == old(self).contents().insert(key@, value@),
            r matches Err(e) ==> old(self).is_fault(e) && !(e is KeyNotFound),
            r is Err ==> final(self).contents() == old(self).contents() || final(self).contents()
                == old(self).contents().insert(key@, value@),
    ;

    /// The value under `key`, if any; on success it is the stored value.
    fn get(&self, key: String) -> (r: Result<Option<String>>)
        requires
            self.inv(),
        ensures
            r matches Ok(v) ==> opt_view(v) == lookup(self.contents(), key@),
            r matches Err(e) ==> (self.is_fault(e) || e is Utf8Error) && !(e is KeyNotFound),
    ;

    /// Deletes `key`. It succeeds only where the key is present, and then
    /// deletes it; `KeyNotFound` means the key was absent and nothing changed.
    fn remove(&mut self, key: String) -> (r: Result<()>)
        requires
            old(self).inv(),
        ensures
            final(self).inv(),
            r is Ok ==> old(self).contents().contains_key(key@) && final(self).contents()
                == old(self).contents().remove(key@),
            (r matches Err(KVStoreError::KeyNotFound)) ==> !old(self).contents().contains_key(key@)
                && final(self).contents() == old(self).contents(),
            !old(self).contents().contains_key(key@) ==> r is Err,
            r matches Err(e) ==> old(self).is_fault(e) || e is KeyNotFound,
    ;
}

impl KvsEngine for KvStore {
    open spec fn inv(&self) -> bool {
        self.wf()
    }

    open spec fn contents(&self) -> Map<Seq<char>, Seq<char>> {
        self@
    }

    /// The in-memory log has no storage faults.
    open spec fn is_fault(&self, e: KVStoreError) -> bool {
        false
    }

    fn set(&mut self, key: String, value: String) -> (r: Result<()>) {
        KvStore::set(self, key, value);
        Ok(())
    }

    fn get(&self, key: String) -> (r: Result<Option<String>>) {
        Ok(KvStore::get(self, &key))
    }

    fn remove(&mut self, key: String) -> (r: Result<()>) {
        KvStore::remove(self, key)
    }
}

/// What one engine call that a request names may do: `r` is its result,
/// `m0` and `m1` the engine's contents before and after.
pub open spec fn executed<E: KvsEngine>(
    engine: E,
    m1: Map<Seq<char>, Seq<char>>,
    req: Request,
    r: Result<Option<String>>,
) -> bool {
    let m0 = engine.contents();
    match req {
        Request::GET(k) => m1 == m0 && (r matches Ok(v) ==> opt_view(v) == lookup(m0, k@)) && (
        r matches Err(e) ==> engine.is_fault(e) || e is Utf8Error),
        Request::SET(k, v) => (r is Ok ==> (r matches Ok(None)) && m1 == m0.insert(k@, v@)) && (
        r matches Err(e) ==> engine.is_fault(e) && (m1 == m0 || m1 == m0.insert(k@, v@))),
        Request::RM(k) => (r is Ok ==> (r matches Ok(None)) && m0.contains_key(k@) && m1
            == m0.remove(k@)) && ((r matches Err(KVStoreError::KeyNotFound)) ==> !m0.contains_key(
            k@,
        ) && m1 == m0) && (!m0.contains_key(k@) ==> r is Err) && (r matches Err(e)
            ==> engine.is_fault(e) || e is KeyNotFound),
    }
}

/// Makes the one engine call that a request names, and hands back its
/// result, with `Ok(())` read as "no value", together with the response
/// that reports it.
pub fn dispatch<E: KvsEngine>(engine: &mut E, req: Request) -> (out: (Result<Option<String>>, Response))
    requires
        old(engine).inv(),
    ensures
        final(engine).inv(),
        executed(*old(engine), final(engine).contents(), req, out.0),
        out.1.spec_parts() == response_for(out.0),
{
    let r = match req {
        Request::GET(k) => engine.get(k),
        Request::SET(k, v) => match engine.set(k, v) {
            Ok(()) => Ok(None),
            Err(e) => Err(e),
        },
        Request::RM(k) => match engine.remove(k) {
            Ok(()) => Ok(None),
            Err(e) => Err(e),
        },
    };
    let resp = respond(&r);
    (r, resp)
}

} // verus!
