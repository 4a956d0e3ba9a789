use vstd::prelude::*;

use crate::engine::{flat, lookup, replay, KvStore};
use crate::kvs_engine::KvsEngine;

verus! {

/// On any engine, reading a key right after writing it gives the value
/// written: `t` is the engine as a successful `set(k, v)` leaves `s`.
pub proof fn lemma_set_then_get<E: KvsEngine>(s: E, t: E, k: Seq<char>, v: Seq<char>)
    requires
        t.contents() == s.contents().insert(k, v),
    ensures
        lookup(t.contents(), k) == Some(v),
{
}

/// On any engine, after a key is removed a read finds nothing and the key
/// is absent, so a second removal fails: `t` is the engine as a successful
/// `remove(k)` leaves `s`.
pub proof fn lemma_remove_then_get<E: KvsEngine>(s: E, t: E, k: Seq<char>)
    requires
        t.contents() == s.contents().remove(k),
    ensures
        lookup(t.contents(), k) is None,
        !t.contents().contains_key(k),
{
}

/// On any engine, of two writes to one key the later one is what a read
/// sees: `t1` is the engine after `set(k, v1)` on `s`, `t2` after
/// `set(k, v2)` on `t1`.
pub proof fn lemma_last_write_wins<E: KvsEngine>(
    s: E,
    t1: E,
    t2: E,
    k: Seq<char>,
    v1: Seq<char>,
    v2: Seq<char>,
)
    requires
        t1.contents() == s.contents().insert(k, v1),
        t2.contents() == t1.contents().insert(k, v2),
    ensures
        lookup(t2.contents(), k) == Some(v2),
{
}

/// A store rebuilt by replaying the segments that another store has written
/// holds exactly the same keys and values: `t` is what `recover` gives on the
/// segments of `s`.
pub proof fn lemma_recovery_restores(s: KvStore, t: KvStore)
    requires
        s.wf(),
        t@ == replay(flat(s.spec_segments())),
    ensures
        t@ == s@,
{
    s.lemma_view_is_replay();
}

} // verus!
