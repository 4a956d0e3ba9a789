use vstd::prelude::*;

use crate::engine::Segment;
use crate::errors::{KVStoreError, Result};
use crate::protocol::{respond, Response};

verus! {

/// How many records of generation `g` are already on disk, by the first
/// entry for `g` in `written`; none where there is no entry.
pub open spec fn first_written(written: Seq<(u64, usize)>, g: u64) -> nat {
    if exists|j: int|
        0 <= j < written.len() && written[j].0 == g && forall|k: int|
            0 <= k < j ==> written[k].0 != g {
        let j = choose|j: int|
            0 <= j < written.len() && written[j].0 == g && forall|k: int|
                0 <= k < j ==> written[k].0 != g;
        written[j].1 as nat
    } else {
        0
    }
}

/// What makes the segment files mirror the store's segments. For segment
/// `i`, `appends[i]` is the first record not yet on disk; `deletes` names
/// the generations on disk that the store no longer holds. The appends are
/// to be written and flushed before any file is deleted.
pub struct SyncPlan {
    pub appends: Vec<usize>,
    pub deletes: Vec<u64>,
}

/// Plans the writes that bring the files, of which `written` gives each
/// generation with its record count, in line with `segments`.
pub fn sync_plan(written: &Vec<(u64, usize)>, segments: &Vec<Segment>) -> (p: SyncPlan)
    ensures
        p.appends@.len() == segments@.len(),
        forall|i: int|
            0 <= i < segments@.len() ==> #[trigger] p.appends@[i] as nat == if first_written(
                written@,
                segments@[i].gen,
            ) <= segments@[i].records@.len() {
                first_written(written@, segments@[i].gen)
            } else {
                segments@[i].records@.len()
            },
        forall|g: u64|
            p.deletes@.contains(g) <==> (exists|j: int|
                0 <= j < written@.len() && #[trigger] written@[j].0 == g) && (forall|i: int|
                0 <= i < segments@.len() ==> #[trigger] segments@[i].gen != g),
{
    let mut appends: Vec<usize> = Vec::new();
    let mut i: usize = 0;
    while i < segments.len()
        invariant
            i <= segments@.len(),
            appends@.len() == i,
            forall|a: int|
                0 <= a < i ==> #[trigger] appends@[a] as nat == if first_written(
                    written@,
                    segments@[a].gen,
                ) <= segments@[a].records@.len() {
                    first_written(written@, segments@[a].gen)
                } else {
                    segments@[a].records@.len()
                },
        decreases segments@.len() - i,
    {
        let g = segments[i].gen;
        let len = segments[i].records.len();
        let mut done: usize = 0;
        let mut found = false;
        let mut j: usize = 0;
        while j < written.len() && !found
            invariant
                j <= written@.len(),
                !found ==> forall|k: int| 0 <= k < j ==> written@[k].0 != g,
                !found ==> done == 0,
                found ==> done as nat == first_written(written@, g),
            decreases written@.len() - j,
        {
            if written[j].0 == g {
                done = written[j].1;
                found = true;
                proof {
                    let w = written@;
                    assert(0 <= j < w.len() && w[j as int].0 == g && forall|k: int|
                        0 <= k < j ==> w[k].0 != g);
                    let c = choose|c: int|
                        0 <= c < w.len() && w[c].0 == g && forall|k: int| 0 <= k < c ==> w[k].0 != g;
                    if c < j {
                    } else if c > j {
                        assert(w[j as int].0 != g);
                    }
                    assert(c == j);
                }
            }
            j = j + 1;
        }
        proof {
            if !found {
                assert(first_written(written@, g) == 0);
            }
        }
        let ghost fw = first_written(written@, g);
        assert(done as nat == fw);
        let ghost a0 = appends@;
        if done <= len {
            appends.push(done);
        } else {
            appends.push(len);
        }
        proof {
            assert(len as nat == segments@[i as int].records@.len());
            assert(appends@[i as int] as nat == if fw <= len as nat {
                fw
            } else {
                len as nat
            });
            assert forall|a: int| 0 <= a < i implies appends@[a] == a0[a] by {}
        }
        i = i + 1;
    }
    let mut deletes: Vec<u64> = Vec::new();
    let mut j: usize = 0;
    while j < written.len()
        invariant
            j <= written@.len(),
            forall|g: u64|
                deletes@.contains(g) <==> (exists|k: int| 0 <= k < j && #[trigger] written@[k].0 == g)
                    && (forall|i: int| 0 <= i < segments@.len() ==> #[trigger] segments@[i].gen != g),
        decreases written@.len() - j,
    {
        let g = written[j].0;
        let mut held = false;
        let mut i: usize = 0;
        while i < segments.len()
            invariant
                i <= segments@.len(),
                held <==> exists|a: int| 0 <= a < i && segments@[a].gen == g,
            decreases segments@.len() - i,
        {
            if segments[i].gen == g {
                held = true;
            }
            i = i + 1;
        }
        let ghost d0 = deletes@;
        if !held {
            deletes.push(g);
        }
        proof {
            let w = written@;
            assert forall|g2: u64|
                (exists|k: int| 0 <= k < j + 1 && #[trigger] w[k].0 == g2) && (forall|i: int|
                    0 <= i < segments@.len() ==> #[trigger] segments@[i].gen != g2) implies
                deletes@.contains(g2) by {
                let k = choose|k: int| 0 <= k < j + 1 && #[trigger] w[k].0 == g2;
                if k < j {
                    assert(exists|k2: int| 0 <= k2 < j && #[trigger] w[k2].0 == g2);
                    assert(d0.contains(g2));
                    let x = choose|x: int| 0 <= x < d0.len() && d0[x] == g2;
                    assert(deletes@[x] == g2);
                } else {
                    if held {
                        let a = choose|a: int| 0 <= a < segments@.len() && segments@[a].gen == g;
                        assert(segments@[a].gen != g2);
                    }
                    assert(deletes@[deletes@.len() - 1] == g2);
                }
            }
            assert forall|g2: u64| deletes@.contains(g2) implies (exists|k: int|
                0 <= k < j + 1 && #[trigger] w[k].0 == g2) && (forall|i: int|
                0 <= i < segments@.len() ==> #[trigger] segments@[i].gen != g2) by {
                let x = choose|x: int| 0 <= x < deletes@.len() && deletes@[x] == g2;
                if x < d0.len() {
                    assert(d0[x] == g2);
                    assert(d0.contains(g2));
                    let k = choose|k: int| 0 <= k < j && #[trigger] w[k].0 == g2;
                    assert(w[k].0 == g2);
                } else {
                    assert(g2 == g);
                    assert(w[j as int].0 == g2);
                    assert forall|i: int| 0 <= i < segments@.len() implies #[trigger] segments@[i].gen
                        != g2 by {
                        if segments@[i].gen == g2 {
                            assert(exists|a: int| 0 <= a < segments@.len() && segments@[a].gen == g);
                        }
                    }
                }
            }
        }
        j = j + 1;
    }
    SyncPlan { appends, deletes }
}

/// Whether an engine still serves requests, or has failed closed because
/// its files could not be brought in line with memory.
pub enum Health {
    Serving,
    Failed(String),
}

/// The step after a request was served in memory and the files were
/// synced: where the sync succeeded the engine keeps serving and the reply
/// stands; where it failed the engine fails closed and the client is told
/// the fault instead.
pub fn after_sync(reply: Response, synced: Result<()>) -> (out: (Health, Response))
    ensures
        synced is Ok ==> (out.0 is Serving) && out.1 == reply,
        synced matches Err(e) ==> (out.0 matches Health::Failed(m) && m@ == e.spec_message())
            && out.1.spec_parts() == (false, Some(e.spec_message())),
{
    match synced {
        Ok(()) => (Health::Serving, reply),
        Err(e) => {
            let m = e.message();
            let resp = respond(&Err(e));
            (Health::Failed(m), resp)
        },
    }
}

/// The reply of an engine that has failed closed: the fault it failed on,
/// as an I/O error.
pub fn failed_reply(message: &String) -> (resp: Response)
    ensures
        resp.spec_parts() == (false, Some(message@)),
{
    respond(&Err(KVStoreError::IoError(message.clone())))
}

} // verus!
