use vstd::prelude::*;

use crate::errors::{key_not_found_text, KVStoreError};
use crate::protocol::{respond, Request, Response};

verus! {

/// One record of the log: a write of a value, or a tombstone that deletes
/// the key.
#[derive(Clone, Debug, PartialEq, Eq)]
pub enum Command {
    Put(String, String),
    Rm(String),
}

/// A record as the log reads it: its key, and its value or `None` for a
/// tombstone.
pub type Record = (Seq<char>, Option<Seq<char>>);

impl View for Command {
    type V = Record;

    open spec fn view(&self) -> Record {
        match self {
            Command::Put(k, v) => (k@, Some(v@)),
            Command::Rm(k) => (k@, None),
        }
    }
}

impl Command {
    /// The key that this record is about.
    pub fn key(&self) -> (r: &String)
        ensures
            r@ == self@.0,
    {
        match self {
            Command::Put(k, _) => k,
            Command::Rm(k) => k,
        }
    }

    /// A copy of this record.
    pub fn duplicate(&self) -> (r: Command)
        ensures
            r@ == self@,
    {
        match self {
            Command::Put(k, v) => Command::Put(k.clone(), v.clone()),
            Command::Rm(k) => Command::Rm(k.clone()),
        }
    }

    /// The bytes of key and value that this record takes up in a segment.
    fn byte_len(&self) -> u64 {
        match self {
            Command::Put(k, v) => (k.as_str().len() as u64).saturating_add(v.as_str().len() as u64),
            Command::Rm(k) => k.as_str().len() as u64,
        }
    }
}

/// The effect of one record on the contents of the store.
pub open spec fn apply(m: Map<Seq<char>, Seq<char>>, r: Record) -> Map<Seq<char>, Seq<char>> {
    match r.1 {
        Some(v) => m.insert(r.0, v),
        None => m.remove(r.0),
    }
}

/// The contents that replaying a log from an empty store gives: the last
/// record of each key wins, and a tombstone deletes.
pub open spec fn replay(log: Seq<Record>) -> Map<Seq<char>, Seq<char>>
    decreases log.len(),
{
    if log.len() == 0 {
        Map::empty()
    } else {
        apply(replay(log.drop_last()), log.last())
    }
}

/// An append-only run of records, with its generation number.
#[derive(Clone, Debug)]
pub struct Segment {
    pub gen: u64,
    pub records: Vec<Command>,
}

/// The records of one segment, in order.
pub open spec fn records_log(records: Seq<Command>) -> Seq<Record> {
    records.map_values(|c: Command| c@)
}

/// The whole log: the records of every segment, in generation order.
pub open spec fn flat(segs: Seq<Segment>) -> Seq<Record>
    decreases segs.len(),
{
    if segs.len() == 0 {
        Seq::empty()
    } else {
        flat(segs.drop_last()) + records_log(segs.last().records@)
    }
}

/// Generations strictly increase from the first segment to the last.
pub open spec fn gens_increasing(segs: Seq<Segment>) -> bool {
    forall|i: int, j: int| 0 <= i < j < segs.len() ==> #[trigger] segs[i].gen < #[trigger] segs[j].gen
}

/// Where the live record of a key stands: a segment and a position in it.
struct IndexEntry {
    key: String,
    seg: usize,
    pos: usize,
}

/// The index entry `e` points at a record that writes `v` to its key.
spec fn points_to(segs: Seq<Segment>, e: IndexEntry, v: Seq<char>) -> bool {
    &&& e.seg < segs.len()
    &&& e.pos < segs[e.seg as int].records@.len()
    &&& segs[e.seg as int].records@[e.pos as int]@ == (e.key@, Some(v))
}

/// Bytes after which the active segment is closed and a new one opened.
pub const SEGMENT_THRESHOLD: u64 = 1024 * 1024;

/// Stale bytes after which the log is compacted.
pub const COMPACTION_THRESHOLD: u64 = 1024 * 1024;

/// The log-structured engine: an append-only log of segments, of which the
/// last is the active one, and an index from each live key to its latest
/// record.
pub struct KvStore {
    segments: Vec<Segment>,
    index: Vec<IndexEntry>,
    active_bytes: u64,
    stale_bytes: u64,
    contents: Ghost<Map<Seq<char>, Seq<char>>>,
    stale_records: Ghost<nat>,
}

impl View for KvStore {
    type V = Map<Seq<char>, Seq<char>>;

    closed spec fn view(&self) -> Map<Seq<char>, Seq<char>> {
        self.contents@
    }
}

impl KvStore {
    /// The segments of the store, oldest first; the last is the active one.
    pub closed spec fn spec_segments(&self) -> Seq<Segment> {
        self.segments@
    }

    /// Every record of the store, in the order written.
    pub open spec fn log(&self) -> Seq<Record> {
        flat(self.spec_segments())
    }

    /// The number of records that the segments hold.
    pub open spec fn record_count(&self) -> nat {
        self.log().len()
    }

    /// The bytes of records that a newer record or a tombstone has made
    /// stale since the last compaction.
    pub closed spec fn spec_stale_bytes(&self) -> u64 {
        self.stale_bytes
    }

    /// Whether enough stale bytes have piled up for a compaction.
    pub open spec fn needs_compaction(&self) -> bool {
        self.spec_stale_bytes() > COMPACTION_THRESHOLD
    }

    /// The stale byte count, saturating at its largest value.
    pub fn stale_bytes(&self) -> (r: u64)
        ensures
            r == self.spec_stale_bytes(),
    {
        self.stale_bytes
    }

    /// The invariant of the store: the index points at the live record of
    /// each key, holds each key once, and the contents are the replay of
    /// the log.
    pub closed spec fn wf(&self) -> bool {
        let segs = self.segments@;
        let idx = self.index@;
        let m = self.contents@;
        &&& segs.len() > 0
        &&& gens_increasing(segs)
        &&& forall|i: int|
            0 <= i < idx.len() ==> m.contains_key(#[trigger] idx[i].key@) && points_to(
                segs,
                idx[i],
                m[idx[i].key@],
            )
        &&& forall|i: int, j: int|
            0 <= i < idx.len() && 0 <= j < idx.len() && i != j ==> #[trigger] idx[i].key@
                != #[trigger] idx[j].key@
        &&& forall|k: Seq<char>|
            #[trigger] m.contains_key(k) ==> exists|i: int| 0 <= i < idx.len() && idx[i].key@ == k
        &&& m == replay(flat(segs))
        &&& flat(segs).len() == idx.len() + self.stale_records@
        &&& self.stale_bytes > 0 ==> self.stale_records@ > 0
    }

    /// An empty store with one empty active segment.
    pub fn new() -> (s: KvStore)
        ensures
            s.wf(),
            s@ == Map::<Seq<char>, Seq<char>>::empty(),
            s.spec_segments().len() == 1,
    {
        let mut segments: Vec<Segment> = Vec::new();
        segments.push(Segment { gen: 0, records: Vec::new() });
        let s = KvStore {
            segments,
            index: Vec::new(),
            active_bytes: 0,
            stale_bytes: 0,
            contents: Ghost(Map::empty()),
            stale_records: Ghost(0),
        };
        assert(flat(s.segments@.drop_last()) =~= Seq::<Record>::empty());
        assert(records_log(s.segments@.last().records@) =~= Seq::<Record>::empty());
        assert(flat(s.segments@) =~= Seq::<Record>::empty());
        s
    }

    /// The position in the index of the entry for `key`, if there is one.
    fn find(&self, key: &String) -> (r: Option<usize>)
        ensures
            r matches Some(i) ==> i < self.index@.len() && self.index@[i as int].key@ == key@,
            r is None ==> forall|i: int| 0 <= i < self.index@.len() ==> self.index@[i].key@ != key@,
    {
        let mut i: usize = 0;
        while i < self.index.len()
            invariant
                i <= self.index@.len(),
                forall|j: int| 0 <= j < i ==> self.index@[j].key@ != key@,
            decreases self.index@.len() - i,
        {
            if self.index[i].key == *key {
                return Some(i);
            }
            i = i + 1;
        }
        None
    }
}

impl KvStore {
    /// Appends one record to the active segment and brings the index, the
    /// contents and the stale counters up to date.
    fn append(&mut self, cmd: Command)
        requires
            old(self).wf(),
        ensures
            final(self).wf(),
            final(self)@ == apply(old(self)@, cmd@),
            final(self).log() == old(self).log().push(cmd@),
            final(self).segments@.len() == old(self).segments@.len(),
            forall|j: int|
                0 <= j < old(self).segments@.len() ==> #[trigger] final(self).segments@[j].gen
                    == old(self).segments@[j].gen,
    {
        let ghost old_self = *self;
        let ghost m = self.contents@;
        let last = self.segments.len() - 1;
        let pos = self.segments[last].records.len();
        let size = cmd.byte_len();
        let found = self.find(cmd.key());
        let is_put = match &cmd {
            Command::Put(_, _) => true,
            Command::Rm(_) => false,
        };
        if let Some(i) = found {
            let e = self.index.remove(i);
            let old_size = self.segments[e.seg].records[e.pos].byte_len();
            self.stale_bytes = self.stale_bytes.saturating_add(old_size);
            if is_put {
                self.stale_records = Ghost(self.stale_records@ + 1);
            } else {
                self.stale_bytes = self.stale_bytes.saturating_add(size);
                self.stale_records = Ghost(self.stale_records@ + 2);
            }
        } else if !is_put {
            self.stale_bytes = self.stale_bytes.saturating_add(size);
            self.stale_records = Ghost(self.stale_records@ + 1);
        }
        if is_put {
            let key = cmd.key().clone();
            self.index.push(IndexEntry { key, seg: last, pos });
        }
        self.active_bytes = self.active_bytes.saturating_add(size);
        self.contents = Ghost(apply(m, cmd@));
        let ghost c = cmd;
        let mut seg = self.segments.pop().unwrap();
        seg.records.push(cmd);
        self.segments.push(seg);
        proof {
            let segs0 = old_self.segments@;
            let segs = self.segments@;
            lemma_flat_push_record(segs0, seg, c);
            assert(segs =~= segs0.drop_last().push(seg));
            lemma_replay_push(flat(segs0), c@);
            assert forall|j: int| 0 <= j < segs0.len() implies #[trigger] segs[j].gen == segs0[j].gen by {}
            // every entry that stays points where it did, at a record that
            // the push left in place
            assert forall|e: IndexEntry, v: Seq<char>| points_to(segs0, e, v) implies points_to(segs, e, v) by {
                if e.seg == last {
                    assert(segs[e.seg as int].records@ == segs0[e.seg as int].records@.push(c));
                } else {
                    assert(segs[e.seg as int] == segs0[e.seg as int]);
                }
            }
            let idx = self.index@;
            let k = c@.0;
            assert forall|i: int| 0 <= i < idx.len() implies self.contents@.contains_key(#[trigger] idx[i].key@)
                && points_to(segs, idx[i], self.contents@[idx[i].key@]) by {
                if is_put && i == idx.len() - 1 {
                    assert(segs[last as int].records@[pos as int] == c);
                } else {
                    let i0 = if found is Some && i >= found->0 { i + 1 } else { i };
                    assert(idx[i] == old_self.index@[i0]);
                    assert(idx[i].key@ != k);
                }
            }
            assert forall|k2: Seq<char>| #[trigger] self.contents@.contains_key(k2)
                implies exists|i: int| 0 <= i < idx.len() && idx[i].key@ == k2 by {
                if k2 == k {
                    assert(idx[idx.len() - 1].key@ == k2);
                } else {
                    let i0 = choose|i: int| 0 <= i < old_self.index@.len() && old_self.index@[i].key@ == k2;
                    if found is Some && i0 > found->0 {
                        assert(idx[i0 - 1].key@ == k2);
                    } else {
                        assert(idx[i0].key@ == k2);
                    }
                }
            }
        }
    }
}

/// The value that a map holds for a key, if any.
pub open spec fn lookup(m: Map<Seq<char>, Seq<char>>, k: Seq<char>) -> Option<Seq<char>> {
    if m.contains_key(k) {
        Some(m[k])
    } else {
        None
    }
}

impl KvStore {
    /// Closes the active segment and opens an empty one of generation `gen`.
    fn open_segment(&mut self, gen: u64)
        requires
            old(self).wf(),
            gen > old(self).segments@.last().gen,
        ensures
            final(self).wf(),
            final(self)@ == old(self)@,
            final(self).log() == old(self).log(),
            final(self).segments@ == old(self).segments@.push(
                Segment { gen, records: final(self).segments@.last().records },
            ),
            final(self).segments@.last().records@.len() == 0,
    {
        let ghost segs0 = self.segments@;
        self.segments.push(Segment { gen, records: Vec::new() });
        self.active_bytes = 0;
        proof {
            let segs = self.segments@;
            assert(segs.drop_last() =~= segs0);
            assert(records_log(segs.last().records@) =~= Seq::<Record>::empty());
            assert(flat(segs) =~= flat(segs0));
            let idx = self.index@;
            let m = self.contents@;
            assert forall|i: int| 0 <= i < idx.len() implies points_to(
                segs,
                #[trigger] idx[i],
                m[idx[i].key@],
            ) by {
                assert(points_to(segs0, idx[i], m[idx[i].key@]));
                assert(segs[idx[i].seg as int] == segs0[idx[i].seg as int]);
            }
            assert forall|i: int, j: int| 0 <= i < j < segs.len() implies #[trigger] segs[i].gen
                < #[trigger] segs[j].gen by {
                if j < segs0.len() {
                    assert(segs0[i].gen < segs0[j].gen);
                } else if i < segs0.len() - 1 {
                    assert(segs0[i].gen < segs0[segs0.len() - 1].gen);
                }
            }
        }
    }

    /// Opens a new active segment once the active one has grown past the
    /// segment threshold, while a next generation number is left.
    fn roll_over(&mut self)
        requires
            old(self).wf(),
        ensures
            final(self).wf(),
            final(self)@ == old(self)@,
            final(self).log() == old(self).log(),
    {
        let last = self.segments.len() - 1;
        let gen = self.segments[last].gen;
        if self.active_bytes >= SEGMENT_THRESHOLD && gen < u64::MAX {
            self.open_segment(gen + 1);
        }
    }

    /// Rewrites the log as one fresh segment that holds only the live record
    /// of each key, in a new generation. The contents do not change; the
    /// number of records shrinks whenever stale records were left. Where no
    /// generation number is left, the log is kept as it is.
    pub fn compact(&mut self)
        requires
            old(self).wf(),
        ensures
            final(self).wf(),
            final(self)@ == old(self)@,
            final(self).record_count() <= old(self).record_count(),
            old(self).needs_compaction() && old(self).spec_segments().last().gen < u64::MAX
                ==> final(self).record_count() < old(self).record_count(),
    {
        let last = self.segments.len() - 1;
        let gen = self.segments[last].gen;
        if gen == u64::MAX {
            return ;
        }
        let ghost m = self.contents@;
        let mut records: Vec<Command> = Vec::new();
        let mut index: Vec<IndexEntry> = Vec::new();
        let mut bytes: u64 = 0;
        let mut i: usize = 0;
        while i < self.index.len()
            invariant
                self.wf(),
                m == self.contents@,
                i <= self.index@.len(),
                records@.len() == i,
                index@.len() == i,
                forall|j: int|
                    0 <= j < i ==> #[trigger] records@[j]@ == (
                        self.index@[j].key@,
                        Some(m[self.index@[j].key@]),
                    ),
                forall|j: int|
                    0 <= j < i ==> #[trigger] index@[j].key@ == self.index@[j].key@ && index@[j].seg
                        == 0 && index@[j].pos == j,
                forall|j: int|
                    0 <= j < i ==> replay(records_log(records@)).contains_key(
                        #[trigger] self.index@[j].key@,
                    ) && replay(records_log(records@))[self.index@[j].key@] == m[self.index@[j].key@],
                forall|k: Seq<char>|
                    #[trigger] replay(records_log(records@)).contains_key(k) ==> exists|j: int|
                        0 <= j < i && self.index@[j].key@ == k,
            decreases self.index@.len() - i,
        {
            let e = &self.index[i];
            assert(points_to(self.segments@, self.index@[i as int], m[self.index@[i as int].key@]));
            let c = self.segments[e.seg].records[e.pos].duplicate();
            bytes = bytes.saturating_add(c.byte_len());
            let ghost r0 = records@;
            proof {
                assert(self.index@[i as int].key@ == e.key@);
                assert(c@ == (e.key@, Some(m[e.key@])));
                assert(records_log(r0.push(c)) =~= records_log(r0).push(c@));
                lemma_replay_push(records_log(r0), c@);
            }
            records.push(c);
            index.push(IndexEntry { key: e.key.clone(), seg: 0, pos: i });
            proof {
                let rp = replay(records_log(records@));
                assert forall|k: Seq<char>| #[trigger] rp.contains_key(k) implies exists|j: int|
                    0 <= j < i + 1 && self.index@[j].key@ == k by {
                    if k != self.index@[i as int].key@ {
                        let j0 = choose|j: int|
                            0 <= j < i && self.index@[j].key@ == k;
                        assert(self.index@[j0].key@ == k);
                    }
                }
                assert forall|j: int| 0 <= j < i + 1 implies rp.contains_key(
                    #[trigger] self.index@[j].key@,
                ) && rp[self.index@[j].key@] == m[self.index@[j].key@] by {
                    if j < i {
                        assert(self.index@[j].key@ != self.index@[i as int].key@);
                    }
                }
            }
            i = i + 1;
        }
        let ghost old_self = *self;
        let mut segments: Vec<Segment> = Vec::new();
        segments.push(Segment { gen: gen + 1, records });
        self.segments = segments;
        self.index = index;
        self.active_bytes = bytes;
        self.stale_bytes = 0;
        self.stale_records = Ghost(0);
        proof {
            let segs = self.segments@;
            assert(segs.drop_last() =~= Seq::<Segment>::empty());
            assert(flat(segs.drop_last()) =~= Seq::<Record>::empty());
            assert(flat(segs) =~= records_log(segs[0].records@));
            let rp = replay(flat(segs));
            let old_idx = old_self.index@;
            assert forall|k: Seq<char>| #[trigger] m.contains_key(k) implies rp.contains_key(k)
                && exists|j: int| 0 <= j < self.index@.len() && self.index@[j].key@ == k by {
                assert(old_self.contents@.contains_key(k));
                let j = choose|j: int| 0 <= j < old_idx.len() && old_idx[j].key@ == k;
                assert(old_idx[j].key@ == k);
                assert(self.index@[j].key@ == k);
            }
            assert(rp =~= m);
            assert forall|i: int, j: int|
                0 <= i < self.index@.len() && 0 <= j < self.index@.len() && i != j implies
                #[trigger] self.index@[i].key@ != #[trigger] self.index@[j].key@ by {
                assert(old_idx[i].key@ != old_idx[j].key@);
            }
        }
    }

    /// Writes `value` under `key`, replacing any value that it had.
    pub fn set(&mut self, key: String, value: String)
        requires
            old(self).wf(),
        ensures
            final(self).wf(),
            final(self)@ == old(self)@.insert(key@, value@),
    {
        self.append(Command::Put(key, value));
        self.roll_over();
        if self.stale_bytes > COMPACTION_THRESHOLD {
            self.compact();
        }
    }

    /// The value stored under `key`, if any.
    pub fn get(&self, key: &String) -> (r: Option<String>)
        requires
            self.wf(),
        ensures
            crate::protocol::opt_view(r) == lookup(self@, key@),
    {
        match self.find(key) {
            None => None,
            Some(i) => {
                let e = &self.index[i];
                match &self.segments[e.seg].records[e.pos] {
                    Command::Put(_, v) => Some(v.clone()),
                    Command::Rm(_) => None,
                }
            },
        }
    }

    /// Deletes `key` by appending a tombstone; fails with `KeyNotFound`,
    /// leaving the store as it was, where the key is not present.
    pub fn remove(&mut self, key: String) -> (r: Result<(), KVStoreError>)
        requires
            old(self).wf(),
        ensures
            final(self).wf(),
            r is Ok <==> old(self)@.contains_key(key@),
            r is Ok ==> final(self)@ == old(self)@.remove(key@),
            r is Err ==> (r matches Err(KVStoreError::KeyNotFound)) && final(self)@ == old(self)@,
    {
        match self.find(&key) {
            None => {
                proof {
                    if self@.contains_key(key@) {
                        let i = choose|i: int| 0 <= i < self.index@.len() && self.index@[i].key@ == key@;
                        assert(self.index@[i].key@ == key@);
                    }
                }
                Err(KVStoreError::KeyNotFound)
            },
            Some(_) => {
                self.append(Command::Rm(key));
                self.roll_over();
                if self.stale_bytes > COMPACTION_THRESHOLD {
                    self.compact();
                }
                Ok(())
            },
        }
    }
}

impl KvStore {
    /// The segments of the store, oldest first, for writing them out.
    pub fn segments(&self) -> (r: &Vec<Segment>)
        ensures
            r@ == self.spec_segments(),
    {
        &self.segments
    }

    /// Rebuilds a store from the segments found on disk, given in generation
    /// order: every record is replayed into the index, later ones over
    /// earlier ones, and the last segment becomes the active one. Fails with
    /// `CorruptRecord` where the generations do not strictly increase.
    pub fn recover(segments: Vec<Segment>) -> (r: Result<KvStore, KVStoreError>)
        ensures
            r is Ok <==> gens_increasing(segments@),
            r matches Ok(s) ==> s.wf() && s@ == replay(flat(segments@)) && (segments@.len() > 0
                ==> s.log() == flat(segments@)),
            r matches Err(e) ==> e is CorruptRecord,
    {
        let n = segments.len();
        let mut i: usize = 1;
        while i < n
            invariant
                n == segments@.len(),
                1 <= i,
                forall|a: int, b: int|
                    0 <= a < b < i && b < n ==> #[trigger] segments@[a].gen
                        < #[trigger] segments@[b].gen,
            decreases n - i,
        {
            if segments[i - 1].gen >= segments[i].gen {
                return Err(KVStoreError::CorruptRecord("segment generations out of order".to_owned()));
            }
            proof {
                assert forall|a: int, b: int| 0 <= a < b < i + 1 && b < n implies
                    #[trigger] segments@[a].gen < #[trigger] segments@[b].gen by {
                    if b == i && a < i - 1 {
                        assert(segments@[a].gen < segments@[i - 1].gen);
                    }
                }
            }
            i = i + 1;
        }
        assert(gens_increasing(segments@));
        if n == 0 {
            let s = KvStore::new();
            assert(flat(segments@) =~= Seq::<Record>::empty());
            return Ok(s);
        }
        let mut first: Vec<Segment> = Vec::new();
        first.push(Segment { gen: segments[0].gen, records: Vec::new() });
        let mut s = KvStore {
            segments: first,
            index: Vec::new(),
            active_bytes: 0,
            stale_bytes: 0,
            contents: Ghost(Map::empty()),
            stale_records: Ghost(0),
        };
        assert(flat(s.segments@.drop_last()) =~= Seq::<Record>::empty());
        assert(records_log(s.segments@.last().records@) =~= Seq::<Record>::empty());
        assert(flat(s.segments@) =~= Seq::<Record>::empty());
        assert(segments@.take(0) =~= Seq::<Segment>::empty());
        let mut si: usize = 0;
        while si < n
            invariant
                n == segments@.len(),
                n > 0,
                gens_increasing(segments@),
                si <= n,
                s.wf(),
                s@ == replay(s.log()),
                si < n ==> s.segments@.len() == si + 1 && s.log() == flat(segments@.take(si as int))
                    && s.segments@.last().gen == segments@[si as int].gen,
                si == n ==> s.log() == flat(segments@),
            decreases n - si,
        {
            let seg = &segments[si];
            let m = seg.records.len();
            let mut ri: usize = 0;
            assert(seg.records@.take(0) =~= Seq::<Command>::empty());
            assert(records_log(seg.records@.take(0)) =~= Seq::<Record>::empty());
            assert(s.log() =~= flat(segments@.take(si as int)) + records_log(seg.records@.take(0)));
            while ri < m
                invariant
                    m == seg.records@.len(),
                    ri <= m,
                    s.wf(),
                    s@ == replay(s.log()),
                    s.segments@.len() == si + 1,
                    s.segments@.last().gen == seg.gen,
                    s.log() == flat(segments@.take(si as int)) + records_log(
                        seg.records@.take(ri as int),
                    ),
                decreases m - ri,
            {
                let c = seg.records[ri].duplicate();
                let ghost log0 = s.log();
                s.append(c);
                proof {
                    lemma_replay_push(log0, c@);
                    assert(seg.records@.take(ri + 1) =~= seg.records@.take(ri as int).push(
                        seg.records@[ri as int],
                    ));
                    assert(records_log(seg.records@.take(ri + 1)) =~= records_log(
                        seg.records@.take(ri as int),
                    ).push(c@));
                    assert(s.log() =~= flat(segments@.take(si as int)) + records_log(
                        seg.records@.take(ri + 1),
                    ));
                }
                ri = ri + 1;
            }
            proof {
                let t = segments@.take(si + 1);
                assert(t.drop_last() =~= segments@.take(si as int));
                assert(seg.records@.take(m as int) =~= seg.records@);
                assert(s.log() == flat(t));
                if si + 1 == n {
                    assert(t =~= segments@);
                }
            }
            if si + 1 < n {
                proof {
                    assert(segments@[si as int].gen < segments@[si + 1].gen);
                }
                s.open_segment(segments[si + 1].gen);
            }
            si = si + 1;
        }
        Ok(s)
    }

    /// Serves one request against the store and builds its response.
    pub fn handle(&mut self, req: Request) -> (resp: Response)
        requires
            old(self).wf(),
        ensures
            final(self).wf(),
            match req {
                Request::GET(k) => final(self)@ == old(self)@ && resp.spec_parts() == (
                    true,
                    lookup(old(self)@, k@),
                ),
                Request::SET(k, v) => final(self)@ == old(self)@.insert(k@, v@)
                    && resp.spec_parts() == (true, None::<Seq<char>>),
                Request::RM(k) => if old(self)@.contains_key(k@) {
                    final(self)@ == old(self)@.remove(k@) && resp.spec_parts() == (
                        true,
                        None::<Seq<char>>,
                    )
                } else {
                    final(self)@ == old(self)@ && resp.spec_parts() == (
                        false,
                        Some(key_not_found_text()),
                    )
                },
            },
    {
        match req {
            Request::GET(k) => respond(&Ok(self.get(&k))),
            Request::SET(k, v) => {
                self.set(k, v);
                respond(&Ok(None))
            },
            Request::RM(k) => match self.remove(k) {
                Ok(()) => respond(&Ok(None)),
                Err(e) => respond(&Err(e)),
            },
        }
    }
}

impl KvStore {
    /// The contents of a well-formed store are the replay of its log.
    pub proof fn lemma_view_is_replay(&self)
        requires
            self.wf(),
        ensures
            self@ == replay(self.log()),
    {
    }

    /// The segments of a well-formed store carry strictly increasing
    /// generations, so listing them by generation gives the log's order.
    pub proof fn lemma_generations_increase(&self)
        requires
            self.wf(),
        ensures
            gens_increasing(self.spec_segments()),
            self.spec_segments().len() > 0,
    {
    }
}

proof fn lemma_flat_push_record(segs: Seq<Segment>, seg: Segment, c: Command)
    requires
        segs.len() > 0,
        seg.records@ == segs.last().records@.push(c),
    ensures
        flat(segs.drop_last().push(seg)) == flat(segs).push(c@),
{
    let s2 = segs.drop_last().push(seg);
    assert(s2.drop_last() =~= segs.drop_last());
    assert(records_log(seg.records@) =~= records_log(segs.last().records@).push(c@));
    assert(flat(s2) =~= flat(segs).push(c@));
}

proof fn lemma_replay_push(log: Seq<Record>, r: Record)
    ensures
        replay(log.push(r)) == apply(replay(log), r),
{
    assert(log.push(r).drop_last() =~= log);
}

} // verus!
