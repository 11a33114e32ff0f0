//! Usage records keyed by model name.
use crate::timestamp::{later_of, Timestamp};
use vstd::prelude::*;

verus! {

/// What is known of one model's use.
#[derive(Clone, Copy, Debug, PartialEq, Eq, Structural)]
pub struct UsageStat {
    pub usage_count: usize,
    pub last_used: Timestamp,
    pub size: u64,
}

/// One line of the usage report.
pub struct ModelUsage {
    pub name: String,
    pub last_used: Timestamp,
    pub usage_count: usize,
    pub size: u64,
}

impl ModelUsage {
    pub open spec fn stat(self) -> UsageStat {
        UsageStat { usage_count: self.usage_count, last_used: self.last_used, size: self.size }
    }
}

/// One more load: a count that stops at the largest `usize`.
pub open spec fn count_plus_one(c: usize) -> usize {
    if c < usize::MAX {
        (c + 1) as usize
    } else {
        c
    }
}

/// The time a load is counted at: the latest timestamp read so far in the
/// file, or the file's modification time while none has been read.
pub open spec fn load_time(cursor: Option<Timestamp>, file_time: Timestamp) -> Timestamp {
    match cursor {
        Some(t) => t,
        None => file_time,
    }
}

/// The usage map after one load of `name` at `load_time(cursor, file_time)`:
/// a new record with count 1, or one more on the existing record with its
/// last use raised to that time.
pub open spec fn upsert(
    m: Map<Seq<char>, UsageStat>,
    name: Seq<char>,
    size: u64,
    cursor: Option<Timestamp>,
    file_time: Timestamp,
) -> Map<Seq<char>, UsageStat> {
    let t = load_time(cursor, file_time);
    if m.contains_key(name) {
        let s = m[name];
        m.insert(
            name,
            UsageStat { usage_count: count_plus_one(s.usage_count), last_used: later_of(s.last_used, t), size: s.size },
        )
    } else {
        m.insert(name, UsageStat { usage_count: 1, last_used: t, size })
    }
}

/// Usage records, one per distinct name.
pub struct UsageTable {
    records: Vec<ModelUsage>,
    contents: Ghost<Map<Seq<char>, UsageStat>>,
}

impl View for UsageTable {
    type V = Map<Seq<char>, UsageStat>;

    closed spec fn view(&self) -> Map<Seq<char>, UsageStat> {
        self.contents@
    }
}

impl UsageTable {
    /// The records hold distinct names and agree with the map they stand for.
    pub closed spec fn wf(&self) -> bool {
        &&& forall|i: int, j: int|
            0 <= i < j < self.records.len() ==> self.records@[i].name@ != self.records@[j].name@
        &&& forall|i: int|
            0 <= i < self.records.len() ==> #[trigger] self.contents@.contains_key(
                self.records@[i].name@,
            ) && self.contents@[self.records@[i].name@] == self.records@[i].stat()
        &&& forall|n: Seq<char>|
            #[trigger] self.contents@.contains_key(n) ==> exists|i: int|
                0 <= i < self.records.len() && self.records@[i].name@ == n
    }

    pub fn new() -> (r: UsageTable)
        ensures
            r.wf(),
            r@ == Map::<Seq<char>, UsageStat>::empty(),
    {
        UsageTable { records: Vec::new(), contents: Ghost(Map::empty()) }
    }

    fn position(&self, name: &String) -> (r: Option<usize>)
        requires
            self.wf(),
        ensures
            r matches Some(i) ==> i < self.records.len() && self.records@[i as int].name@ == name@,
            r is None ==> !self@.contains_key(name@),
    {
        let mut i: usize = 0;
        while i < self.records.len()
            invariant
                i <= self.records.len(),
                forall|j: int| 0 <= j < i ==> self.records@[j].name@ != name@,
            decreases self.records.len() - i,
        {
            if self.records[i].name.eq(name) {
                return Some(i);
            }
            i = i + 1;
        }
        None
    }

    /// Whether a record for `name` exists.
    pub fn contains(&self, name: &String) -> (r: bool)
        requires
            self.wf(),
        ensures
            r == self@.contains_key(name@),
    {
        match self.position(name) {
            Some(i) => {
                assert(self.contents@.contains_key(self.records@[i as int].name@));
                true
            },
            None => false,
        }
    }

    /// The record for `name`, if any.
    pub fn get(&self, name: &String) -> (r: Option<UsageStat>)
        requires
            self.wf(),
        ensures
            r is None <==> !self@.contains_key(name@),
            r matches Some(s) ==> self@[name@] == s,
    {
        match self.position(name) {
            Some(i) => {
                assert(self.contents@.contains_key(self.records@[i as int].name@));
                let r = &self.records[i];
                Some(UsageStat { usage_count: r.usage_count, last_used: r.last_used, size: r.size })
            },
            None => None,
        }
    }

    /// Sets the record for `name`, adding it if there is none.
    fn put(&mut self, name: String, stat: UsageStat)
        requires
            old(self).wf(),
        ensures
            final(self).wf(),
            final(self)@ == old(self)@.insert(name@, stat),
    {
        let ghost n = name@;
        let rec = ModelUsage {
            name,
            last_used: stat.last_used,
            usage_count: stat.usage_count,
            size: stat.size,
        };
        match self.position(&rec.name) {
            Some(i) => {
                self.records.set(i, rec);
                self.contents = Ghost(self.contents@.insert(n, stat));
                assert forall|k: int| 0 <= k < self.records.len() implies #[trigger] self.contents@.contains_key(
                    self.records@[k].name@) && self.contents@[self.records@[k].name@] == self.records@[k].stat() by {
                    if k != i {
                        assert(old(self).contents@.contains_key(old(self).records@[k].name@));
                        if k < i {
                        } else {
                        }
                    }
                }
                assert forall|n2: Seq<char>| #[trigger] self.contents@.contains_key(n2) implies exists|k: int|
                    0 <= k < self.records.len() && self.records@[k].name@ == n2 by {
                    if n2 != n {
                        let k = choose|k: int| 0 <= k < old(self).records.len() && old(self).records@[k].name@ == n2;
                        assert(self.records@[k].name@ == n2);
                    } else {
                        assert(self.records@[i as int].name@ == n2);
                    }
                }
            },
            None => {
                self.records.push(rec);
                self.contents = Ghost(self.contents@.insert(n, stat));
                assert forall|k: int| 0 <= k < old(self).records.len() implies self.records@[k].name@ != n by {
                    assert(old(self).contents@.contains_key(old(self).records@[k].name@));
                }
                assert forall|k: int| 0 <= k < self.records.len() implies #[trigger] self.contents@.contains_key(
                    self.records@[k].name@) && self.contents@[self.records@[k].name@] == self.records@[k].stat() by {
                    if k < old(self).records.len() {
                        assert(old(self).contents@.contains_key(old(self).records@[k].name@));
                    }
                }
                assert forall|n2: Seq<char>| #[trigger] self.contents@.contains_key(n2) implies exists|k: int|
                    0 <= k < self.records.len() && self.records@[k].name@ == n2 by {
                    if n2 != n {
                        let k = choose|k: int| 0 <= k < old(self).records.len() && old(self).records@[k].name@ == n2;
                        assert(self.records@[k].name@ == n2);
                    } else {
                        assert(self.records@[self.records.len() - 1].name@ == n2);
                    }
                }
            },
        }
    }

    /// Counts one load of `name` at the cursor, or at the file's modification
    /// time while the cursor is unset: a new record with count 1, or one more
    /// on the existing record with its last use raised to that time.
    pub fn record_load(&mut self, name: String, size: u64, cursor: Option<Timestamp>, file_time: Timestamp)
        requires
            old(self).wf(),
        ensures
            final(self).wf(),
            final(self)@ == upsert(old(self)@, name@, size, cursor, file_time),
    {
        let t = match cursor {
            Some(c) => c,
            None => file_time,
        };
        match self.get(&name) {
            Some(s) => {
                let count = if s.usage_count < usize::MAX {
                    s.usage_count + 1
                } else {
                    s.usage_count
                };
                let last = if s.last_used.is_before(&t) {
                    t
                } else {
                    s.last_used
                };
                self.put(name, UsageStat { usage_count: count, last_used: last, size: s.size });
            },
            None => {
                self.put(name, UsageStat { usage_count: 1, last_used: t, size });
            },
        }
    }

    /// Adds a record for `name` with the given statistics unless one exists.
    pub fn insert_if_absent(&mut self, name: String, stat: UsageStat)
        requires
            old(self).wf(),
        ensures
            final(self).wf(),
            final(self)@ == if old(self)@.contains_key(name@) {
                old(self)@
            } else {
                old(self)@.insert(name@, stat)
            },
    {
        if !self.contains(&name) {
            self.put(name, stat);
        }
    }

    /// The records, in the order their names were first seen.
    pub fn into_records(self) -> (r: Vec<ModelUsage>)
        requires
            self.wf(),
        ensures
            forall|i: int, j: int| 0 <= i < j < r.len() ==> r@[i].name@ != r@[j].name@,
            forall|i: int| 0 <= i < r.len() ==> #[trigger] self@.contains_key(r@[i].name@)
                && self@[r@[i].name@] == r@[i].stat(),
            forall|n: Seq<char>| #[trigger] self@.contains_key(n) ==> exists|i: int| 0 <= i < r.len() && r@[i].name@ == n,
    {
        assert forall|i: int| 0 <= i < self.records.len() implies #[trigger] self@.contains_key(
            self.records@[i].name@) && self@[self.records@[i].name@] == self.records@[i].stat() by {
            assert(self.contents@.contains_key(self.records@[i].name@));
        }
        self.records
    }
}

} // verus!
