use vstd::prelude::*;
use crate::table::StrMap;

verus! {

/// A record of the topic log.
#[derive(Clone, Debug, PartialEq, Eq)]
pub struct Record {
    pub offset: u128,
    pub data: Vec<u8>,
}

/// Abstract state of a topic log: the payloads in order (the record at index
/// `i` has offset `i + 1`) and the committed offset of each consumer group.
pub struct LogView {
    pub data: Seq<Seq<u8>>,
    pub committed: Map<Seq<char>, u128>,
}

/// Committed offset of group `g`; 0 for a group that never committed.
pub open spec fn committed_of(v: LogView, g: Seq<char>) -> nat {
    if v.committed.contains_key(g) {
        v.committed[g] as nat
    } else {
        0
    }
}

pub open spec fn max_u128(a: u128, b: u128) -> u128 {
    if a >= b { a } else { b }
}

/// The state after group `g` commits offset `o`: its committed offset never
/// moves backwards.
pub open spec fn commit_view(v: LogView, g: Seq<char>, o: u128) -> LogView {
    LogView {
        data: v.data,
        committed: v.committed.insert(
            g,
            if v.committed.contains_key(g) { max_u128(v.committed[g], o) } else { o },
        ),
    }
}

/// Offset from which group `g` reads: its committed offset, capped at the
/// end of the log.
pub open spec fn read_start(v: LogView, g: Seq<char>) -> nat {
    let c = committed_of(v, g);
    if c <= v.data.len() { c } else { v.data.len() }
}

/// Number of records a read of at most `n` returns to group `g`.
pub open spec fn read_len(v: LogView, g: Seq<char>, n: nat) -> nat {
    let avail = (v.data.len() - read_start(v, g)) as nat;
    if n <= avail { n } else { avail }
}

/// Copy of a byte vector.
pub fn copy_bytes(v: &Vec<u8>) -> (r: Vec<u8>)
    ensures
        r@ == v@,
{
    let mut r: Vec<u8> = Vec::new();
    let mut i: usize = 0;
    while i < v.len()
        invariant
            i <= v.len(),
            r@ == v@.subrange(0, i as int),
        decreases v.len() - i,
    {
        r.push(v[i]);
        assert(r@ =~= v@.subrange(0, i + 1));
        i += 1;
    }
    assert(r@ =~= v@);
    r
}

/// In-memory topic log: an append-only sequence of records with a committed
/// offset per consumer group.
pub struct TopicLog {
    records: Vec<Record>,
    groups: StrMap<u128>,
}

impl TopicLog {
    pub closed spec fn view(&self) -> LogView {
        LogView {
            data: self.records@.map_values(|r: Record| r.data@),
            committed: self.groups@,
        }
    }

    pub closed spec fn wf(&self) -> bool {
        &&& self.groups.wf()
        &&& forall|i: int|
            0 <= i < self.records@.len() ==> (#[trigger] self.records@[i]).offset == i + 1
    }

    pub fn new() -> (r: Self)
        ensures
            r.wf(),
            r@.data == Seq::<Seq<u8>>::empty(),
            r@.committed == Map::<Seq<char>, u128>::empty(),
    {
        let r = TopicLog { records: Vec::new(), groups: StrMap::new() };
        assert(r@.data =~= Seq::<Seq<u8>>::empty());
        r
    }

    /// Number of records in the log; also the offset of the last one.
    pub fn len(&self) -> (r: usize)
        ensures
            r == self@.data.len(),
    {
        self.records.len()
    }

    /// Appends a record and returns its offset.
    pub fn append(&mut self, data: Vec<u8>) -> (r: u128)
        requires
            old(self).wf(),
            old(self)@.data.len() < usize::MAX,
        ensures
            final(self).wf(),
            final(self)@.data == old(self)@.data.push(data@),
            final(self)@.committed == old(self)@.committed,
            r == final(self)@.data.len(),
    {
        let offset = (self.records.len() as u128) + 1;
        let ghost d = data@;
        self.records.push(Record { offset, data });
        assert(self@.data =~= old(self)@.data.push(d));
        offset
    }

    /// Committed offset of `group`; 0 if it never committed.
    pub fn committed_offset(&self, group: &String) -> (r: u128)
        requires
            self.wf(),
        ensures
            r == committed_of(self@, group@),
    {
        match self.groups.get(group) {
            Some(o) => *o,
            None => 0,
        }
    }

    /// Reads up to `n` records strictly after the committed offset of `group`,
    /// in log order.
    pub fn read(&self, group: &String, n: usize) -> (r: Vec<Record>)
        requires
            self.wf(),
        ensures
            r@.len() == read_len(self@, group@, n as nat),
            forall|j: int|
                0 <= j < r@.len() ==> (#[trigger] r@[j]).offset == read_start(self@, group@) + j
                    + 1 && r@[j].data@ == self@.data[read_start(self@, group@) + j],
            forall|j: int| 0 <= j < r@.len() ==> (#[trigger] r@[j]).offset > committed_of(self@, group@),
    {
        let c = self.committed_offset(group);
        let len = self.records.len();
        let start: usize = if c <= len as u128 {
            c as usize
        } else {
            len
        };
        let mut out: Vec<Record> = Vec::new();
        let mut i: usize = start;
        while i < len && out.len() < n
            invariant
                self.wf(),
                len == self.records@.len(),
                start == read_start(self@, group@),
                start <= i <= len,
                out@.len() == i - start,
                out@.len() <= n,
                forall|j: int|
                    0 <= j < out@.len() ==> (#[trigger] out@[j]).offset == start + j + 1
                        && out@[j].data@ == self@.data[start + j],
            decreases len - i,
        {
            let rec = &self.records[i];
            out.push(Record { offset: rec.offset, data: copy_bytes(&rec.data) });
            i += 1;
        }
        out
    }

    /// Records that `group` has consumed everything up to `offset`. A commit
    /// never moves the group backwards, so replaying it changes nothing.
    pub fn commit_group_offset(&mut self, group: String, offset: u128)
        requires
            old(self).wf(),
        ensures
            final(self).wf(),
            final(self)@ == commit_view(old(self)@, group@, offset),
    {
        let current = self.groups.get(&group);
        let next = match current {
            Some(o) => if *o >= offset {
                *o
            } else {
                offset
            },
            None => offset,
        };
        self.groups.insert(group, next);
        assert(self@.data =~= old(self)@.data);
    }
}

/// Committing never moves a group's offset backwards, leaves every other
/// group alone, and a commit above the current offset advances it exactly to
/// that offset: the committed offsets of a group form a monotonic sequence
/// that strictly increases with every commit that moves it.
pub proof fn lemma_commit_monotonic(v: LogView, g: Seq<char>, h: Seq<char>, o: u128)
    ensures
        committed_of(commit_view(v, g, o), g) >= committed_of(v, g),
        o > committed_of(v, g) ==> committed_of(commit_view(v, g, o), g) == o,
        o <= committed_of(v, g) && v.committed.contains_key(g) ==> commit_view(v, g, o) == v,
        h != g ==> committed_of(commit_view(v, g, o), h) == committed_of(v, h),
        commit_view(v, g, o).data == v.data,
{
    if o <= committed_of(v, g) && v.committed.contains_key(g) {
        assert(commit_view(v, g, o).committed =~= v.committed);
    }
}

/// The log after group `g` committed, one by one, the offsets of the first
/// `j` records that a read handed it: `read_start + 1` up to `read_start + j`.
pub open spec fn after_read_commits(v: LogView, g: Seq<char>, j: nat) -> LogView
    decreases j,
{
    if j == 0 {
        v
    } else {
        commit_view(
            after_read_commits(v, g, (j - 1) as nat),
            g,
            (read_start(v, g) + j) as u128,
        )
    }
}

/// A pump that commits the records of a read in the order it got them makes
/// the group's committed offset strictly increase with every commit: before
/// the `j`-th commit it stands at `read_start + j`, and the commit moves it
/// to `read_start + j + 1`.
pub proof fn lemma_read_commits_strictly_increase(v: LogView, g: Seq<char>, n: nat, j: nat)
    requires
        committed_of(v, g) <= v.data.len(),
        v.data.len() < u128::MAX,
        j < read_len(v, g, n),
    ensures
        committed_of(after_read_commits(v, g, j), g) == read_start(v, g) + j,
        committed_of(after_read_commits(v, g, j + 1), g) == read_start(v, g) + j + 1,
        committed_of(after_read_commits(v, g, j + 1), g) > committed_of(after_read_commits(v, g, j), g),
        after_read_commits(v, g, j).data == v.data,
    decreases j,
{
    if j > 0 {
        lemma_read_commits_strictly_increase(v, g, n, (j - 1) as nat);
    }
    let w = after_read_commits(v, g, j);
    let o = (read_start(v, g) + j + 1) as u128;
    assert(after_read_commits(v, g, j + 1) == commit_view(w, g, o));
    assert(o as nat == read_start(v, g) + j + 1);
    if w.committed.contains_key(g) {
        assert(w.committed[g] as nat == read_start(v, g) + j);
    }
}

/// Replaying a commit leaves the log in the state the first one left it.
pub proof fn lemma_commit_idempotent(v: LogView, g: Seq<char>, o: u128)
    ensures
        commit_view(commit_view(v, g, o), g, o) == commit_view(v, g, o),
{
    assert(commit_view(commit_view(v, g, o), g, o).committed =~= commit_view(v, g, o).committed);
}

} // verus!
