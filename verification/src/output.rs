//! The buffered output log: an ordered queue of captured job output plus the
//! flush flag the background flusher polls. Records are stamped with a fresh
//! unique id and their own epoch-second timestamp when pushed; a drain cycle
//! renders every record present at its start as one persisted log line and
//! removes it, leaving records pushed later for the next cycle.
use vstd::prelude::*;
use crate::timefmt::{format_log_line, log_line_of};

verus! {

/// One buffered unit of captured output awaiting persistence.
#[derive(Debug, Clone)]
pub struct OutputRecord {
    /// Unique within the buffer that stamped it.
    pub id: u64,
    /// Epoch second at which the record was pushed.
    pub timestamp: u64,
    /// The captured text.
    pub text: String,
}

/// Whether some record of `s` carries the id.
pub open spec fn has_id(s: Seq<OutputRecord>, id: u64) -> bool {
    exists|i: int| 0 <= i < s.len() && #[trigger] s[i].id == id
}

/// Every id of `s` was stamped before `next_id`, and ids are unique.
pub open spec fn buffer_wf(s: Seq<OutputRecord>, next_id: u64) -> bool {
    (forall|i: int| 0 <= i < s.len() ==> (#[trigger] s[i]).id < next_id) && (forall|i: int, j: int|
        0 <= i < j < s.len() ==> (#[trigger] s[i]).id != (#[trigger] s[j]).id)
}

/// The concurrent ordered queue of captured output, together with the flush
/// flag and the last-flushed-line diagnostic slot.
pub struct OutputBuffer {
    records: Vec<OutputRecord>,
    next_id: u64,
    flush_requested: bool,
    last_flush_output: Option<String>,
}

impl OutputBuffer {
    /// The queued records, oldest first.
    pub closed spec fn model(self) -> Seq<OutputRecord> {
        self.records@
    }

    /// The id the next pushed record will be stamped with.
    pub closed spec fn spec_next_id(self) -> u64 {
        self.next_id
    }

    /// Whether a flush has been requested and not yet performed.
    pub closed spec fn spec_flush_requested(self) -> bool {
        self.flush_requested
    }

    /// The last line reported as successfully persisted.
    pub closed spec fn spec_last_flush(self) -> Option<String> {
        self.last_flush_output
    }

    /// Well-formedness: every queued id was stamped before `next_id`, and
    /// ids are unique.
    pub open spec fn wf(self) -> bool {
        buffer_wf(self.model(), self.spec_next_id())
    }

    /// An empty buffer with no flush pending.
    pub fn new() -> (b: OutputBuffer)
        ensures
            b.wf(),
            b.model() == Seq::<OutputRecord>::empty(),
            b.spec_next_id() == 0,
            !b.spec_flush_requested(),
            b.spec_last_flush() is None,
    {
        let b = OutputBuffer {
            records: Vec::new(),
            next_id: 0,
            flush_requested: false,
            last_flush_output: None,
        };
        proof {
            assert(b.model() =~= Seq::<OutputRecord>::empty());
        }
        b
    }

    /// Appends the text as a new record, stamped with a fresh unique id and
    /// the given epoch second. Never removes or reorders existing records.
    pub fn push(&mut self, text: String, now: u64)
        requires
            old(self).wf(),
            old(self).spec_next_id() < u64::MAX,
        ensures
            final(self).wf(),
            final(self).model() == old(self).model().push(
                OutputRecord { id: old(self).spec_next_id(), timestamp: now, text },
            ),
            final(self).spec_next_id() == old(self).spec_next_id() + 1,
            final(self).spec_flush_requested() == old(self).spec_flush_requested(),
            final(self).spec_last_flush() == old(self).spec_last_flush(),
            !has_id(old(self).model(), old(self).spec_next_id()),
    {
        let rec = OutputRecord { id: self.next_id, timestamp: now, text };
        self.records.push(rec);
        self.next_id = self.next_id + 1;
        proof {
            let pre = old(self).model();
            let post = self.model();
            assert(post[pre.len() as int].id == old(self).spec_next_id());
            assert forall|a: int| 0 <= a < post.len() implies (#[trigger] post[a]).id
                < self.spec_next_id() by {
                if a < pre.len() {
                    assert(post[a] == pre[a]);
                }
            }
            assert forall|a: int, b: int| 0 <= a < b < post.len() implies (#[trigger] post[a]).id
                != (#[trigger] post[b]).id by {
                assert(post[a] == pre[a]);
                if b < pre.len() {
                    assert(post[b] == pre[b]);
                }
            }
            if has_id(pre, old(self).spec_next_id()) {
                let w = choose|k: int|
                    0 <= k < pre.len() && #[trigger] pre[k].id == old(self).spec_next_id();
                assert(pre[w].id < old(self).spec_next_id());
            }
        }
    }

    /// Sets the flush flag; the background flusher performs the drain.
    pub fn request_flush(&mut self)
        ensures
            final(self).wf() == old(self).wf(),
            final(self).model() == old(self).model(),
            final(self).spec_next_id() == old(self).spec_next_id(),
            final(self).spec_flush_requested(),
            final(self).spec_last_flush() == old(self).spec_last_flush(),
    {
        self.flush_requested = true;
    }

    /// Whether a flush is pending; what the flusher polls.
    pub fn flush_pending(&self) -> (r: bool)
        ensures
            r == self.spec_flush_requested(),
    {
        self.flush_requested
    }

    /// The id the next pushed record will be stamped with.
    pub fn next_id(&self) -> (id: u64)
        ensures
            id == self.spec_next_id(),
    {
        self.next_id
    }

    /// How many records are queued.
    pub fn len(&self) -> (n: usize)
        ensures
            n == self.model().len(),
    {
        self.records.len()
    }

    /// Removes the record carrying the id, if one is queued; with a
    /// well-formed buffer it is unique. The rest of the queue keeps its
    /// order.
    pub fn pop_by_id(&mut self, id: u64) -> (removed: bool)
        requires
            old(self).wf(),
        ensures
            final(self).wf(),
            removed == has_id(old(self).model(), id),
            removed ==> exists|i: int|
                0 <= i < old(self).model().len() && (#[trigger] old(self).model()[i]).id == id
                    && final(self).model() == old(self).model().remove(i),
            !removed ==> final(self).model() == old(self).model(),
            final(self).spec_next_id() == old(self).spec_next_id(),
            final(self).spec_flush_requested() == old(self).spec_flush_requested(),
            final(self).spec_last_flush() == old(self).spec_last_flush(),
    {
        let n = self.records.len();
        let mut i: usize = 0;
        while i < n
            invariant
                n == self.model().len(),
                i <= n,
                self.wf(),
                *self == *old(self),
                forall|j: int| 0 <= j < i ==> (#[trigger] self.model()[j]).id != id,
            decreases n - i,
        {
            if self.records[i].id == id {
                let ghost pre = self.model();
                self.records.remove(i);
                proof {
                    assert(pre[i as int].id == id);
                    assert(self.model() == pre.remove(i as int));
                    assert forall|a: int|
                        0 <= a < self.model().len() implies (#[trigger] self.model()[a]).id
                        < self.spec_next_id() by {
                        if a < i {
                            assert(self.model()[a] == pre[a]);
                        } else {
                            assert(self.model()[a] == pre[a + 1]);
                        }
                    }
                    assert forall|a: int, b: int|
                        0 <= a < b < self.model().len() implies (#[trigger] self.model()[a]).id != (
                    #[trigger] self.model()[b]).id by {
                        if a < i {
                            assert(self.model()[a] == pre[a]);
                        } else {
                            assert(self.model()[a] == pre[a + 1]);
                        }
                        if b < i {
                            assert(self.model()[b] == pre[b]);
                        } else {
                            assert(self.model()[b] == pre[b + 1]);
                        }
                    }
                }
                return true;
            }
            i = i + 1;
        }
        proof {
            if has_id(self.model(), id) {
                let w = choose|k: int|
                    0 <= k < self.model().len() && #[trigger] self.model()[k].id == id;
                assert(self.model()[w].id != id);
            }
        }
        false
    }

    /// One drain cycle over the records present now: renders every record as
    /// its persisted log line, using the record's own timestamp, removes all
    /// of them, and clears the flush flag. Each snapshot record yields
    /// exactly one line, in queue order.
    pub fn drain(&mut self) -> (lines: Vec<String>)
        requires
            old(self).wf(),
        ensures
            final(self).wf(),
            final(self).model() == Seq::<OutputRecord>::empty(),
            !final(self).spec_flush_requested(),
            final(self).spec_next_id() == old(self).spec_next_id(),
            final(self).spec_last_flush() == old(self).spec_last_flush(),
            lines@.len() == old(self).model().len(),
            forall|i: int|
                0 <= i < lines@.len() ==> (#[trigger] lines@[i])@ == log_line_of(
                    old(self).model()[i].timestamp,
                    old(self).model()[i].text@,
                ),
    {
        let mut lines: Vec<String> = Vec::new();
        let n = self.records.len();
        let mut i: usize = 0;
        while i < n
            invariant
                n == self.model().len(),
                i <= n,
                lines@.len() == i,
                forall|j: int|
                    0 <= j < i ==> (#[trigger] lines@[j])@ == log_line_of(
                        self.model()[j].timestamp,
                        self.model()[j].text@,
                    ),
            decreases n - i,
        {
            let line = format_log_line(self.records[i].timestamp, self.records[i].text.as_str());
            lines.push(line);
            i = i + 1;
        }
        self.records.clear();
        self.flush_requested = false;
        proof {
            assert(self.model() =~= Seq::<OutputRecord>::empty());
        }
        lines
    }

    /// Records the last successfully persisted line.
    pub fn record_flushed(&mut self, line: String)
        ensures
            final(self).wf() == old(self).wf(),
            final(self).model() == old(self).model(),
            final(self).spec_next_id() == old(self).spec_next_id(),
            final(self).spec_flush_requested() == old(self).spec_flush_requested(),
            final(self).spec_last_flush() == Some(line),
    {
        self.last_flush_output = Some(line);
    }

    /// The last line reported as successfully persisted, if any.
    pub fn last_flushed(&self) -> (r: Option<&String>)
        ensures
            match r {
                Some(s) => self.spec_last_flush() == Some(*s),
                None => self.spec_last_flush() is None,
            },
    {
        self.last_flush_output.as_ref()
    }
}

/// Law: a drain cycle hands each snapshot record out exactly once. In a
/// well-formed buffer an id determines its queue position, so no record can
/// stand at two positions of the drained snapshot, and the cycle renders
/// one line per position.
pub proof fn lemma_drain_exactly_once(s: Seq<OutputRecord>, next_id: u64, i: int, j: int)
    requires
        buffer_wf(s, next_id),
        0 <= i < s.len(),
        0 <= j < s.len(),
        s[i].id == s[j].id,
    ensures
        i == j,
{
}

/// Law: consecutive flush cycles duplicate nothing: every record stamped
/// after the ids of a well-formed snapshot were handed out is fresh, so no
/// already-drained record can stand in a later cycle's snapshot, while
/// records pushed between the cycles are exactly what the later cycle
/// drains.
pub proof fn lemma_no_redrain(first: Seq<OutputRecord>, next_id: u64, later_id: u64)
    requires
        buffer_wf(first, next_id),
        next_id <= later_id,
    ensures
        !has_id(first, later_id),
{
    if has_id(first, later_id) {
        let w = choose|k: int| 0 <= k < first.len() && #[trigger] first[k].id == later_id;
        assert(first[w].id < next_id);
    }
}

} // verus!
