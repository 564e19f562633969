//! G-code job streaming with the GRBL character-counting protocol and
//! crash-resumable progress.
//!
//! A `Job` holds the cleaned lines of a file plus two cursors: `sent` (the
//! next line to push onto the wire) and `acked` (lines the firmware
//! confirmed with `ok`/`error`). `acked` is the exact resume point.

use crate::gcode::{base_name_of, file_name, modal_preamble, preamble_of};
use crate::text::{byte_len, own, string_of};
use std::collections::VecDeque;
use vstd::prelude::*;

verus! {

/// GRBL character-counting RX budget: half of the firmware's 256-byte
/// WebSocket channel buffer.
pub const RX_BUFFER: usize = 127;

/// Persist to disk at most every this many acked lines.
pub const PERSIST_EVERY: usize = 25;

/// Live job state pushed to the frontend.
#[derive(Clone, Debug)]
pub struct Progress {
    /// "running" | "paused" | "interrupted" | "done" | "error" | "idle"
    pub state: String,
    pub path: String,
    pub name: String,
    pub sent: usize,
    pub acked: usize,
    pub total: usize,
    pub errors: usize,
}

impl Progress {
    /// The progress reported when no job exists.
    pub fn idle() -> (p: Progress)
        ensures
            p.state@ == "idle"@,
            p.path@.len() == 0,
            p.name@.len() == 0,
            p.sent == 0 && p.acked == 0 && p.total == 0 && p.errors == 0,
    {
        Progress {
            state: own("idle"),
            path: String::new(),
            name: String::new(),
            sent: 0,
            acked: 0,
            total: 0,
            errors: 0,
        }
    }
}

/// On-disk record so a job survives a process restart.
#[derive(Clone, Debug)]
pub struct SavedJob {
    pub path: String,
    pub name: String,
    pub total: usize,
    pub acked: usize,
    pub state: String,
    pub updated_at: u64,
}

impl SavedJob {
    /// A saved job is worth offering for resume only when it was not
    /// finished and has lines left.
    pub fn is_resumable(&self) -> (b: bool)
        ensures
            b == (self.state@ != "done"@ && self.acked < self.total),
    {
        !crate::text::str_eq(self.state.as_str(), "done") && self.acked < self.total
    }
}

/// Bytes a line occupies in the firmware buffer: the line plus its newline.
pub open spec fn line_cost(s: Seq<char>) -> int {
    if byte_len(s) < usize::MAX {
        byte_len(s) + 1
    } else {
        usize::MAX as int
    }
}

/// Sum of the in-flight byte counts.
pub open spec fn total_bytes(s: Seq<usize>) -> int
    decreases s.len(),
{
    if s.len() == 0 {
        0
    } else {
        s[0] + total_bytes(s.drop_first())
    }
}

proof fn lemma_total_bytes_push(s: Seq<usize>, x: usize)
    ensures
        total_bytes(s.push(x)) == total_bytes(s) + x,
    decreases s.len(),
{
    let t = s.push(x);
    assert(t[0] == if s.len() == 0 { x } else { s[0] });
    if s.len() == 0 {
        assert(t.drop_first() =~= Seq::<usize>::empty());
        assert(total_bytes(t.drop_first()) == 0);
        assert(total_bytes(t) == x + total_bytes(t.drop_first()));
    } else {
        assert(t.drop_first() =~= s.drop_first().push(x));
        lemma_total_bytes_push(s.drop_first(), x);
        assert(total_bytes(t) == t[0] + total_bytes(t.drop_first()));
        assert(total_bytes(s) == s[0] + total_bytes(s.drop_first()));
    }
}

proof fn lemma_total_bytes_nonneg(s: Seq<usize>)
    ensures
        total_bytes(s) >= 0,
        s.len() > 0 ==> total_bytes(s) >= s[0],
    decreases s.len(),
{
    if s.len() > 0 {
        lemma_total_bytes_nonneg(s.drop_first());
    }
}

/// Whether a line costing `len` bytes may go out now: it fits the RX budget,
/// or nothing else is in flight (a single oversized line always passes,
/// otherwise the stream would deadlock).
pub open spec fn fits(inflight: Seq<usize>, len: int) -> bool {
    inflight.len() == 0 || total_bytes(inflight) + len <= RX_BUFFER
}

/// The state label of a job.
pub open spec fn label_of(done: bool, errors: usize, paused: bool) -> Seq<char> {
    if done {
        if errors > 0 {
            "error"@
        } else {
            "done"@
        }
    } else if paused {
        "paused"@
    } else {
        "running"@
    }
}

pub struct Job {
    pub path: String,
    pub name: String,
    pub lines: Vec<String>,
    pub total: usize,
    pub sent: usize,
    pub acked: usize,
    pub errors: usize,
    pub paused: bool,
    pub done: bool,
    /// Byte cost of each sent-but-unacked entry, oldest first.
    pub inflight: VecDeque<usize>,
    pub inflight_bytes: usize,
    pub last_persist_acked: usize,
    /// Modal preamble to replay before the next file line after a resume.
    pub preamble: Option<String>,
    /// Whether the preamble is currently sent-but-unacked (it is then the
    /// oldest in-flight entry).
    pub preamble_inflight: bool,
}

/// The character sequences of a list of strings.
pub open spec fn views(v: Seq<String>) -> Seq<Seq<char>> {
    v.map_values(|s: String| s@)
}

impl Job {
    /// In-flight byte counts, oldest first.
    pub open spec fn inflight_view(&self) -> Seq<usize> {
        self.inflight@
    }

    /// The modal preamble still to send, if any.
    pub open spec fn preamble_view(&self) -> Option<Seq<char>> {
        match self.preamble {
            Some(p) => Some(p@),
            None => None,
        }
    }

    /// Whether the oldest in-flight entry is the preamble.
    pub open spec fn preamble_in_flight(&self) -> bool {
        self.preamble_inflight
    }

    /// The acked count at the last persist.
    pub open spec fn persisted_at(&self) -> usize {
        self.last_persist_acked
    }

    /// Internal consistency of the job: the cursors stay within the file,
    /// every in-flight entry is accounted for, the byte count matches, and
    /// the buffer budget is respected (one oversized line excepted).
    pub open spec fn wf(&self) -> bool {
        &&& self.total == self.lines@.len()
        &&& self.acked <= self.sent <= self.total
        &&& self.inflight@.len() == self.sent - self.acked + (if self.preamble_inflight {
            1int
        } else {
            0int
        })
        &&& self.inflight_bytes == total_bytes(self.inflight@)
        &&& (self.inflight_bytes <= RX_BUFFER || self.inflight@.len() == 1)
        &&& (self.preamble is Some ==> self.inflight@.len() == 0 && !self.preamble_inflight)
        &&& self.errors <= self.acked
        &&& (self.done ==> self.acked == self.total && self.inflight@.len() == 0)
    }

    pub fn new(path: String, lines: Vec<String>, start_index: usize) -> (j: Job)
        ensures
            j.wf(),
            fresh(j, path, lines, start_index),
    {
        let total = lines.len();
        let start = if start_index < total { start_index } else { total };
        let name = file_name(path.as_str());
        let preamble = if start > 0 {
            let head = lines_prefix(&lines, start);
            modal_preamble(head.as_slice())
        } else {
            None
        };
        Job {
            path,
            name,
            lines,
            total,
            sent: start,
            acked: start,
            errors: 0,
            paused: false,
            done: false,
            inflight: VecDeque::new(),
            inflight_bytes: 0,
            last_persist_acked: start,
            preamble,
            preamble_inflight: false,
        }
    }

    /// Is the job still occupying the connection (blocking manual input)?
    pub fn active(&self) -> (b: bool)
        ensures
            b == !self.done,
    {
        !self.done
    }

    /// Total bytes currently in flight.
    pub fn inflight_bytes(&self) -> (n: usize)
        requires
            self.wf(),
        ensures
            n == total_bytes(self.inflight_view()),
            n <= RX_BUFFER || self.inflight_view().len() == 1,
    {
        self.inflight_bytes
    }

    pub fn state_label(&self) -> (l: &'static str)
        ensures
            l@ == label_of(self.done, self.errors, self.paused),
    {
        if self.done {
            if self.errors > 0 {
                "error"
            } else {
                "done"
            }
        } else if self.paused {
            "paused"
        } else {
            "running"
        }
    }

    pub fn progress(&self, state_override: Option<&str>) -> (p: Progress)
        ensures
            p.state@ == match state_override {
                Some(s) => s@,
                None => label_of(self.done, self.errors, self.paused),
            },
            p.path == self.path,
            p.name == self.name,
            p.sent == self.sent,
            p.acked == self.acked,
            p.total == self.total,
            p.errors == self.errors,
    {
        let state = match state_override {
            Some(s) => own(s),
            None => own(self.state_label()),
        };
        Progress {
            state,
            path: self.path.clone(),
            name: self.name.clone(),
            sent: self.sent,
            acked: self.acked,
            total: self.total,
            errors: self.errors,
        }
    }

    /// Next line to send, if the firmware buffer has room for it, with its
    /// trailing newline. After a resume the modal preamble goes out first,
    /// once.
    pub fn next_line(&mut self) -> (r: Option<String>)
        requires
            old(self).wf(),
        ensures
            final(self).wf(),
            next_line_ok(*old(self), *final(self), r),
    {
        if self.paused || self.done {
            return None;
        }
        if !self.preamble_inflight {
            if self.preamble.is_some() {
                let pre = self.preamble.take().unwrap();
                let len = cost(pre.as_str());
                if !room_for(self.inflight.len(), self.inflight_bytes, len) {
                    self.preamble = Some(pre);
                    return None;
                }
                proof {
                    lemma_total_bytes_push(self.inflight@, len);
                }
                self.inflight.push_back(len);
                self.inflight_bytes = self.inflight_bytes + len;
                self.preamble_inflight = true;
                return Some(with_newline(&pre));
            }
        }
        if self.sent >= self.total {
            return None;
        }
        let len = cost(self.lines[self.sent].as_str());
        if !room_for(self.inflight.len(), self.inflight_bytes, len) {
            return None;
        }
        let out = with_newline(&self.lines[self.sent]);
        proof {
            lemma_total_bytes_push(self.inflight@, len);
        }
        self.inflight.push_back(len);
        self.inflight_bytes = self.inflight_bytes + len;
        self.sent = self.sent + 1;
        Some(out)
    }

    /// Account for one `ok`/`error` acknowledgement. Returns true if the job
    /// just completed.
    pub fn ack(&mut self, is_error: bool) -> (finished: bool)
        requires
            old(self).wf(),
        ensures
            final(self).wf(),
            ack_ok(*old(self), is_error, *final(self), finished),
    {
        if self.done {
            return false;
        }
        let ghost before = self.inflight@;
        if let Some(len) = self.inflight.pop_front() {
            proof {
                lemma_total_bytes_nonneg(before);
                assert(before.drop_first() =~= self.inflight@);
                lemma_total_bytes_nonneg(self.inflight@);
            }
            self.inflight_bytes = self.inflight_bytes - len;
            if self.preamble_inflight {
                self.preamble_inflight = false;
                return false;
            }
            self.acked = self.acked + 1;
            if is_error {
                self.errors = self.errors + 1;
            }
        }
        if self.acked >= self.total && self.inflight.len() == 0 {
            self.done = true;
            return true;
        }
        false
    }

    /// A hard reset (Ctrl-X) or a dropped connection flushed the firmware
    /// buffer: freeze the job at the last confirmed line, pause it, and
    /// re-arm the modal preamble for the resume point.
    pub fn invalidate_inflight(&mut self)
        requires
            old(self).wf(),
        ensures
            final(self).wf(),
            invalidated(*old(self), *final(self)),
    {
        self.inflight.clear();
        self.inflight_bytes = 0;
        self.sent = self.acked;
        self.paused = true;
        self.preamble_inflight = false;
        if self.acked > 0 {
            let head = lines_prefix(&self.lines, self.acked);
            self.preamble = modal_preamble(head.as_slice());
        }
    }

    /// Whether enough lines were acked since the last persist to persist
    /// again.
    pub fn should_persist(&self) -> (b: bool)
        ensures
            b == (self.acked >= self.persisted_at() + PERSIST_EVERY),
    {
        self.last_persist_acked <= usize::MAX - PERSIST_EVERY && self.acked
            >= self.last_persist_acked + PERSIST_EVERY
    }

    /// Record that the current cursor has been persisted.
    pub fn mark_persisted(&mut self)
        requires
            old(self).wf(),
        ensures
            final(self).wf(),
            final(self).persisted_at() == old(self).acked,
            final(self).acked == old(self).acked,
            final(self).sent == old(self).sent,
            final(self).total == old(self).total,
            final(self).path == old(self).path,
            final(self).name == old(self).name,
            final(self).lines == old(self).lines,
            final(self).errors == old(self).errors,
            final(self).paused == old(self).paused,
            final(self).done == old(self).done,
            final(self).inflight_view() == old(self).inflight_view(),
            final(self).preamble_view() == old(self).preamble_view(),
            final(self).preamble_in_flight() == old(self).preamble_in_flight(),
    {
        self.last_persist_acked = self.acked;
    }

    /// Hand out every line the firmware buffer has room for now, in order,
    /// stopping at the first that does not fit (or when paused, done or out
    /// of lines).
    pub fn fill(&mut self) -> (out: Vec<String>)
        requires
            old(self).wf(),
        ensures
            final(self).wf(),
            blocked(*final(self)),
            filled(*old(self), *final(self)),
            views(out@) == sent_between(*old(self), *final(self)),
    {
        let ghost j0 = *self;
        let mut out: Vec<String> = Vec::new();
        let mut more = true;
        proof {
            assert(views(out@) =~= sent_between(j0, *self));
            assert(self.inflight_view() =~= j0.inflight_view() + costs_between(j0, *self));
        }
        while more
            invariant
                self.wf(),
                filled(j0, *self),
                views(out@) == sent_between(j0, *self),
                !more ==> blocked(*self),
            decreases self.total - self.sent + (if self.preamble is Some { 1int } else { 0int }) + (
            if more {
                1int
            } else {
                0int
            }),
        {
            let ghost j1 = *self;
            match self.next_line() {
                Some(l) => {
                    let ghost lv = l@;
                    let ghost prev_out = out@;
                    out.push(l);
                    proof {
                        let n0 = (j1.sent - j0.sent) as nat;
                        if !j1.preamble_in_flight() && j1.preamble_view() is Some && preamble_went(j1, *self) {
                            assert(j1.sent == j0.sent);
                            assert(!preamble_went(j0, j1));
                            assert(j1.preamble_view() == j0.preamble_view());
                            assert(views(out@) =~= sent_between(j0, *self));
                            assert(self.inflight_view() =~= j0.inflight_view() + costs_between(j0, *self));
                        } else {
                            assert(self.sent == j1.sent + 1);
                            assert(lv == j1.lines@[j1.sent as int]@.push('\n'));
                            assert(preamble_went(j0, *self) == preamble_went(j0, j1));
                            let pre = if preamble_went(j0, j1) {
                                seq![j0.preamble_view().unwrap().push('\n')]
                            } else {
                                seq![]
                            };
                            let f = |i: int| j0.lines@[j0.sent + i]@.push('\n');
                            assert(sent_between(j0, j1) == pre + Seq::new(n0, f));
                            assert(sent_between(j0, *self) == pre + Seq::new(n0 + 1, f));
                            assert(Seq::new(n0 + 1, f) =~= Seq::new(n0, f).push(lv));
                            assert(views(out@) =~= views(prev_out).push(lv));
                            assert(views(out@) =~= sent_between(j0, *self));
                            assert(self.inflight_view() =~= j0.inflight_view() + costs_between(j0, *self));
                        }
                    }
                },
                None => {
                    more = false;
                },
            }
        }
        out
    }

    /// Pause or resume sending lines.
    pub fn set_paused(&mut self, paused: bool)
        requires
            old(self).wf(),
        ensures
            final(self).wf(),
            final(self).paused == paused,
            final(self).acked == old(self).acked,
            final(self).sent == old(self).sent,
            final(self).total == old(self).total,
            final(self).path == old(self).path,
            final(self).name == old(self).name,
            final(self).lines == old(self).lines,
            final(self).errors == old(self).errors,
            final(self).done == old(self).done,
            final(self).inflight_view() == old(self).inflight_view(),
            final(self).preamble_view() == old(self).preamble_view(),
            final(self).preamble_in_flight() == old(self).preamble_in_flight(),
            final(self).persisted_at() == old(self).persisted_at(),
    {
        self.paused = paused;
    }
}

/// What `next_line` does: nothing while paused or done; otherwise the
/// pending preamble first (when it fits), else the next file line (when it
/// fits and lines remain). Whatever goes out is recorded as in flight.
pub open spec fn next_line_ok(before: Job, after: Job, r: Option<String>) -> bool {
    let unchanged = after == before;
    if before.paused || before.done {
        r is None && unchanged
    } else if !before.preamble_in_flight() && before.preamble_view() is Some {
        let pre = before.preamble_view().unwrap();
        let len = line_cost(pre);
        if fits(before.inflight_view(), len) {
            &&& r is Some && r.unwrap()@ == pre.push('\n')
            &&& after.inflight_view() == before.inflight_view().push(len as usize)
            &&& after.preamble_view() is None
            &&& after.preamble_in_flight()
            &&& same_cursors(before, after)
        } else {
            r is None && unchanged
        }
    } else if before.sent >= before.total {
        r is None && unchanged
    } else {
        let line = before.lines@[before.sent as int]@;
        let len = line_cost(line);
        if fits(before.inflight_view(), len) {
            &&& r is Some && r.unwrap()@ == line.push('\n')
            &&& after.inflight_view() == before.inflight_view().push(len as usize)
            &&& after.sent == before.sent + 1
            &&& after.acked == before.acked
            &&& after.preamble_view() == before.preamble_view()
            &&& after.preamble_in_flight() == before.preamble_in_flight()
            &&& after.path == before.path && after.name == before.name && after.lines == before.lines
            &&& after.total == before.total && after.errors == before.errors
            &&& after.paused == before.paused && after.done == before.done
            &&& after.persisted_at() == before.persisted_at()
        } else {
            r is None && unchanged
        }
    }
}

/// Everything but the in-flight queue and the preamble is unchanged.
pub open spec fn same_cursors(before: Job, after: Job) -> bool {
    &&& after.sent == before.sent && after.acked == before.acked
    &&& after.path == before.path && after.name == before.name && after.lines == before.lines
    &&& after.total == before.total && after.errors == before.errors
    &&& after.paused == before.paused && after.done == before.done
    &&& after.persisted_at() == before.persisted_at()
}

/// What `ack` does: a finished job ignores it; otherwise the oldest in-flight
/// entry is released. Releasing the preamble advances nothing; releasing a
/// file line advances `acked` (and counts an error). The job completes once
/// every line is acked and nothing is in flight.
pub open spec fn ack_ok(before: Job, is_error: bool, after: Job, finished: bool) -> bool {
    if before.done {
        !finished && after == before
    } else {
        let q = before.inflight_view();
        &&& after.path == before.path && after.name == before.name && after.lines == before.lines
        &&& after.total == before.total && after.sent == before.sent && after.paused == before.paused
        &&& after.preamble_view() == before.preamble_view()
        &&& after.persisted_at() == before.persisted_at()
        &&& if q.len() > 0 && before.preamble_in_flight() {
            &&& after.inflight_view() == q.drop_first()
            &&& !after.preamble_in_flight()
            &&& after.acked == before.acked && after.errors == before.errors
            &&& !after.done && !finished
        } else {
            let acked = if q.len() > 0 { before.acked + 1 } else { before.acked as int };
            let errors = if q.len() > 0 && is_error { before.errors + 1 } else { before.errors as int };
            let remaining = if q.len() > 0 { q.drop_first() } else { q };
            &&& after.inflight_view() == remaining
            &&& after.preamble_in_flight() == before.preamble_in_flight()
            &&& after.acked == acked && after.errors == errors
            &&& finished == (acked >= before.total && remaining.len() == 0)
            &&& after.done == finished
        }
    }
}

/// A job just opened on `lines`, resuming at `start_index` (clamped to the
/// file): nothing sent beyond the resume point, nothing in flight, and the
/// modal preamble of the skipped lines armed.
pub open spec fn fresh(j: Job, path: String, lines: Vec<String>, start_index: usize) -> bool {
    &&& j.path == path
    &&& j.name@ == base_name_of(path@)
    &&& j.lines == lines
    &&& j.total == lines@.len()
    &&& j.sent == j.acked
    &&& j.acked == if start_index < lines@.len() { start_index } else { lines@.len() as usize }
    &&& j.errors == 0
    &&& !j.paused
    &&& !j.done
    &&& j.inflight_view().len() == 0
    &&& !j.preamble_in_flight()
    &&& j.persisted_at() == j.acked
    &&& j.preamble_view() == if j.acked > 0 {
        preamble_of(views(lines@).take(j.acked as int))
    } else {
        None
    }
}

/// `after` is `before` after the firmware buffer was flushed: frozen at the
/// last confirmed line, paused, nothing in flight, and the modal preamble
/// re-armed for the resume point.
pub open spec fn invalidated(before: Job, after: Job) -> bool {
    &&& after.inflight_view().len() == 0
    &&& after.sent == before.acked
    &&& after.acked == before.acked
    &&& after.paused
    &&& !after.preamble_in_flight()
    &&& after.preamble_view() == if before.acked > 0 {
        preamble_of(views(before.lines@).take(before.acked as int))
    } else {
        before.preamble_view()
    }
    &&& after.path == before.path && after.name == before.name && after.lines == before.lines
    &&& after.total == before.total && after.errors == before.errors
    &&& after.done == before.done
    &&& after.persisted_at() == before.persisted_at()
}

/// Would `next_line` hand out nothing right now?
pub open spec fn blocked(j: Job) -> bool {
    ||| j.paused
    ||| j.done
    ||| if !j.preamble_in_flight() && j.preamble_view() is Some {
        !fits(j.inflight_view(), line_cost(j.preamble_view().unwrap()))
    } else {
        j.sent >= j.total || !fits(j.inflight_view(), line_cost(j.lines@[j.sent as int]@))
    }
}

/// Whether the replayed preamble went out between `before` and `after`.
pub open spec fn preamble_went(before: Job, after: Job) -> bool {
    before.preamble_view() is Some && after.preamble_view() is None
}

/// What went out between `before` and `after`: the replayed preamble, if it
/// went, then the file lines, each with its newline.
pub open spec fn sent_between(before: Job, after: Job) -> Seq<Seq<char>> {
    (if preamble_went(before, after) {
        seq![before.preamble_view().unwrap().push('\n')]
    } else {
        seq![]
    }) + Seq::new(
        (after.sent - before.sent) as nat,
        |i: int| before.lines@[before.sent + i]@.push('\n'),
    )
}

/// The buffer cost of what went out between `before` and `after`.
pub open spec fn costs_between(before: Job, after: Job) -> Seq<usize> {
    (if preamble_went(before, after) {
        seq![line_cost(before.preamble_view().unwrap()) as usize]
    } else {
        seq![]
    }) + Seq::new(
        (after.sent - before.sent) as nat,
        |i: int| line_cost(before.lines@[before.sent + i]@) as usize,
    )
}

/// `after` is `before` with lines handed out: only the cursor, the
/// in-flight queue and the preamble moved.
pub open spec fn filled(before: Job, after: Job) -> bool {
    &&& before.sent <= after.sent
    &&& after.acked == before.acked
    &&& after.path == before.path && after.name == before.name && after.lines == before.lines
    &&& after.total == before.total && after.errors == before.errors
    &&& after.paused == before.paused && after.done == before.done
    &&& after.persisted_at() == before.persisted_at()
    &&& after.inflight_view() == before.inflight_view() + costs_between(before, after)
    &&& if preamble_went(before, after) {
        after.preamble_in_flight()
    } else {
        after.preamble_view() == before.preamble_view() && after.preamble_in_flight()
            == before.preamble_in_flight()
    }
    &&& after.preamble_view() is Some ==> after.sent == before.sent
}

/// The character-counting budget: a well-formed job never has more than
/// `RX_BUFFER` bytes in flight, unless a single oversized line is alone.
pub proof fn law_rx_budget(j: Job)
    requires
        j.wf(),
    ensures
        total_bytes(j.inflight_view()) <= RX_BUFFER || j.inflight_view().len() == 1,
{
}

/// A completed job has every line sent and acknowledged and nothing left in
/// flight; errors never outnumber acknowledged lines.
pub proof fn law_done_job_fully_acked(j: Job)
    requires
        j.wf(),
    ensures
        j.done ==> j.acked == j.total && j.sent == j.total && j.inflight_view().len() == 0,
        j.errors <= j.acked,
{
}

/// The stream never deadlocks: with nothing in flight, a running job that
/// still has a preamble or a line to send always sends it, whatever its
/// size.
pub proof fn law_no_deadlock(before: Job, after: Job, r: Option<String>)
    requires
        before.wf(),
        !before.paused,
        !before.done,
        before.inflight_view().len() == 0,
        before.preamble_view() is Some || before.sent < before.total,
        next_line_ok(before, after, r),
    ensures
        r is Some,
{
}

/// One round trip of the protocol: sending the next file line into an empty
/// buffer and receiving its acknowledgement advances the resume point by
/// exactly that line and leaves the buffer empty again.
pub proof fn law_send_then_ack(
    a: Job,
    b: Job,
    c: Job,
    r: Option<String>,
    is_error: bool,
    finished: bool,
)
    requires
        a.wf(),
        !a.paused,
        !a.done,
        a.inflight_view().len() == 0,
        a.preamble_view() is None,
        a.sent < a.total,
        next_line_ok(a, b, r),
        ack_ok(b, is_error, c, finished),
    ensures
        r is Some && r.unwrap()@ == a.lines@[a.sent as int]@.push('\n'),
        c.acked == a.acked + 1,
        c.sent == a.sent + 1,
        c.inflight_view().len() == 0,
        c.errors == a.errors + (if is_error { 1int } else { 0int }),
        finished == (c.acked == c.total),
{
    assert(b.inflight_view().len() == 1);
    assert(b.inflight_view().drop_first().len() == 0);
}

/// Acknowledging the replayed preamble after a resume releases its bytes
/// but does not move the resume point or count an error.
pub proof fn law_preamble_ack_not_counted(b: Job, c: Job, is_error: bool, finished: bool)
    requires
        b.wf(),
        !b.done,
        b.preamble_in_flight(),
        ack_ok(b, is_error, c, finished),
    ensures
        c.acked == b.acked,
        c.errors == b.errors,
        !c.preamble_in_flight(),
        !finished,
        c.inflight_view() == b.inflight_view().drop_first(),
{
}

/// Bytes a line occupies in the firmware buffer.
fn cost(s: &str) -> (n: usize)
    ensures
        n == line_cost(s@),
{
    let b = s.len();
    if b < usize::MAX {
        b + 1
    } else {
        usize::MAX
    }
}

/// Whether a line of `len` bytes may go out now (see `fits`), without
/// overflowing.
fn room_for(count: usize, bytes: usize, len: usize) -> (b: bool)
    ensures
        b == (count == 0 || bytes + len <= RX_BUFFER),
{
    count == 0 || (bytes <= RX_BUFFER && len <= RX_BUFFER - bytes)
}

/// The line with a newline appended.
fn with_newline(s: &String) -> (out: String)
    ensures
        out@ == s@.push('\n'),
{
    let cs = crate::text::chars_of(s.as_str());
    let mut v = cs;
    v.push('\n');
    string_of(v.as_slice())
}

/// Copies of the first `n` lines.
fn lines_prefix(lines: &Vec<String>, n: usize) -> (out: Vec<String>)
    requires
        n <= lines@.len(),
    ensures
        views(out@) == views(lines@).take(n as int),
{
    let mut out: Vec<String> = Vec::new();
    let mut i: usize = 0;
    while i < n
        invariant
            i <= n <= lines@.len(),
            views(out@) == views(lines@).take(i as int),
        decreases n - i,
    {
        let ghost prev = out@;
        let c = lines[i].clone();
        out.push(c);
        proof {
            assert(out@ == prev.push(c));
            assert(views(out@) =~= views(prev).push(c@));
            assert(views(lines@).take(i + 1) =~= views(lines@).take(i as int).push(lines@[i as int]@));
            assert(views(out@) =~= views(lines@).take(i + 1));
        }
        i += 1;
    }
    out
}

} // verus!
