//! Jobs ("systems") and their scheduling state. A job is a named, ordered
//! list of shell stages; one executor per job evaluates each stage's
//! due-ness in ascending id order against the wall clock and remembers each
//! stage's last run. The surrounding binary owns the loop, the clock, the
//! pacing sleep and the shell; every decision it takes comes from here.
use vstd::prelude::*;
use crate::system_stage::SStage;
use crate::text::{lower_of, lowercase};
use vstd::string::{StrSliceExecFns, StringExecFns};

verus! {

/// A named set of scheduled shell stages. The stage with position `i` in
/// `stages` carries the stable id `i + 1`, assigned in declaration order.
#[derive(Debug, Clone)]
pub struct SystemBuilder {
    /// The job's name, case-folded to lowercase.
    pub name: String,
    pub description: String,
    /// The job's stages in declaration order; position `i` is stage id `i + 1`.
    pub stages: Vec<SStage>,
    /// The shell interpreter the stages are run with.
    pub shell: String,
}

impl SystemBuilder {
    /// A job with no stages yet; the name is case-folded to lowercase.
    pub fn new(name: String, desc: String, shell: String) -> (s: SystemBuilder)
        ensures
            s.name@ == lower_of(name@),
            s.description == desc,
            s.shell == shell,
            s.stages@ == Seq::<SStage>::empty(),
    {
        let folded = lowercase(name.as_str());
        let s = SystemBuilder { name: folded, description: desc, stages: Vec::new(), shell };
        proof {
            assert(s.stages@ =~= Seq::<SStage>::empty());
        }
        s
    }

    /// Appends a stage; its id is one past the previous highest.
    pub fn add_stage(&mut self, stage: SStage)
        ensures
            final(self).stages@ == old(self).stages@.push(stage),
            final(self).name == old(self).name,
            final(self).description == old(self).description,
            final(self).shell == old(self).shell,
    {
        self.stages.push(stage);
    }

    /// The job's stages in ascending id order.
    pub fn get_stages(&self) -> (r: &Vec<SStage>)
        ensures
            r@ == self.stages@,
    {
        &self.stages
    }

    /// An independent copy of the job, as handed to a worker: later
    /// configuration reloads do not touch it.
    pub fn duplicate(&self) -> (r: SystemBuilder)
        ensures
            r.name@ == self.name@,
            r.description@ == self.description@,
            r.shell@ == self.shell@,
            r.stages@.len() == self.stages@.len(),
            forall|i: int|
                0 <= i < self.stages@.len() ==> (#[trigger] r.stages@[i]).command@
                    == self.stages@[i].command@ && r.stages@[i].schedule
                    == self.stages@[i].schedule,
    {
        let mut stages: Vec<SStage> = Vec::new();
        let n = self.stages.len();
        let mut i: usize = 0;
        while i < n
            invariant
                n == self.stages@.len(),
                i <= n,
                stages@.len() == i,
                forall|j: int|
                    0 <= j < i ==> (#[trigger] stages@[j]).command@ == self.stages@[j].command@
                        && stages@[j].schedule == self.stages@[j].schedule,
            decreases n - i,
        {
            let st = SStage {
                command: self.stages[i].command.clone(),
                schedule: self.stages[i].schedule,
            };
            stages.push(st);
            i = i + 1;
        }
        SystemBuilder {
            name: self.name.clone(),
            description: self.description.clone(),
            stages,
            shell: self.shell.clone(),
        }
    }
}

/// Whether a stage last run at `last_ran` (0 when it never ran) is due at
/// `now`, for a recurrence of `interval` seconds.
pub open spec fn due_spec(last_ran: u64, interval: u64, now: u64) -> bool {
    last_ran + interval <= now
}

/// One executor's scheduling state: for each stage, by position, the epoch
/// second of its last run; 0 means the stage never ran, so every stage is
/// due on its very first evaluation.
pub struct ExecutorState {
    last_ran: Vec<u64>,
}

impl ExecutorState {
    /// The last-run stamp of each stage, by position.
    pub closed spec fn model(self) -> Seq<u64> {
        self.last_ran@
    }

    /// Fresh state for a job with `n` stages: nothing has run.
    pub fn new(n: usize) -> (s: ExecutorState)
        ensures
            s.model().len() == n,
            forall|i: int| 0 <= i < n ==> s.model()[i] == 0,
    {
        let last_ran: Vec<u64> = vec![0u64; n];
        ExecutorState { last_ran }
    }

    /// Whether stage `i` is due at `now`: its last run plus the stage's
    /// recurrence interval has been reached. Depends on no other stage.
    pub fn stage_due(&self, i: usize, interval: u64, now: u64) -> (r: bool)
        requires
            i < self.model().len(),
        ensures
            r == due_spec(self.model()[i as int], interval, now),
    {
        match self.last_ran[i].checked_add(interval) {
            Some(at) => at <= now,
            None => false,
        }
    }

    /// Records that stage `i` ran at `now`. No other stage's stamp moves.
    pub fn mark_ran(&mut self, i: usize, now: u64)
        requires
            i < old(self).model().len(),
        ensures
            final(self).model() == old(self).model().update(i as int, now),
    {
        self.last_ran.set(i, now);
    }
}

/// Law: a stage that never ran is due exactly when the clock has reached
/// its interval — in particular on its very first evaluation once `now` is
/// at or past the interval — and after a run at `t` it is due again exactly
/// from `t + interval` on, never earlier.
pub proof fn lemma_stage_spacing(interval: u64, t: u64, now: u64)
    ensures
        due_spec(0, interval, now) == (interval <= now),
        due_spec(t, interval, now) == (t + interval <= now),
        now < t + interval ==> !due_spec(t, interval, now),
{
}

/// Law: marking one stage as run leaves every sibling stage's due-ness
/// unchanged — a stage's schedule is independent of its siblings' timing.
pub proof fn lemma_sibling_independence(
    last: Seq<u64>,
    i: int,
    now: u64,
    j: int,
    interval: u64,
    at: u64,
)
    requires
        0 <= i < last.len(),
        0 <= j < last.len(),
        i != j,
    ensures
        due_spec(last.update(i, now)[j], interval, at) == due_spec(last[j], interval, at),
{
    assert(last.update(i, now)[j] == last[j]);
}

/// The line a job's captured output is queued as: the job's name, a marker,
/// and the shell's standard output.
pub open spec fn output_line_of(name: Seq<char>, stdout: Seq<char>) -> Seq<char> {
    name + ": Output: "@ + stdout
}

/// Formats captured stage output for the output buffer.
pub fn format_output(name: &str, stdout: &str) -> (r: String)
    ensures
        r@ == output_line_of(name@, stdout@),
{
    let mut s = name.to_owned();
    s.append(": Output: ");
    s.append(stdout);
    proof {
        assert(s@ =~= output_line_of(name@, stdout@));
    }
    s
}

} // verus!
