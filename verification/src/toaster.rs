//! The daemon's composition root: one live configuration (jobs, one-shot
//! commands, settings), one output buffer, and the size of the worker pool
//! scheduled against it. A reload replaces the configuration and the pool
//! size wholesale and leaves the output buffer untouched; a job copy handed
//! to a worker earlier is a value of its own and is unaffected.
use vstd::prelude::*;
use crate::command_builder::CommandBuilder;
use crate::config::Settings;
use crate::output::OutputBuffer;
use crate::system_builder::SystemBuilder;
use crate::text::str_eq;
use vstd::pervasive::unreached;

verus! {

/// The daemon's state: configuration, worker-pool size, and output buffer.
pub struct Toaster {
    /// The configured jobs, keyed by their original-case names.
    pub systems: Option<Vec<(String, SystemBuilder)>>,
    /// The configured one-shot commands, keyed likewise.
    pub commands: Option<Vec<(String, CommandBuilder)>>,
    pub settings: Settings,
    /// The buffered output log.
    pub buffer: OutputBuffer,
    /// How many workers the current pool was created with.
    pub pool_threads: usize,
}

impl Toaster {
    /// A daemon over a freshly compiled configuration: empty output buffer,
    /// pool sized per the settings.
    pub fn new(
        systems: Option<Vec<(String, SystemBuilder)>>,
        commands: Option<Vec<(String, CommandBuilder)>>,
        settings: Settings,
    ) -> (t: Toaster)
        ensures
            t.systems == systems,
            t.commands == commands,
            t.settings == settings,
            t.pool_threads == settings.threads,
            t.buffer.wf(),
            t.buffer.model() == Seq::<crate::output::OutputRecord>::empty(),
            t.buffer.spec_next_id() == 0,
            !t.buffer.spec_flush_requested(),
    {
        let pool_threads = settings.threads;
        Toaster { systems, commands, settings, buffer: OutputBuffer::new(), pool_threads }
    }

    /// Resolves a one-shot command by name; the caller runs its stages.
    pub fn run_command(&self, command: &str) -> (r: Option<&CommandBuilder>)
        ensures
            match r {
                Some(cb) => self.commands matches Some(cs) && exists|i: int|
                    0 <= i < cs@.len() && (#[trigger] cs@[i]).0@ == command@ && cs@[i].1 == *cb,
                None => match self.commands {
                    Some(cs) => forall|i: int| 0 <= i < cs@.len() ==> (#[trigger] cs@[i]).0@ != command@,
                    None => true,
                },
            },
    {
        match &self.commands {
            None => None,
            Some(cs) => {
                let n = cs.len();
                let mut i: usize = 0;
                while i < n
                    invariant
                        n == cs@.len(),
                        i <= n,
                        self.commands matches Some(csv) && csv == *cs,
                        forall|j: int| 0 <= j < i ==> (#[trigger] cs@[j]).0@ != command@,
                    decreases n - i,
                {
                    if str_eq(cs[i].0.as_str(), command) {
                        proof {
                            let w = i as int;
                            assert(self.commands is Some);
                            let csv = self.commands->Some_0;
                            assert(csv == *cs);
                            assert(0 <= w < csv@.len() && (#[trigger] csv@[w]).0@ == command@);
                        }
                        return Some(&cs[i].1);
                    }
                    i = i + 1;
                }
                None
            },
        }
    }

    /// Resolves a job by name and hands back an independent copy for a
    /// worker; later reloads do not touch the copy.
    pub fn start_system(&self, system: &str) -> (r: Option<SystemBuilder>)
        ensures
            match r {
                Some(sb) => self.systems matches Some(ss) && exists|i: int|
                    0 <= i < ss@.len() && (#[trigger] ss@[i]).0@ == system@
                        && sb.name@ == ss@[i].1.name@ && sb.shell@ == ss@[i].1.shell@
                        && sb.stages@.len() == ss@[i].1.stages@.len() && (forall|k: int|
                        0 <= k < sb.stages@.len() ==> (#[trigger] sb.stages@[k]).command@
                            == ss@[i].1.stages@[k].command@ && sb.stages@[k].schedule
                            == ss@[i].1.stages@[k].schedule),
                None => match self.systems {
                    Some(ss) => forall|i: int| 0 <= i < ss@.len() ==> (#[trigger] ss@[i]).0@ != system@,
                    None => true,
                },
            },
    {
        match &self.systems {
            None => None,
            Some(ss) => {
                let n = ss.len();
                let mut i: usize = 0;
                while i < n
                    invariant
                        n == ss@.len(),
                        i <= n,
                        self.systems matches Some(ssv) && ssv == *ss,
                        forall|j: int| 0 <= j < i ==> (#[trigger] ss@[j]).0@ != system@,
                    decreases n - i,
                {
                    if str_eq(ss[i].0.as_str(), system) {
                        let copy = ss[i].1.duplicate();
                        proof {
                            let w = i as int;
                            assert(self.systems is Some);
                            let ssv = self.systems->Some_0;
                            assert(ssv == *ss);
                            assert(0 <= w < ssv@.len() && (#[trigger] ssv@[w]).0@ == system@
                                && copy.name@ == ssv@[w].1.name@ && copy.shell@ == ssv@[w].1.shell@
                                && copy.stages@.len() == ssv@[w].1.stages@.len() && (forall|k: int|
                                0 <= k < copy.stages@.len() ==> (#[trigger] copy.stages@[k]).command@
                                    == ssv@[w].1.stages@[k].command@ && copy.stages@[k].schedule
                                    == ssv@[w].1.stages@[k].schedule));
                        }
                        return Some(copy);
                    }
                    i = i + 1;
                }
                None
            },
        }
    }

    /// The configured jobs' names, in declaration order.
    pub fn systems_names(&self) -> (r: Vec<String>)
        requires
            self.systems is Some,
        ensures
            match self.systems {
                Some(ss) => r@.len() == ss@.len() && (forall|i: int|
                    0 <= i < r@.len() ==> (#[trigger] r@[i])@ == ss@[i].0@),
                None => false,
            },
    {
        let ss = match &self.systems {
            Some(ss) => ss,
            None => {
                unreached()
            },
        };
        let mut r: Vec<String> = Vec::new();
        let n = ss.len();
        let mut i: usize = 0;
        while i < n
            invariant
                n == ss@.len(),
                i <= n,
                r@.len() == i,
                forall|j: int| 0 <= j < i ==> (#[trigger] r@[j])@ == ss@[j].0@,
            decreases n - i,
        {
            r.push(ss[i].0.clone());
            i = i + 1;
        }
        r
    }

    /// Independent copies of every configured job, in declaration order:
    /// what the startup path hands to the worker pool, one per job.
    pub fn start_systems(&self) -> (r: Vec<SystemBuilder>)
        ensures
            match self.systems {
                Some(ss) => r@.len() == ss@.len() && (forall|i: int|
                    0 <= i < r@.len() ==> (#[trigger] r@[i]).name@ == ss@[i].1.name@
                        && r@[i].shell@ == ss@[i].1.shell@ && r@[i].stages@.len()
                        == ss@[i].1.stages@.len() && (forall|k: int|
                        0 <= k < r@[i].stages@.len() ==> (#[trigger] r@[i].stages@[k]).command@
                            == ss@[i].1.stages@[k].command@ && r@[i].stages@[k].schedule
                            == ss@[i].1.stages@[k].schedule)),
                None => r@.len() == 0,
            },
    {
        let mut r: Vec<SystemBuilder> = Vec::new();
        match &self.systems {
            None => r,
            Some(ss) => {
                let n = ss.len();
                let mut i: usize = 0;
                while i < n
                    invariant
                        n == ss@.len(),
                        i <= n,
                        r@.len() == i,
                        forall|j: int|
                            0 <= j < i ==> (#[trigger] r@[j]).name@ == ss@[j].1.name@
                                && r@[j].shell@ == ss@[j].1.shell@ && r@[j].stages@.len()
                                == ss@[j].1.stages@.len() && (forall|k: int|
                                0 <= k < r@[j].stages@.len() ==> (
                                #[trigger] r@[j].stages@[k]).command@
                                    == ss@[j].1.stages@[k].command@ && r@[j].stages@[k].schedule
                                    == ss@[j].1.stages@[k].schedule),
                    decreases n - i,
                {
                    r.push(ss[i].1.duplicate());
                    i = i + 1;
                }
                r
            },
        }
    }

    /// Replaces the configuration and the worker pool wholesale; the
    /// output buffer, with everything queued in it, stays as it is. Job
    /// copies handed out before the reload are values of their own and are
    /// unaffected.
    pub fn reload(
        &mut self,
        systems: Option<Vec<(String, SystemBuilder)>>,
        commands: Option<Vec<(String, CommandBuilder)>>,
        settings: Settings,
    )
        ensures
            final(self).systems == systems,
            final(self).commands == commands,
            final(self).settings == settings,
            final(self).pool_threads == settings.threads,
            final(self).buffer == old(self).buffer,
    {
        self.systems = systems;
        self.commands = commands;
        self.pool_threads = settings.threads;
        self.settings = settings;
    }

    /// Requests a flush of the output buffer; the background flusher
    /// drains it. Nothing else changes.
    pub fn flush_output(&mut self)
        ensures
            final(self).buffer.wf() == old(self).buffer.wf(),
            final(self).buffer.model() == old(self).buffer.model(),
            final(self).buffer.spec_next_id() == old(self).buffer.spec_next_id(),
            final(self).buffer.spec_flush_requested(),
            final(self).buffer.spec_last_flush() == old(self).buffer.spec_last_flush(),
            final(self).systems == old(self).systems,
            final(self).commands == old(self).commands,
            final(self).settings == old(self).settings,
            final(self).pool_threads == old(self).pool_threads,
    {
        self.buffer.request_flush();
    }
}

} // verus!
