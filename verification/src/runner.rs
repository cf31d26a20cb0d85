//! The decisions of a benchmark run.
//!
//! A run alternates between this module and its caller: the runner names the
//! next command, the caller executes it and reports how it ended, and the
//! runner records the time or gives the run up.

use crate::config::Config;
use crate::results::ResultFile;
use crate::schedule::{
    all_jobs, build_jobs, invocation_views, lemma_job_count, Invocation, InvocationView,
};
use crate::text::{
    decimal, decimal_string, pad_left, pad_left_string, round_half_even, round_half_even_u128,
};
use vstd::arithmetic::div_mod::lemma_multiply_divide_lt;
use vstd::prelude::*;

verus! {

/// How the execution of a command ended.
#[derive(Copy, Clone, Debug, PartialEq, Eq, Structural)]
pub enum Outcome {
    /// The process ran to its end, in `elapsed_ms` milliseconds.
    Finished { success: bool, elapsed_ms: u32 },
    /// The process could not be started.
    SpawnFailed,
}

/// Why a run was given up, or an outcome not recorded.
#[derive(Copy, Clone, Debug, PartialEq, Eq, Structural)]
pub enum RunError {
    /// A benchmark could not be started.
    SpawnFailed,
    /// A benchmark exited with a status other than zero.
    NonZeroExit,
    /// No command was waiting for an outcome.
    NothingScheduled,
}

impl RunError {
    /// The text of the error, as it is reported.
    pub open spec fn spec_to_string(&self) -> Seq<char> {
        match self {
            RunError::SpawnFailed => "error: failed to spawn benchmark!"@,
            RunError::NonZeroExit => "error: benchmark command exited non-zero!"@,
            RunError::NothingScheduled => "error: no benchmark is scheduled"@,
        }
    }

    /// The text of the error, as it is reported.
    pub fn to_string(&self) -> (text: String)
        ensures
            text@ == self.spec_to_string(),
    {
        match self {
            RunError::SpawnFailed => "error: failed to spawn benchmark!".to_owned(),
            RunError::NonZeroExit => "error: benchmark command exited non-zero!".to_owned(),
            RunError::NothingScheduled => "error: no benchmark is scheduled".to_owned(),
        }
    }
}

/// The share of `completed` in `total`, in percent, rounded to the nearest
/// whole number, a tie going to the even neighbour.
pub open spec fn spec_progress_percentage(completed: nat, total: nat) -> nat {
    round_half_even(completed * 100, total)
}

/// How far a run has come: the process executions completed so far over
/// those of the whole run, in percent.
pub fn get_progress_percentage(completed: u32, total: u32) -> (percent: u64)
    requires
        total > 0,
    ensures
        percent == spec_progress_percentage(completed as nat, total as nat),
{
    let r: u128 = round_half_even_u128(completed as u128 * 100, total as u128);
    proof {
        vstd::arithmetic::div_mod::lemma_div_nonincreasing(completed * 100, total as int);
    }
    r as u64
}

/// The line that announces the next process execution.
pub open spec fn announcement(percent: nat, key: Seq<char>) -> Seq<char> {
    ">>> haste: ("@ + pad_left(decimal(percent), 3) + "%) Running "@ + key
}

/// The line that reports the time of a process execution.
pub open spec fn elapsed_text(elapsed_ms: u32) -> Seq<char> {
    ">>> haste: "@ + decimal(elapsed_ms as nat) + "ms"@
}

/// Writes the line that reports the time of a process execution.
pub fn elapsed_line(elapsed_ms: u32) -> (line: String)
    ensures
        line@ == elapsed_text(elapsed_ms),
{
    let mut line: String = ">>> haste: ".to_owned();
    line.append(decimal_string(elapsed_ms as u128).as_str());
    line.append("ms");
    line
}

/// How many of the first `completed` process executions of a run measured
/// `key`. Each command is executed `proc_execs` times before the next.
pub open spec fn executions_of(
    jobs: Seq<InvocationView>,
    proc_execs: nat,
    completed: nat,
    key: Seq<char>,
) -> nat
    decreases completed,
{
    if completed == 0 {
        0
    } else {
        let earlier = executions_of(jobs, proc_execs, (completed - 1) as nat, key);
        if jobs[(completed - 1) / (proc_execs as int)].key == key {
            earlier + 1
        } else {
            earlier
        }
    }
}

/// The results hold the keys that were measured, each with one sample for
/// each of its process executions.
pub open spec fn recorded(
    results: Map<Seq<char>, Seq<u32>>,
    jobs: Seq<InvocationView>,
    proc_execs: nat,
    completed: nat,
) -> bool {
    forall|key: Seq<char>|
        (results.dom().contains(key) <==> #[trigger] executions_of(jobs, proc_execs, completed, key)
            > 0) && (results.dom().contains(key) ==> results[key].len() == executions_of(
            jobs,
            proc_execs,
            completed,
            key,
        ))
}

/// No key was measured more often than process executions were completed.
pub proof fn lemma_executions_bound(
    jobs: Seq<InvocationView>,
    proc_execs: nat,
    completed: nat,
    key: Seq<char>,
)
    ensures
        executions_of(jobs, proc_execs, completed, key) <= completed,
    decreases completed,
{
    if completed > 0 {
        lemma_executions_bound(jobs, proc_execs, (completed - 1) as nat, key);
    }
}

/// The state of a run: what was scheduled, how much of it is done, and the
/// timings measured so far.
pub struct Runner {
    jobs: Vec<Invocation>,
    proc_execs: usize,
    completed: usize,
    aborted: bool,
    results: ResultFile,
}

impl Runner {
    /// The commands of the run, each to be executed `spec_proc_execs` times.
    pub closed spec fn spec_jobs(&self) -> Seq<InvocationView> {
        invocation_views(self.jobs@)
    }

    /// How often each command is executed.
    pub closed spec fn spec_proc_execs(&self) -> nat {
        self.proc_execs as nat
    }

    /// The number of process executions completed so far.
    pub closed spec fn spec_completed(&self) -> nat {
        self.completed as nat
    }

    /// Whether the run was given up.
    pub closed spec fn spec_aborted(&self) -> bool {
        self.aborted
    }

    /// The timings measured so far.
    pub closed spec fn spec_results(&self) -> ResultFile {
        self.results
    }

    /// The number of process executions of the whole run.
    pub open spec fn spec_total(&self) -> nat {
        self.spec_jobs().len() * self.spec_proc_execs()
    }

    /// A command is waiting to be executed.
    pub open spec fn pending(&self) -> bool {
        !self.spec_aborted() && self.spec_completed() < self.spec_total()
    }

    /// The command that is waiting to be executed: each command is repeated
    /// `spec_proc_execs` times before the next one is taken up.
    pub open spec fn spec_current(&self) -> InvocationView {
        self.spec_jobs()[(self.spec_completed() / self.spec_proc_execs()) as int]
    }

    /// The count of completed process executions stays within the run, whose
    /// size a 32-bit count holds.
    pub closed spec fn wf(&self) -> bool {
        &&& self.results.wf()
        &&& self.completed as nat <= self.spec_total()
        &&& self.spec_total() <= u32::MAX
        &&& recorded(self.results@, self.spec_jobs(), self.proc_execs as nat, self.completed as nat)
    }

    /// What well-formedness gives to callers.
    pub proof fn lemma_wf(&self)
        requires
            self.wf(),
        ensures
            self.spec_results().wf(),
            self.spec_completed() <= self.spec_total() <= u32::MAX,
            recorded(
                self.spec_results()@,
                self.spec_jobs(),
                self.spec_proc_execs(),
                self.spec_completed(),
            ),
            self.pending() ==> self.spec_proc_execs() > 0 && self.spec_completed()
                / self.spec_proc_execs() < self.spec_jobs().len(),
    {
        if self.pending() {
            let p = self.spec_proc_execs() as int;
            let n = self.spec_jobs().len() as int;
            assert(p > 0) by (nonlinear_arith)
                requires
                    n * p > 0,
                    n >= 0,
                    p >= 0,
            ;
            assert(self.spec_completed() < p * n) by (nonlinear_arith)
                requires
                    self.spec_completed() < n * p,
            ;
            lemma_multiply_divide_lt(self.spec_completed() as int, p, n);
        }
    }

    /// Schedules the run that `config` describes. There is no runner for a
    /// run of more process executions than a 32-bit count holds.
    pub fn new(config: &Config) -> (made: Option<Runner>)
        requires
            config.wf(),
        ensures
            made is Some <==> config.spec_total_proc_execs() <= u32::MAX,
            made matches Some(runner) ==> {
                &&& runner.wf()
                &&& runner.spec_total() == config.spec_total_proc_execs()
                &&& runner.spec_jobs() == all_jobs(config)
                &&& runner.spec_proc_execs() == config.proc_execs
                &&& runner.spec_completed() == 0
                &&& !runner.spec_aborted()
                &&& runner.spec_results()@ == Map::<Seq<char>, Seq<u32>>::empty()
            },
    {
        let jobs: Vec<Invocation> = build_jobs(config);
        proof {
            lemma_job_count(config);
        }
        let count: u128 = jobs.len() as u128;
        let times: u128 = config.proc_execs as u128;
        assert(count * times <= 0xffff_ffff_ffff_ffff * 0xffff_ffff_ffff_ffff) by (nonlinear_arith)
            requires
                0 <= count <= 0xffff_ffff_ffff_ffff,
                0 <= times <= 0xffff_ffff_ffff_ffff,
        ;
        if count * times > u32::MAX as u128 {
            return None;
        }
        Some(
            Runner {
                jobs,
                proc_execs: config.proc_execs,
                completed: 0,
                aborted: false,
                results: ResultFile::new(),
            },
        )
    }

    /// The number of process executions completed so far.
    pub fn completed(&self) -> (n: usize)
        ensures
            n == self.spec_completed(),
    {
        self.completed
    }

    /// The number of process executions of the whole run.
    pub fn total(&self) -> (n: usize)
        requires
            self.wf(),
        ensures
            n == self.spec_total(),
    {
        proof {
            assert(self.jobs.len() == self.spec_jobs().len());
        }
        self.jobs.len() * self.proc_execs
    }

    /// Whether the run came to its end without being given up.
    pub fn is_done(&self) -> (done: bool)
        requires
            self.wf(),
        ensures
            done == (!self.spec_aborted() && self.spec_completed() == self.spec_total()),
    {
        !self.aborted && self.completed == self.total()
    }
    /// The command to execute next, with the line that announces it, or
    /// `None` where the run has ended or was given up.
    pub fn next(&self) -> (step: Option<(&Invocation, String)>)
        requires
            self.wf(),
        ensures
            step is Some <==> self.pending(),
            step matches Some((invocation, line)) ==> invocation@ == self.spec_current() && line@
                == announcement(
                spec_progress_percentage(self.spec_completed(), self.spec_total()),
                invocation@.key,
            ),
    {
        proof {
            self.lemma_wf();
            assert(self.jobs.len() == self.spec_jobs().len());
        }
        let total: usize = self.total();
        if self.aborted || self.completed >= total {
            return None;
        }
        let invocation: &Invocation = &self.jobs[self.completed / self.proc_execs];
        let percent: u64 = get_progress_percentage(self.completed as u32, total as u32);
        let mut line: String = ">>> haste: (".to_owned();
        line.append(pad_left_string(&decimal_string(percent as u128), 3).as_str());
        line.append("%) Running ");
        line.append(invocation.key.as_str());
        Some((invocation, line))
    }

    /// Takes note of how the command that was waiting ended.
    ///
    /// A process that ran to its end with success has its time recorded under
    /// the key of its command, and the run goes on. Any other end gives the
    /// run up: nothing is recorded, and no command is named any more.
    pub fn record(&mut self, outcome: Outcome) -> (r: Result<(), RunError>)
        requires
            old(self).wf(),
        ensures
            final(self).wf(),
            final(self).spec_jobs() == old(self).spec_jobs(),
            final(self).spec_proc_execs() == old(self).spec_proc_execs(),
            !old(self).pending() ==> r == Err::<(), RunError>(RunError::NothingScheduled)
                && final(self).spec_aborted() == old(self).spec_aborted()
                && final(self).spec_completed() == old(self).spec_completed()
                && final(self).spec_results()@ == old(self).spec_results()@,
            old(self).pending() ==> match outcome {
                Outcome::Finished { success: true, elapsed_ms } => {
                    let key = old(self).spec_current().key;
                    let before = old(self).spec_results()@;
                    &&& r is Ok
                    &&& !final(self).spec_aborted()
                    &&& final(self).spec_completed() == old(self).spec_completed() + 1
                    &&& final(self).spec_results()@ == before.insert(
                        key,
                        if before.dom().contains(key) {
                            before[key].push(elapsed_ms)
                        } else {
                            seq![elapsed_ms]
                        },
                    )
                },
                Outcome::Finished { success: false, elapsed_ms } => {
                    &&& r == Err::<(), RunError>(RunError::NonZeroExit)
                    &&& final(self).spec_aborted()
                    &&& final(self).spec_completed() == old(self).spec_completed()
                    &&& final(self).spec_results()@ == old(self).spec_results()@
                },
                Outcome::SpawnFailed => {
                    &&& r == Err::<(), RunError>(RunError::SpawnFailed)
                    &&& final(self).spec_aborted()
                    &&& final(self).spec_completed() == old(self).spec_completed()
                    &&& final(self).spec_results()@ == old(self).spec_results()@
                },
            },
    {
        proof {
            self.lemma_wf();
            assert(self.jobs.len() == self.spec_jobs().len());
        }
        let total: usize = self.total();
        if self.aborted || self.completed >= total {
            return Err(RunError::NothingScheduled);
        }
        match outcome {
            Outcome::Finished { success, elapsed_ms } => {
                if success {
                    let job: usize = self.completed / self.proc_execs;
                    self.results.append(self.jobs[job].key.as_str(), elapsed_ms);
                    self.completed = self.completed + 1;
                    proof {
                        let key = old(self).spec_current().key;
                        assert(self.jobs[job as int]@.key == key);
                        assert forall|k: Seq<char>|
                            (self.results@.dom().contains(k) <==> #[trigger] executions_of(
                                self.spec_jobs(),
                                self.proc_execs as nat,
                                self.completed as nat,
                                k,
                            ) > 0) && (self.results@.dom().contains(k) ==> self.results@[k].len()
                                == executions_of(
                                self.spec_jobs(),
                                self.proc_execs as nat,
                                self.completed as nat,
                                k,
                            )) by {
                            let before = executions_of(
                                old(self).spec_jobs(),
                                old(self).proc_execs as nat,
                                old(self).completed as nat,
                                k,
                            );
                            assert(before > 0 <==> old(self).results@.dom().contains(k));
                        }
                    }
                    Ok(())
                } else {
                    self.aborted = true;
                    Err(RunError::NonZeroExit)
                }
            },
            Outcome::SpawnFailed => {
                self.aborted = true;
                Err(RunError::SpawnFailed)
            },
        }
    }

    /// The results of the run, where it came to its end; `None` where
    /// commands are still waiting or the run was given up, whatever was
    /// measured until then.
    pub fn finish(self) -> (results: Option<ResultFile>)
        requires
            self.wf(),
        ensures
            results is Some <==> !self.spec_aborted() && self.spec_completed() == self.spec_total(),
            results matches Some(file) ==> {
                &&& file.wf()
                &&& file.countable()
                &&& file@ == self.spec_results()@
                &&& file.keys() == self.spec_results().keys()
                &&& recorded(file@, self.spec_jobs(), self.spec_proc_execs(), self.spec_total())
            },
    {
        proof {
            self.lemma_wf();
            self.results.lemma_wf();
            assert forall|i: int| 0 <= i < self.results.samples().len() implies (
            #[trigger] self.results.samples()[i]).len() <= u32::MAX by {
                let key = self.results.keys()[i];
                assert(self.results@.dom().contains(key));
                lemma_executions_bound(
                    self.spec_jobs(),
                    self.spec_proc_execs(),
                    self.spec_completed(),
                    key,
                );
            }
        }
        if self.is_done() {
            Some(self.results)
        } else {
            None
        }
    }
}

} // verus!
