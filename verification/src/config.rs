//! The configuration of a benchmark run.

use crate::keymap::KeyMap;
use vstd::prelude::*;

verus! {

/// One benchmark of a suite.
#[derive(Debug)]
pub struct Benchmark {
    /// Extra arguments to pass to this benchmark (if any).
    pub extra_args: Vec<String>,
}

/// A suite of benchmarks that share a harness.
#[derive(Debug)]
pub struct Suite {
    /// The directory to change into for this suite.
    pub dir: String,
    /// The harness to use for this suite. It is called with the name of the
    /// benchmark, the number of in-process iterations and the benchmark's
    /// extra arguments.
    pub harness: String,
    /// Extra environment to apply when running benchmarks in this suite (if any).
    pub env: KeyMap<String>,
    /// Benchmarks in this suite, by name.
    pub benchmarks: KeyMap<Benchmark>,
}

/// What to run: which executors, on which suites, how often.
#[derive(Debug)]
pub struct Config {
    /// The number of process executions (repetitions using fresh processes).
    pub proc_execs: usize,
    /// The number of in-process iterations (iterations inside each process).
    pub inproc_iters: usize,
    /// The binaries to benchmark with: each name with the path to its binary.
    pub executors: KeyMap<String>,
    /// The benchmark suites to use, by name.
    pub suites: KeyMap<Suite>,
}

impl Suite {
    /// The suite's maps are well-formed.
    pub open spec fn wf(&self) -> bool {
        self.env.wf() && self.benchmarks.wf()
    }
}

impl Config {
    /// The configuration's maps and those of its suites are well-formed.
    pub open spec fn wf(&self) -> bool {
        &&& self.executors.wf()
        &&& self.suites.wf()
        &&& forall|s: int|
            0 <= s < self.suites.spec_values().len() ==> (#[trigger] self.suites.spec_values()[s]).wf()
    }

    /// The number of benchmarks in the first `count` suites.
    pub open spec fn benchmarks_upto(&self, count: int) -> nat
        decreases count,
    {
        if count <= 0 {
            0
        } else {
            self.benchmarks_upto(count - 1) + self.suites.spec_values()[count - 1].benchmarks.spec_len()
        }
    }

    /// The number of benchmarks across all suites.
    pub open spec fn spec_benchmark_count(&self) -> nat {
        self.benchmarks_upto(self.suites.spec_len() as int)
    }

    /// The number of process executions of a whole run: every benchmark of
    /// every suite, with every executor, `proc_execs` times.
    pub open spec fn spec_total_proc_execs(&self) -> nat {
        self.spec_benchmark_count() * self.executors.spec_len() * (self.proc_execs as nat)
    }
}

} // verus!
