//! The schedule of a run: which commands it consists of, in which order.

use crate::config::{Benchmark, Config, Suite};
use crate::key::{key_text, BenchKey, BenchKeyView};
use crate::text::{clone_strings, decimal, decimal_string, views};
use vstd::prelude::*;

verus! {

/// One command of a run: a benchmark to be measured with one executor.
#[derive(Debug)]
pub struct Invocation {
    /// The key under which the command's timings are recorded.
    pub key: String,
    /// The program to start: the executor.
    pub program: String,
    /// Its arguments: the harness, the benchmark's name, the number of
    /// in-process iterations, and the benchmark's extra arguments.
    pub args: Vec<String>,
    /// The directory to run it in.
    pub dir: String,
    /// The environment variables to set for it, over those of this process.
    pub env: Vec<(String, String)>,
}

/// An invocation as a mathematical value.
pub struct InvocationView {
    pub key: Seq<char>,
    pub program: Seq<char>,
    pub args: Seq<Seq<char>>,
    pub dir: Seq<char>,
    pub env: Seq<(Seq<char>, Seq<char>)>,
}

/// The views of a list of pairs of strings.
pub open spec fn pair_views(pairs: Seq<(String, String)>) -> Seq<(Seq<char>, Seq<char>)> {
    Seq::new(pairs.len(), |i: int| (pairs[i].0@, pairs[i].1@))
}

impl View for Invocation {
    type V = InvocationView;

    open spec fn view(&self) -> InvocationView {
        InvocationView {
            key: self.key@,
            program: self.program@,
            args: views(self.args@),
            dir: self.dir@,
            env: pair_views(self.env@),
        }
    }
}

/// The views of a list of invocations.
pub open spec fn invocation_views(jobs: Seq<Invocation>) -> Seq<InvocationView> {
    Seq::new(jobs.len(), |i: int| jobs[i]@)
}

/// The environment of a suite, in the order of its variables.
pub open spec fn suite_env(suite: &Suite) -> Seq<(Seq<char>, Seq<char>)> {
    Seq::new(
        suite.env.spec_keys().len(),
        |i: int| (suite.env.spec_keys()[i], suite.env.spec_values()[i]@),
    )
}

/// The command that measures benchmark `b` of suite `s` with executor `e`.
pub open spec fn job(config: &Config, e: int, s: int, b: int) -> InvocationView {
    let suite = config.suites.spec_values()[s];
    let name = suite.benchmarks.spec_keys()[b];
    let extra = views(suite.benchmarks.spec_values()[b].extra_args@);
    InvocationView {
        key: key_text(
            BenchKeyView {
                benchmark: name,
                executor: config.executors.spec_keys()[e],
                extra_args: extra,
            },
        ),
        program: config.executors.spec_values()[e]@,
        args: seq![suite.harness@, name, decimal(config.inproc_iters as nat)] + extra,
        dir: suite.dir@,
        env: suite_env(&suite),
    }
}

/// The commands of the first `count` benchmarks of suite `s` with executor `e`.
pub open spec fn suite_jobs(config: &Config, e: int, s: int, count: int) -> Seq<InvocationView> {
    Seq::new(count as nat, |b: int| job(config, e, s, b))
}

/// The commands of the first `count` suites with executor `e`.
pub open spec fn executor_jobs(config: &Config, e: int, count: int) -> Seq<InvocationView>
    decreases count,
{
    if count <= 0 {
        Seq::empty()
    } else {
        executor_jobs(config, e, count - 1) + suite_jobs(
            config,
            e,
            count - 1,
            config.suites.spec_values()[count - 1].benchmarks.spec_len() as int,
        )
    }
}

/// The commands of the first `count` executors.
pub open spec fn jobs_upto(config: &Config, count: int) -> Seq<InvocationView>
    decreases count,
{
    if count <= 0 {
        Seq::empty()
    } else {
        jobs_upto(config, count - 1) + executor_jobs(
            config,
            count - 1,
            config.suites.spec_len() as int,
        )
    }
}

/// The commands of a run, each of which is repeated `proc_execs` times:
/// executor by executor, suite by suite, benchmark by benchmark.
pub open spec fn all_jobs(config: &Config) -> Seq<InvocationView> {
    jobs_upto(config, config.executors.spec_len() as int)
}

proof fn lemma_executor_job_count(config: &Config, e: int, count: int)
    requires
        0 <= count,
    ensures
        executor_jobs(config, e, count).len() == config.benchmarks_upto(count),
    decreases count,
{
    if count > 0 {
        lemma_executor_job_count(config, e, count - 1);
    }
}

proof fn lemma_jobs_upto_count(config: &Config, count: int)
    requires
        0 <= count,
    ensures
        jobs_upto(config, count).len() == count * config.spec_benchmark_count(),
    decreases count,
{
    let each = config.spec_benchmark_count() as int;
    if count > 0 {
        lemma_jobs_upto_count(config, count - 1);
        lemma_executor_job_count(config, count - 1, config.suites.spec_len() as int);
        assert(count * each == (count - 1) * each + each) by (nonlinear_arith);
    } else {
        assert(0 * each == 0);
    }
}

/// A run has one command for each benchmark of each suite with each executor.
pub proof fn lemma_job_count(config: &Config)
    ensures
        all_jobs(config).len() == config.spec_benchmark_count() * config.executors.spec_len(),
{
    lemma_jobs_upto_count(config, config.executors.spec_len() as int);
    vstd::arithmetic::mul::lemma_mul_is_commutative(
        config.spec_benchmark_count() as int,
        config.executors.spec_len() as int,
    );
}

/// Copies the environment of a suite.
fn copy_env(suite: &Suite) -> (env: Vec<(String, String)>)
    requires
        suite.wf(),
    ensures
        pair_views(env@) == suite_env(suite),
{
    let n: usize = suite.env.len();
    let mut env: Vec<(String, String)> = Vec::new();
    let mut i: usize = 0;
    while i < n
        invariant
            suite.wf(),
            i <= n,
            n == suite.env.spec_len(),
            env.len() == i,
            forall|j: int|
                0 <= j < i ==> (#[trigger] env[j]).0@ == suite.env.spec_keys()[j] && env[j].1@
                    == suite.env.spec_values()[j]@,
        decreases n - i,
    {
        let name: String = suite.env.key_at(i).clone();
        let value: String = suite.env.value_at(i).clone();
        env.push((name, value));
        i += 1;
    }
    assert(pair_views(env@) =~= suite_env(suite));
    env
}

/// Makes the command that measures benchmark `b` of suite `s` with executor `e`.
fn make_job(config: &Config, e: usize, s: usize, b: usize) -> (made: Invocation)
    requires
        config.wf(),
        e < config.executors.spec_len(),
        s < config.suites.spec_len(),
        b < config.suites.spec_values()[s as int].benchmarks.spec_len(),
    ensures
        made@ == job(config, e as int, s as int, b as int),
{
    let suite: &Suite = config.suites.value_at(s);
    assert(suite.wf());
    let name: &String = suite.benchmarks.key_at(b);
    let bench: &Benchmark = suite.benchmarks.value_at(b);
    let key: BenchKey = BenchKey::new(
        name.clone(),
        config.executors.key_at(e).clone(),
        clone_strings(&bench.extra_args),
    );
    let ghost extra: Seq<Seq<char>> = views(bench.extra_args@);
    let mut args: Vec<String> = Vec::new();
    args.push(suite.harness.clone());
    args.push(name.clone());
    args.push(decimal_string(config.inproc_iters as u128));
    let ghost head: Seq<Seq<char>> = seq![
        suite.harness@,
        name@,
        decimal(config.inproc_iters as nat),
    ];
    assert(views(args@) =~= head);
    let mut i: usize = 0;
    while i < bench.extra_args.len()
        invariant
            i <= bench.extra_args.len(),
            extra == views(bench.extra_args@),
            views(args@) == head + extra.take(i as int),
        decreases bench.extra_args.len() - i,
    {
        let ghost earlier: Seq<Seq<char>> = views(args@);
        args.push(bench.extra_args[i].clone());
        assert(views(args@) =~= earlier.push(bench.extra_args[i as int]@));
        assert(head + extra.take(i + 1) =~= (head + extra.take(i as int)).push(extra[i as int]));
        i += 1;
    }
    assert(extra.take(bench.extra_args.len() as int) =~= extra);
    Invocation {
        key: key.to_string(),
        program: config.executors.value_at(e).clone(),
        args,
        dir: suite.dir.clone(),
        env: copy_env(suite),
    }
}

/// Lists the commands of a run in their order.
pub fn build_jobs(config: &Config) -> (jobs: Vec<Invocation>)
    requires
        config.wf(),
    ensures
        invocation_views(jobs@) == all_jobs(config),
{
    let executors: usize = config.executors.len();
    let suites: usize = config.suites.len();
    let mut jobs: Vec<Invocation> = Vec::new();
    let mut e: usize = 0;
    assert(invocation_views(jobs@) =~= jobs_upto(config, 0));
    while e < executors
        invariant
            config.wf(),
            e <= executors,
            executors == config.executors.spec_len(),
            suites == config.suites.spec_len(),
            invocation_views(jobs@) == jobs_upto(config, e as int),
        decreases executors - e,
    {
        let ghost done: Seq<InvocationView> = jobs_upto(config, e as int);
        let mut s: usize = 0;
        assert(invocation_views(jobs@) =~= done + executor_jobs(config, e as int, 0));
        while s < suites
            invariant
                config.wf(),
                e < executors,
                s <= suites,
                executors == config.executors.spec_len(),
                suites == config.suites.spec_len(),
                invocation_views(jobs@) == done + executor_jobs(config, e as int, s as int),
            decreases suites - s,
        {
            let ghost before: Seq<InvocationView> = invocation_views(jobs@);
            let count: usize = config.suites.value_at(s).benchmarks.len();
            let mut b: usize = 0;
            assert(invocation_views(jobs@) =~= before + suite_jobs(config, e as int, s as int, 0));
            while b < count
                invariant
                    config.wf(),
                    e < executors,
                    s < suites,
                    b <= count,
                    executors == config.executors.spec_len(),
                    suites == config.suites.spec_len(),
                    count == config.suites.spec_values()[s as int].benchmarks.spec_len(),
                    invocation_views(jobs@) == before + suite_jobs(
                        config,
                        e as int,
                        s as int,
                        b as int,
                    ),
                decreases count - b,
            {
                let ghost earlier: Seq<InvocationView> = invocation_views(jobs@);
                let made: Invocation = make_job(config, e, s, b);
                jobs.push(made);
                proof {
                    assert(invocation_views(jobs@) =~= earlier.push(
                        job(config, e as int, s as int, b as int),
                    ));
                    assert(suite_jobs(config, e as int, s as int, b + 1) =~= suite_jobs(
                        config,
                        e as int,
                        s as int,
                        b as int,
                    ).push(job(config, e as int, s as int, b as int)));
                }
                b += 1;
            }
            proof {
                assert(done + executor_jobs(config, e as int, s + 1) =~= before + suite_jobs(
                    config,
                    e as int,
                    s as int,
                    count as int,
                ));
            }
            s += 1;
        }
        e += 1;
    }
    jobs
}

} // verus!
