//! The identity of a benchmark.

use crate::text::{clone_strings, join, join_strings, same_strings, views};
use vstd::prelude::*;

verus! {

/// Uniquely identifies a benchmark: its name, the executor that runs it and
/// the extra arguments it is run with.
#[derive(Debug, PartialEq, Eq, Hash)]
pub struct BenchKey {
    pub benchmark: String,
    pub executor: String,
    pub extra_args: Vec<String>,
}

/// A key as a mathematical value.
pub struct BenchKeyView {
    pub benchmark: Seq<char>,
    pub executor: Seq<char>,
    pub extra_args: Seq<Seq<char>>,
}

/// The text of a key: the benchmark, the executor and the extra arguments
/// joined by `-`, with `/` between the three.
pub open spec fn key_text(key: BenchKeyView) -> Seq<char> {
    key.benchmark + seq!['/'] + key.executor + seq!['/'] + join(key.extra_args, seq!['-'])
}

impl View for BenchKey {
    type V = BenchKeyView;

    open spec fn view(&self) -> BenchKeyView {
        BenchKeyView {
            benchmark: self.benchmark@,
            executor: self.executor@,
            extra_args: views(self.extra_args@),
        }
    }
}

impl Clone for BenchKey {
    fn clone(&self) -> (copy: Self)
        ensures
            copy@ == self@,
    {
        BenchKey {
            benchmark: self.benchmark.clone(),
            executor: self.executor.clone(),
            extra_args: clone_strings(&self.extra_args),
        }
    }
}

impl BenchKey {
    pub fn new(benchmark: String, executor: String, extra_args: Vec<String>) -> (key: Self)
        ensures
            key.benchmark == benchmark,
            key.executor == executor,
            key.extra_args == extra_args,
    {
        BenchKey { benchmark, executor, extra_args }
    }

    /// Whether two keys are equal: all three fields are, the extra arguments
    /// in their order.
    pub fn same(&self, other: &BenchKey) -> (r: bool)
        ensures
            r == (self@ == other@),
    {
        self.benchmark == other.benchmark && self.executor == other.executor && same_strings(
            &self.extra_args,
            &other.extra_args,
        )
    }

    /// The text under which the key's results are stored and shown.
    pub fn to_string(&self) -> (text: String)
        ensures
            text@ == key_text(self@),
    {
        proof {
            reveal_strlit("/");
            reveal_strlit("-");
            assert("/"@ =~= seq!['/']);
            assert("-"@ =~= seq!['-']);
        }
        let mut text: String = self.benchmark.clone();
        text.append("/");
        text.append(self.executor.as_str());
        text.append("/");
        text.append(join_strings(&self.extra_args, "-").as_str());
        text
    }
}

} // verus!
