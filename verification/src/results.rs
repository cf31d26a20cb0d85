//! The timings of one benchmark run, keyed by benchmark.

use crate::confidence::ConfidenceLevel;
use crate::keymap::KeyMap;
use crate::stats::{spec_ci, spec_mean, summarise_samples, SummaryStats};
use vstd::prelude::*;

verus! {

/// Why two result files cannot be compared.
#[derive(Debug)]
pub enum DimsError {
    /// The two files do not hold the same benchmarks.
    DifferentBenchmarks,
    /// Both files hold the benchmark `key`, with different numbers of samples.
    DifferentProcExecs { key: String },
}

impl DimsError {
    /// The text of the error, as it is reported.
    pub open spec fn spec_to_string(&self) -> Seq<char> {
        match self {
            DimsError::DifferentBenchmarks => "results files contain different benchmarks"@,
            DimsError::DifferentProcExecs { key } => "different number of process executions for "@
                + key@,
        }
    }

    /// The text of the error, as it is reported.
    pub fn to_string(&self) -> (text: String)
        ensures
            text@ == self.spec_to_string(),
    {
        match self {
            DimsError::DifferentBenchmarks => {
                "results files contain different benchmarks".to_owned()
            },
            DimsError::DifferentProcExecs { key } => {
                let mut text: String = "different number of process executions for ".to_owned();
                text.append(key.as_str());
                text
            },
        }
    }
}

/// The statistics that summarise one list of samples.
pub open spec fn spec_summary(samples: Seq<u32>, level: ConfidenceLevel) -> SummaryStats {
    SummaryStats { mean: spec_mean(samples) as i64, ci: spec_ci(samples, level) as u64 }
}

/// The results of one run: for each benchmark key the times of its process
/// executions, in milliseconds and in the order in which they were measured.
pub struct ResultFile {
    data: KeyMap<Vec<u32>>,
}

impl View for ResultFile {
    type V = Map<Seq<char>, Seq<u32>>;

    /// The samples of each key.
    open spec fn view(&self) -> Map<Seq<char>, Seq<u32>> {
        Map::new(
            |k: Seq<char>| self.keys().contains(k),
            |k: Seq<char>| self.samples()[self.keys().index_of(k)],
        )
    }
}

impl ResultFile {
    /// The keys, in the order in which they were first measured.
    pub closed spec fn keys(&self) -> Seq<Seq<char>> {
        self.data.spec_keys()
    }

    /// The sample lists, each at the position of its key.
    pub closed spec fn samples(&self) -> Seq<Seq<u32>> {
        Seq::new(self.data.spec_values().len(), |i: int| self.data.spec_values()[i]@)
    }

    /// No key occurs twice, and every key has at least one sample.
    pub closed spec fn wf(&self) -> bool {
        &&& self.data.wf()
        &&& forall|i: int| 0 <= i < self.samples().len() ==> (#[trigger] self.samples()[i]).len() > 0
    }

    /// No key has more samples than a 32-bit count holds.
    pub open spec fn countable(&self) -> bool {
        forall|i: int|
            0 <= i < self.samples().len() ==> (#[trigger] self.samples()[i]).len() <= u32::MAX
    }

    /// What well-formedness means for the keys and the sample lists.
    pub proof fn lemma_wf(&self)
        requires
            self.wf(),
        ensures
            self.keys().len() == self.samples().len(),
            self.keys().no_duplicates(),
            forall|i: int| 0 <= i < self.samples().len() ==> (#[trigger] self.samples()[i]).len() > 0,
            forall|i: int|
                0 <= i < self.keys().len() ==> self@.dom().contains(#[trigger] self.keys()[i])
                    && self@[self.keys()[i]] == self.samples()[i],
            forall|k: Seq<char>|
                self@.dom().contains(k) ==> 0 <= self.keys().index_of(k) < self.keys().len()
                    && self.keys()[self.keys().index_of(k)] == k,
    {
        assert forall|i: int| 0 <= i < self.keys().len() implies self@.dom().contains(
            #[trigger] self.keys()[i],
        ) && self@[self.keys()[i]] == self.samples()[i] by {
            self.data.lemma_position(i);
        }
    }

    pub fn new() -> (file: Self)
        ensures
            file.wf(),
            file@ == Map::<Seq<char>, Seq<u32>>::empty(),
            file.keys().len() == 0,
    {
        let file = ResultFile { data: KeyMap::new() };
        assert(file@ =~= Map::<Seq<char>, Seq<u32>>::empty());
        file
    }

    /// The number of keys.
    pub fn len(&self) -> (n: usize)
        requires
            self.wf(),
        ensures
            n == self.keys().len(),
            n == self.samples().len(),
    {
        self.data.len()
    }

    /// The key at position `i`.
    pub fn key_at(&self, i: usize) -> (key: &String)
        requires
            self.wf(),
            i < self.keys().len(),
        ensures
            key@ == self.keys()[i as int],
    {
        self.data.key_at(i)
    }

    /// The samples of the key at position `i`.
    pub fn samples_at(&self, i: usize) -> (samples: &Vec<u32>)
        requires
            self.wf(),
            i < self.keys().len(),
        ensures
            samples@ == self.samples()[i as int],
            samples@ == self@[self.keys()[i as int]],
            samples.len() > 0,
    {
        proof {
            self.lemma_wf();
        }
        self.data.value_at(i)
    }

    /// The samples of `key`, or `None` where the file does not hold it.
    pub fn get(&self, key: &str) -> (found: Option<&Vec<u32>>)
        requires
            self.wf(),
        ensures
            match found {
                Some(samples) => self@.dom().contains(key@) && samples@ == self@[key@],
                None => !self@.dom().contains(key@),
            },
    {
        match self.data.find(key) {
            Some(i) => Some(self.data.value_at(i)),
            None => None,
        }
    }

    /// Whether no key has more samples than a 32-bit count holds.
    pub fn is_countable(&self) -> (r: bool)
        requires
            self.wf(),
        ensures
            r == self.countable(),
    {
        let n: usize = self.data.len();
        let mut i: usize = 0;
        while i < n
            invariant
                self.wf(),
                i <= n,
                n == self.samples().len(),
                forall|j: int| 0 <= j < i ==> (#[trigger] self.samples()[j]).len() <= u32::MAX,
            decreases n - i,
        {
            if self.data.value_at(i).len() > u32::MAX as usize {
                assert(self.samples()[i as int].len() > u32::MAX);
                return false;
            }
            i += 1;
        }
        true
    }

    /// Records one more sample for `key`, after those it already has. A key
    /// that the file does not hold yet is added after the others.
    pub fn append(&mut self, key: &str, sample: u32)
        requires
            old(self).wf(),
        ensures
            final(self).wf(),
            final(self)@ == old(self)@.insert(
                key@,
                if old(self)@.dom().contains(key@) {
                    old(self)@[key@].push(sample)
                } else {
                    seq![sample]
                },
            ),
            final(self).keys() == if old(self)@.dom().contains(key@) {
                old(self).keys()
            } else {
                old(self).keys().push(key@)
            },
    {
        proof {
            self.lemma_wf();
        }
        match self.data.find(key) {
            Some(i) => {
                let list = self.data.value_mut(i);
                list.push(sample);
                proof {
                    assert(self.samples() =~= old(self).samples().update(
                        i as int,
                        old(self).samples()[i as int].push(sample),
                    ));
                    assert(self.wf());
                    self.lemma_wf();
                    assert(self@ =~= old(self)@.insert(key@, old(self)@[key@].push(sample)));
                }
            },
            None => {
                let mut list: Vec<u32> = Vec::new();
                list.push(sample);
                self.data.push(key.to_owned(), list);
                proof {
                    assert(self.samples() =~= old(self).samples().push(seq![sample]));
                    assert(self.wf());
                    self.lemma_wf();
                    let n = old(self).keys().len() as int;
                    assert(self.keys()[n] == key@);
                    assert forall|k: Seq<char>| old(self)@.dom().contains(k) implies self@.dom().contains(
                        k,
                    ) && self@[k] == old(self)@[k] by {
                        let j = old(self).keys().index_of(k);
                        assert(self.keys()[j] == k);
                    }
                    assert forall|k: Seq<char>| self@.dom().contains(k) implies k == key@ || old(
                        self,
                    )@.dom().contains(k) by {
                        let j = self.keys().index_of(k);
                        if j < n {
                            assert(old(self).keys()[j] == k);
                        }
                    }
                    assert(self@ =~= old(self)@.insert(key@, seq![sample]));
                }
            },
        }
    }
    /// The sample lists of this file and of `other` at position `i` of this
    /// file's keys differ in length.
    pub open spec fn mismatch_at(&self, other: &ResultFile, i: int) -> bool {
        self.samples()[i].len() != other@[self.keys()[i]].len()
    }

    /// Both files hold the same keys, each with as many samples in the one
    /// as in the other.
    pub open spec fn spec_same_dims(&self, other: &ResultFile) -> bool {
        &&& self@.dom() == other@.dom()
        &&& forall|k: Seq<char>| self@.dom().contains(k) ==> self@[k].len() == other@[k].len()
    }

    /// Check the results have the same data dimensionality.
    ///
    /// Succeeds exactly where the same set of benchmarks was run and, for each
    /// of them, the same number of process executions. Keys are looked at in
    /// the order of this file, and the first that differs is reported.
    pub fn same_dims(&self, other: &ResultFile) -> (r: Result<(), DimsError>)
        requires
            self.wf(),
            other.wf(),
        ensures
            r is Ok <==> self.spec_same_dims(other),
            r matches Err(DimsError::DifferentBenchmarks) <==> self@.dom() != other@.dom(),
            r matches Err(DimsError::DifferentProcExecs { key }) ==> exists|i: int|
                0 <= i < self.keys().len() && self.keys()[i] == key@ && self.mismatch_at(other, i)
                    && forall|j: int| 0 <= j < i ==> !self.mismatch_at(other, j),
    {
        proof {
            self.lemma_wf();
            other.lemma_wf();
        }
        let n: usize = self.len();
        let m: usize = other.len();
        let mut i: usize = 0;
        while i < n
            invariant
                self.wf(),
                other.wf(),
                i <= n,
                n == self.keys().len(),
                forall|j: int| 0 <= j < i ==> other@.dom().contains(#[trigger] self.keys()[j]),
            decreases n - i,
        {
            if other.data.find(self.data.key_at(i).as_str()).is_none() {
                proof {
                    self.lemma_wf();
                    assert(self@.dom().contains(self.keys()[i as int]));
                }
                return Err(DimsError::DifferentBenchmarks);
            }
            i += 1;
        }
        let mut j: usize = 0;
        while j < m
            invariant
                self.wf(),
                other.wf(),
                j <= m,
                m == other.keys().len(),
                forall|l: int| 0 <= l < j ==> self@.dom().contains(#[trigger] other.keys()[l]),
            decreases m - j,
        {
            if self.data.find(other.data.key_at(j).as_str()).is_none() {
                proof {
                    other.lemma_wf();
                    assert(other@.dom().contains(other.keys()[j as int]));
                }
                return Err(DimsError::DifferentBenchmarks);
            }
            j += 1;
        }
        proof {
            self.lemma_wf();
            other.lemma_wf();
            assert(self@.dom() =~= other@.dom());
        }
        let mut i: usize = 0;
        while i < n
            invariant
                self.wf(),
                other.wf(),
                i <= n,
                n == self.keys().len(),
                self@.dom() == other@.dom(),
                forall|j: int| 0 <= j < i ==> !self.mismatch_at(other, j),
            decreases n - i,
        {
            proof {
                self.lemma_wf();
                other.lemma_wf();
            }
            let key: &String = self.data.key_at(i);
            let mine: &Vec<u32> = self.data.value_at(i);
            let found: Option<&Vec<u32>> = other.get(key.as_str());
            assert(found is Some);
            let theirs: &Vec<u32> = found.unwrap();
            if mine.len() != theirs.len() {
                assert(self.mismatch_at(other, i as int));
                assert(self@[key@].len() != other@[key@].len());
                return Err(DimsError::DifferentProcExecs { key: key.clone() });
            }
            i += 1;
        }
        proof {
            self.lemma_wf();
            assert forall|k: Seq<char>| self@.dom().contains(k) implies self@[k].len() == other@[k].len() by {
                let l = self.keys().index_of(k);
                assert(!self.mismatch_at(other, l));
            }
        }
        Ok(())
    }

    /// Summarises each key's samples: their mean and the half-width of the
    /// confidence interval around it. The result has the keys of this file,
    /// in the same order.
    pub fn summarise(&self, confidence: ConfidenceLevel) -> (summaries: KeyMap<SummaryStats>)
        requires
            self.wf(),
            self.countable(),
        ensures
            summaries.wf(),
            summaries.spec_keys() == self.keys(),
            summaries.spec_values() == Seq::new(
                self.keys().len(),
                |i: int| spec_summary(self.samples()[i], confidence),
            ),
            summaries.as_map() == self@.map_values(
                |samples: Seq<u32>| spec_summary(samples, confidence),
            ),
    {
        proof {
            self.lemma_wf();
        }
        let n: usize = self.len();
        let mut summaries: KeyMap<SummaryStats> = KeyMap::new();
        let mut i: usize = 0;
        while i < n
            invariant
                self.wf(),
                self.countable(),
                i <= n,
                n == self.keys().len(),
                n == self.samples().len(),
                self.keys().no_duplicates(),
                summaries.wf(),
                summaries.spec_keys() == self.keys().take(i as int),
                summaries.spec_values() == Seq::new(
                    i as nat,
                    |l: int| spec_summary(self.samples()[l], confidence),
                ),
            decreases n - i,
        {
            let key: &String = self.data.key_at(i);
            let list: &Vec<u32> = self.samples_at(i);
            let stats: SummaryStats = summarise_samples(list, confidence);
            proof {
                assert(!summaries.contains(key@)) by {
                    if summaries.contains(key@) {
                        let l = summaries.spec_keys().index_of(key@);
                        assert(self.keys()[l] == self.keys()[i as int]);
                    }
                }
                assert(stats == spec_summary(self.samples()[i as int], confidence));
            }
            summaries.push(key.clone(), stats);
            proof {
                assert(self.keys().take(i + 1) =~= self.keys().take(i as int).push(key@));
                assert(summaries.spec_values() =~= Seq::new(
                    (i + 1) as nat,
                    |l: int| spec_summary(self.samples()[l], confidence),
                ));
            }
            i += 1;
        }
        proof {
            assert(self.keys().take(n as int) =~= self.keys());
            let f = |samples: Seq<u32>| spec_summary(samples, confidence);
            assert forall|k: Seq<char>| summaries.as_map().dom().contains(k) implies #[trigger] summaries.as_map()[k]
                == self@.map_values(f)[k] by {
                let l = self.keys().index_of(k);
                summaries.lemma_position(l);
            }
            assert(summaries.as_map() =~= self@.map_values(f));
        }
        summaries
    }
}

} // verus!
