//! The bookkeeping of background Mermaid rendering: which diagrams are being rendered, which
//! new jobs to start, and whether a finished job still belongs to the document on screen.
use vstd::prelude::*;

use crate::app::{
    apply_blocks, apply_mermaid_result, blocks_pending, job_state, pending_mermaid_sources,
    MermaidJobResult,
};
use crate::document::model::{blocks_view, Block, Document, DocumentV};
use crate::mermaid::cache::{mermaid_key_of, MermaidCache};
use crate::text::strings_view;

verus! {

/// How many diagrams are rendered at the same time at most.
pub const MAX_CONCURRENT_MERMAID_JOBS: usize = 4;

/// A rendering job to start: the cache key of the diagram and its source.
#[derive(Debug)]
pub struct MermaidJob {
    pub key: String,
    pub source: String,
}

pub open spec fn job_view(j: MermaidJob) -> (Seq<char>, Seq<char>) {
    (j.key@, j.source@)
}

pub open spec fn jobs_view(s: Seq<MermaidJob>) -> Seq<(Seq<char>, Seq<char>)> {
    s.map_values(|j: MermaidJob| job_view(j))
}

/// The keys of the diagrams being rendered, and the generation of the document they belong
/// to; each reload starts a new generation.
#[derive(Debug)]
pub struct MermaidJobs {
    in_flight: Vec<String>,
    generation: u64,
}

pub ghost struct JobsModel {
    pub in_flight: Seq<Seq<char>>,
    pub generation: u64,
}

impl View for MermaidJobs {
    type V = JobsModel;

    closed spec fn view(&self) -> JobsModel {
        JobsModel { in_flight: strings_view(self.in_flight@), generation: self.generation }
    }
}

/// What the job bookkeeping keeps: no key is rendered twice at once, and no more than the
/// limit are rendered together.
pub open spec fn jobs_wf(m: JobsModel) -> bool {
    m.in_flight.no_duplicates() && m.in_flight.len() <= MAX_CONCURRENT_MERMAID_JOBS
}

/// One source considered for a new job: skipped when the limit is reached or its key is
/// already being rendered, else its key is taken and a job started.
pub open spec fn schedule_step(
    state: (Seq<Seq<char>>, Seq<(Seq<char>, Seq<char>)>),
    source: Seq<char>,
) -> (Seq<Seq<char>>, Seq<(Seq<char>, Seq<char>)>) {
    let (keys, started) = state;
    let key = mermaid_key_of(source);
    if keys.len() >= MAX_CONCURRENT_MERMAID_JOBS || keys.contains(key) {
        state
    } else {
        (keys.push(key), started.push((key, source)))
    }
}

/// The keys in flight and the jobs started after considering `sources` in order.
pub open spec fn schedule_all(keys: Seq<Seq<char>>, sources: Seq<Seq<char>>) -> (Seq<Seq<char>>, Seq<(Seq<char>, Seq<char>)>)
    decreases sources.len(),
{
    if sources.len() == 0 {
        (keys, seq![])
    } else {
        schedule_step(schedule_all(keys, sources.drop_last()), sources.last())
    }
}

impl MermaidJobs {
    /// No job in flight, generation zero.
    pub fn new() -> (jobs: MermaidJobs)
        ensures
            jobs@.in_flight.len() == 0,
            jobs@.generation == 0,
            jobs_wf(jobs@),
    {
        let jobs = MermaidJobs { in_flight: Vec::new(), generation: 0 };
        assert(jobs@.in_flight =~= Seq::<Seq<char>>::empty());
        jobs
    }

    /// The generation that current results must carry.
    pub fn generation(&self) -> (g: u64)
        ensures
            g == self@.generation,
    {
        self.generation
    }

    /// How many jobs are in flight.
    pub fn len(&self) -> (n: usize)
        ensures
            n == self@.in_flight.len(),
    {
        self.in_flight.len()
    }

    /// Forgets the jobs in flight and starts a new generation, for a reloaded document.
    pub fn restart(&mut self)
        ensures
            final(self)@.in_flight.len() == 0,
            final(self)@.generation == (old(self)@.generation + 1) % 0x1_0000_0000_0000_0000,
            jobs_wf(final(self)@),
    {
        self.in_flight = Vec::new();
        self.generation = self.generation.wrapping_add(1);
        assert(self@.in_flight =~= Seq::<Seq<char>>::empty());
    }

    fn contains_key(&self, key: &String) -> (b: bool)
        ensures
            b == self@.in_flight.contains(key@),
    {
        let ghost v = self@.in_flight;
        let mut k: usize = 0;
        while k < self.in_flight.len()
            invariant
                k <= self.in_flight.len(),
                v == strings_view(self.in_flight@),
                forall|j: int| 0 <= j < k ==> v[j] != key@,
            decreases self.in_flight.len() - k,
        {
            if self.in_flight[k].eq(key) {
                assert(v[k as int] == key@);
                return true;
            }
            k += 1;
        }
        false
    }

    /// Picks the jobs to start for the pending diagrams of `blocks`, in document order: none
    /// when Mermaid rendering is off; else each source whose key is not in flight yet, until
    /// the limit of jobs in flight is reached. The keys of the jobs started are now in flight.
    pub fn schedule(&mut self, render_mermaid: bool, blocks: &[Block]) -> (jobs: Vec<MermaidJob>)
        requires
            jobs_wf(old(self)@),
        ensures
            jobs_wf(final(self)@),
            final(self)@.generation == old(self)@.generation,
            !render_mermaid ==> final(self)@ == old(self)@ && jobs@.len() == 0,
            render_mermaid ==> (final(self)@.in_flight, jobs_view(jobs@)) == schedule_all(
                old(self)@.in_flight,
                blocks_pending(blocks_view(blocks@)),
            ),
    {
        let mut started: Vec<MermaidJob> = Vec::new();
        if !render_mermaid {
            return started;
        }
        let sources = pending_mermaid_sources(blocks);
        let ghost sv = strings_view(sources@);
        let ghost keys0 = self@.in_flight;
        let mut i: usize = 0;
        while i < sources.len()
            invariant
                i <= sources.len(),
                sv == strings_view(sources@),
                sv == blocks_pending(blocks_view(blocks@)),
                jobs_wf(self@),
                self@.generation == old(self)@.generation,
                keys0 == old(self)@.in_flight,
                (self@.in_flight, jobs_view(started@)) == schedule_all(keys0, sv.take(i as int)),
            decreases sources.len() - i,
        {
            assert(sv.take(i + 1).drop_last() =~= sv.take(i as int));
            assert(sv.take(i + 1).last() == sources@[i as int]@);
            if self.in_flight.len() < MAX_CONCURRENT_MERMAID_JOBS {
                let key = MermaidCache::key(sources[i].as_str());
                if !self.contains_key(&key) {
                    let ghost before = self.in_flight@;
                    let ghost started_before = started@;
                    self.in_flight.push(key.clone());
                    assert(strings_view(self.in_flight@) =~= strings_view(before).push(key@));
                    assert forall|a: int, b: int| 0 <= a < b < self@.in_flight.len() implies self@.in_flight[a] != self@.in_flight[b] by {
                        if b == self@.in_flight.len() - 1 {
                            assert(strings_view(before).contains(strings_view(before)[a]));
                        }
                    }
                    started.push(MermaidJob { key, source: sources[i].clone() });
                    assert(jobs_view(started@) =~= jobs_view(started_before).push((key@, sources@[i as int]@)));
                }
            }
            i += 1;
        }
        assert(sv.take(i as int) =~= sv);
        started
    }

    /// Forgets the job of `key`: its result has come back.
    pub fn finish(&mut self, key: &String)
        requires
            jobs_wf(old(self)@),
        ensures
            jobs_wf(final(self)@),
            final(self)@.generation == old(self)@.generation,
            !final(self)@.in_flight.contains(key@),
            forall|k: Seq<char>| k != key@ ==> (final(self)@.in_flight.contains(k) <==> old(self)@.in_flight.contains(k)),
    {
        let ghost v0 = self@.in_flight;
        let mut k: usize = 0;
        while k < self.in_flight.len()
            invariant
                k <= self.in_flight.len(),
                v0 == strings_view(self.in_flight@),
                v0 == old(self)@.in_flight,
                jobs_wf(old(self)@),
                self@.generation == old(self)@.generation,
                forall|j: int| 0 <= j < k ==> v0[j] != key@,
            decreases self.in_flight.len() - k,
        {
            if self.in_flight[k].eq(key) {
                let ghost before = self.in_flight@;
                self.in_flight.remove(k);
                assert(strings_view(self.in_flight@) =~= v0.remove(k as int));
                assert forall|j: int, l: int| 0 <= j < l < v0.remove(k as int).len() implies v0.remove(k as int)[j] != v0.remove(k as int)[l] by {
                    if j >= k {
                        assert(v0.remove(k as int)[j] == v0[j + 1]);
                    }
                    if l >= k {
                        assert(v0.remove(k as int)[l] == v0[l + 1]);
                    }
                }
                assert(!v0.remove(k as int).contains(key@)) by {
                    if v0.remove(k as int).contains(key@) {
                        let j = choose|j: int| 0 <= j < v0.remove(k as int).len() && v0.remove(k as int)[j] == key@;
                        if j < k {
                        } else {
                            assert(v0[j + 1] == key@);
                            assert(v0[k as int] == key@);
                        }
                    }
                }
                assert forall|x: Seq<char>| x != key@ implies (v0.remove(k as int).contains(x) <==> v0.contains(x)) by {
                    if v0.contains(x) {
                        let j = choose|j: int| 0 <= j < v0.len() && v0[j] == x;
                        if j < k {
                            assert(v0.remove(k as int)[j] == x);
                        } else if j > k {
                            assert(v0.remove(k as int)[j - 1] == x);
                        }
                    }
                    if v0.remove(k as int).contains(x) {
                        let j = choose|j: int| 0 <= j < v0.remove(k as int).len() && v0.remove(k as int)[j] == x;
                        if j < k {
                            assert(v0[j] == x);
                        } else {
                            assert(v0[j + 1] == x);
                        }
                    }
                }
                return;
            }
            k += 1;
        }
    }

    /// Takes in a finished job: its key leaves the jobs in flight, and when it belongs to the
    /// current generation and there is a document, its image or failure goes to the first
    /// Mermaid block with its key. Says whether a block took it.
    pub fn collect(&mut self, result: MermaidJobResult, document: &mut Option<Document>) -> (applied: bool)
        requires
            jobs_wf(old(self)@),
        ensures
            jobs_wf(final(self)@),
            final(self)@.generation == old(self)@.generation,
            !final(self)@.in_flight.contains(result.key@),
            forall|k: Seq<char>| k != result.key@ ==> (final(self)@.in_flight.contains(k) <==> old(self)@.in_flight.contains(k)),
            match *old(document) {
                Some(doc) if result.generation == old(self)@.generation => {
                    &&& (*final(document)) is Some
                    &&& (*final(document)).unwrap()@ == DocumentV {
                        blocks: apply_blocks(doc@.blocks, result.key@, job_state(result.result)).0,
                        ..doc@
                    }
                    &&& applied == apply_blocks(doc@.blocks, result.key@, job_state(result.result)).1
                },
                _ => *final(document) == *old(document) && !applied,
            },
    {
        self.finish(&result.key);
        if result.generation != self.generation {
            return false;
        }
        let mut taken: Option<Document> = None;
        std::mem::swap(&mut taken, document);
        match taken {
            Some(doc) => {
                let mut doc = doc;
                let applied = apply_mermaid_result(&mut doc.blocks, result);
                *document = Some(doc);
                applied
            },
            None => false,
        }
    }
}

/// Scheduling keeps the bookkeeping's invariant: no key twice, never over the limit, and a
/// job started for a key only while that key is not in flight.
pub proof fn lemma_schedule_keeps_invariant(keys: Seq<Seq<char>>, sources: Seq<Seq<char>>)
    requires
        keys.no_duplicates(),
        keys.len() <= MAX_CONCURRENT_MERMAID_JOBS,
    ensures
        schedule_all(keys, sources).0.no_duplicates(),
        schedule_all(keys, sources).0.len() <= MAX_CONCURRENT_MERMAID_JOBS,
        schedule_all(keys, sources).0 == keys + schedule_all(keys, sources).1.map_values(|j: (Seq<char>, Seq<char>)| j.0),
        forall|i: int| 0 <= i < schedule_all(keys, sources).1.len() ==> {
            let j = #[trigger] schedule_all(keys, sources).1[i];
            j.0 == mermaid_key_of(j.1) && !keys.contains(j.0)
        },
    decreases sources.len(),
{
    if sources.len() > 0 {
        lemma_schedule_keeps_invariant(keys, sources.drop_last());
        let (k0, s0) = schedule_all(keys, sources.drop_last());
        let key = mermaid_key_of(sources.last());
        if !(k0.len() >= MAX_CONCURRENT_MERMAID_JOBS || k0.contains(key)) {
            assert forall|a: int, b: int| 0 <= a < b < k0.push(key).len() implies k0.push(key)[a] != k0.push(key)[b] by {
                if b == k0.len() {
                    assert(k0.contains(k0[a]));
                }
            }
            assert(k0.push(key) =~= keys + s0.push((key, sources.last())).map_values(|j: (Seq<char>, Seq<char>)| j.0));
            assert(!keys.contains(key)) by {
                if keys.contains(key) {
                    let i = choose|i: int| 0 <= i < keys.len() && keys[i] == key;
                    assert(k0[i] == key);
                }
            }
        }
    }
}

} // verus!
