//! The encoder processes that are running, by the number of their stream.

use crate::number::{dec, decimal, digits_value, lemma_dec_reads_back};
use crate::text;
use crate::text::has_infix;
use crate::writer;
use std::collections::HashMap;
use vstd::prelude::*;
use vstd::std_specs::hash::group_hash_axioms;

verus! {

broadcast use group_hash_axioms;

/// The pipelines that are running, by the number of their stream.
pub struct Pipelines<P> {
    running: HashMap<u32, P>,
}

/// What is reported of a pipeline that cannot be written to.
pub open spec fn broken_text(stream_id: u32, error: Seq<char>) -> Seq<char> {
    "Pipeline broken for stream "@ + dec(stream_id as nat) + ": "@ + error
}

impl<P> View for Pipelines<P> {
    type V = Map<u32, P>;

    closed spec fn view(&self) -> Map<u32, P> {
        self.running@
    }
}

impl<P> Pipelines<P> {
    /// No pipelines.
    pub fn new() -> (r: Self)
        ensures
            r@ == Map::<u32, P>::empty(),
    {
        Pipelines { running: HashMap::new() }
    }

    /// Takes a pipeline that has been started, in place of one of the same
    /// stream.
    pub fn insert(&mut self, stream_id: u32, pipeline: P)
        ensures
            final(self)@ == old(self)@.insert(stream_id, pipeline),
    {
        let _ = self.running.insert(stream_id, pipeline);
    }

    /// Hands out the pipeline of a stream, where there is one.
    pub fn remove(&mut self, stream_id: u32) -> (r: Option<P>)
        ensures
            final(self)@ == old(self)@.remove(stream_id),
            match r {
                Some(p) => old(self)@.contains_key(stream_id) && p == old(self)@[stream_id],
                None => !old(self)@.contains_key(stream_id) && final(self)@ == old(self)@,
            },
    {
        let ghost before = self@;
        let r = self.running.remove(&stream_id);
        proof {
            if r is None {
                assert(before.remove(stream_id) =~= before);
            }
        }
        r
    }

    /// Takes back a pipeline that was handed out to be written to. A pipeline
    /// that could not be written to is dropped and reported as broken.
    pub fn settle(&mut self, stream_id: u32, pipeline: P, written: Result<(), String>) -> (r: Result<
        (),
        String,
    >)
        ensures
            match written {
                Ok(_) => r is Ok && final(self)@ == old(self)@.insert(stream_id, pipeline),
                Err(error) => {
                    &&& final(self)@ == old(self)@
                    &&& r matches Err(e)
                    &&& e@ == broken_text(stream_id, error@)
                },
            },
    {
        match written {
            Ok(_) => {
                self.insert(stream_id, pipeline);
                Ok(())
            },
            Err(error) => Err(
                writer::join4(
                    "Pipeline broken for stream ",
                    decimal(stream_id as u64).as_str(),
                    ": ",
                    error.as_str(),
                ),
            ),
        }
    }

    /// Hands out all pipelines.
    pub fn take_all(&mut self) -> (r: HashMap<u32, P>)
        ensures
            final(self)@ == Map::<u32, P>::empty(),
            r@ == old(self)@,
    {
        let mut out: HashMap<u32, P> = HashMap::new();
        std::mem::swap(&mut out, &mut self.running);
        out
    }

    /// Whether the stream has a pipeline.
    pub fn contains(&self, stream_id: u32) -> (r: bool)
        ensures
            r == self@.contains_key(stream_id),
    {
        self.running.contains_key(&stream_id)
    }

    /// The number of pipelines.
    pub fn len(&self) -> (r: usize)
        ensures
            self@.dom().finite(),
            r == self@.len(),
    {
        self.running.len()
    }
}

/// Whether an error says that a pipeline is broken.
pub fn is_pipeline_broken(error: &str) -> (r: bool)
    ensures
        r == has_infix(error@, "Pipeline broken"@),
{
    text::contains(error, "Pipeline broken")
}

/// Whether output of the encoder is worth reporting: whether it speaks of an
/// error.
pub fn reports_error(output: &str) -> (r: bool)
    ensures
        r == (has_infix(output@, "error"@) || has_infix(output@, "Error"@)),
{
    text::contains(output, "error") || text::contains(output, "Error")
}

/// Handing a pipeline out and taking it back after a write that has gone well
/// changes nothing; after one that has failed, the stream has no pipeline.
pub proof fn law_write_keeps_or_drops<P>(before: Map<u32, P>, stream_id: u32)
    requires
        before.contains_key(stream_id),
    ensures
        before.remove(stream_id).insert(stream_id, before[stream_id]) == before,
        !before.remove(stream_id).contains_key(stream_id),
        forall|other: u32|
            other != stream_id && #[trigger] before.contains_key(other) ==> before.remove(
                stream_id,
            ).contains_key(other) && before.remove(stream_id)[other] == before[other],
{
    assert(before.remove(stream_id).insert(stream_id, before[stream_id]) =~= before);
}

/// Starting a pipeline raises the count by one, unless it takes the place of
/// another of its stream; stopping one lowers it by one.
pub proof fn law_pipelines_are_counted<P>(before: Map<u32, P>, stream_id: u32, pipeline: P)
    requires
        before.dom().finite(),
    ensures
        before.insert(stream_id, pipeline).len() == before.len() + (if before.contains_key(
            stream_id,
        ) {
            0int
        } else {
            1
        }),
        before.remove(stream_id).len() == before.len() - (if before.contains_key(stream_id) {
            1int
        } else {
            0
        }),
        before.insert(stream_id, pipeline).remove(stream_id).len() == before.remove(
            stream_id,
        ).len(),
{
    let more = before.insert(stream_id, pipeline);
    assert(more.dom() =~= before.dom().insert(stream_id));
    assert(before.remove(stream_id).dom() =~= before.dom().remove(stream_id));
    assert(more.remove(stream_id).dom() =~= before.remove(stream_id).dom());
}

/// What is reported of a broken pipeline is recognised as such.
pub proof fn law_broken_is_recognised(stream_id: u32, error: Seq<char>)
    ensures
        has_infix(broken_text(stream_id, error), "Pipeline broken"@),
{
    let s = broken_text(stream_id, error);
    let p = "Pipeline broken"@;
    reveal_strlit("Pipeline broken");
    reveal_strlit("Pipeline broken for stream ");
    assert(s.subrange(0, p.len() as int) =~= p);
    assert(text::occurs_at(s, p, 0));
}

/// What is reported of a broken pipeline names the stream by its number and ends
/// in what went wrong.
pub proof fn law_broken_names_stream(stream_id: u32, error: Seq<char>)
    ensures
        ({
            let told = broken_text(stream_id, error);
            let n = "Pipeline broken for stream "@.len() as int;
            let k = told.len() - error.len();
            &&& told.take(n) == "Pipeline broken for stream "@
            &&& digits_value(told.subrange(n, k - 2)) == stream_id
            &&& told.subrange(k - 2, k) == ": "@
            &&& told.skip(k) == error
        }),
{
    let told = broken_text(stream_id, error);
    let n = "Pipeline broken for stream "@.len() as int;
    let k = told.len() - error.len();
    reveal_strlit(": ");
    lemma_dec_reads_back(stream_id as nat);
    assert(told.take(n) =~= "Pipeline broken for stream "@);
    assert(told.subrange(n, k - 2) =~= dec(stream_id as nat));
    assert(told.subrange(k - 2, k) =~= ": "@);
    assert(told.skip(k) =~= error);
}

} // verus!
