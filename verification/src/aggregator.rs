//! The aggregator: it joins the batches of confirmations that the workers
//! hand over into one set, and when no more can come it writes the whole set
//! out, once.
//!
//! Receiving from the channel and writing to the sink are the caller's part.
//! The caller hands what each receive gave to `delivery` and then to
//! `Aggregator::deliver`, and writes the bytes that it gives back at the end.
use crate::confirmations::ConfirmationSet;
use crate::tx::PipelineError;
use crossbeam_channel::RecvError;
use vstd::prelude::*;

verus! {

/// `serde_json::Error`, why a value could not be written as JSON. Verus sees
/// nothing inside it.
#[verifier::external_type_specification]
#[verifier::external_body]
pub struct ExJsonError(serde_json::Error);

/// `crossbeam_channel::RecvError`, which a receiver gets when the channel is
/// empty and no sender is left. Verus sees nothing inside it.
#[verifier::external_type_specification]
#[verifier::external_body]
pub struct ExRecvError(RecvError);

/// The texts of a list of strings.
pub open spec fn texts_of(list: Seq<String>) -> Seq<Seq<char>> {
    list.map_values(|s: String| s@)
}

/// The JSON text of an array of strings, as `serde_json` writes it, in bytes.
pub uninterp spec fn json_array(texts: Seq<Seq<char>>) -> Seq<u8>;

/// `serde_json::to_vec` on a list of strings: the bytes of the JSON array of
/// them. Trusted: it succeeds, and the bytes depend on the texts alone. Its
/// documentation names two ways to fail, a value whose own way of writing
/// itself fails and a map whose keys are no strings; a list of strings has
/// neither, and it is written into a vector of bytes, which takes every write.
#[verifier::external_body]
fn to_json(list: &Vec<String>) -> (r: Result<Vec<u8>, serde_json::Error>)
    ensures
        r is Ok,
        r matches Ok(bytes) ==> bytes@ == json_array(texts_of(list@)),
{
    serde_json::to_vec(list)
}

/// What a receive on the channel means for the pipeline: the batch, or that
/// the channel is closed.
pub fn delivery(received: Result<ConfirmationSet, RecvError>) -> (r: Result<
    ConfirmationSet,
    PipelineError,
>)
    ensures
        match received {
            Ok(batch) => r == Ok::<ConfirmationSet, PipelineError>(batch),
            Err(_) => r == Err::<ConfirmationSet, PipelineError>(PipelineError::ChannelClosed),
        },
{
    match received {
        Ok(batch) => Ok(batch),
        Err(_) => Err(PipelineError::ChannelClosed),
    }
}

/// What the outcome of writing the JSON means for the pipeline: the bytes,
/// or the failure of the write.
pub fn sink_outcome(written: Result<Vec<u8>, serde_json::Error>) -> (r: Result<
    Vec<u8>,
    PipelineError,
>)
    ensures
        match written {
            Ok(bytes) => r == Ok::<Vec<u8>, PipelineError>(bytes),
            Err(_) => r == Err::<Vec<u8>, PipelineError>(PipelineError::IoFailure),
        },
{
    match written {
        Ok(bytes) => Ok(bytes),
        Err(_) => Err(PipelineError::IoFailure),
    }
}

/// The bytes to write for a set of confirmations: the JSON array of its
/// members, in the order in which they came. There are bytes for every set.
pub fn timed_writes(tx_list: &ConfirmationSet) -> (r: Result<Vec<u8>, PipelineError>)
    ensures
        r is Ok,
        r matches Ok(bytes) ==> bytes@ == json_array(tx_list.texts()),
{
    sink_outcome(to_json(tx_list.members()))
}

/// Joins a batch into the set of confirmations and gives the bytes to write
/// for the whole set.
pub fn batched_writes(confs: &mut ConfirmationSet, tx_list: ConfirmationSet) -> (r: Result<
    Vec<u8>,
    PipelineError,
>)
    requires
        old(confs).wf(),
    ensures
        final(confs).wf(),
        final(confs)@ == old(confs)@.union(tx_list@),
        r is Ok,
        r matches Ok(bytes) ==> bytes@ == json_array(final(confs).texts()),
{
    confs.extend(tx_list);
    timed_writes(confs)
}

/// Joins the confirmation of a single record into the set of confirmations
/// and gives the bytes to write for the whole set.
pub fn single_write(confs: &mut ConfirmationSet, tx: ConfirmationSet) -> (r: Result<
    Vec<u8>,
    PipelineError,
>)
    requires
        old(confs).wf(),
    ensures
        final(confs).wf(),
        final(confs)@ == old(confs)@.union(tx@),
        r is Ok,
        r matches Ok(bytes) ==> bytes@ == json_array(final(confs).texts()),
{
    batched_writes(confs, tx)
}

/// The running set of everything that was delivered.
pub struct Aggregator {
    confs: ConfirmationSet,
}

impl View for Aggregator {
    type V = Set<Seq<char>>;

    closed spec fn view(&self) -> Set<Seq<char>> {
        self.confs@
    }
}

impl Aggregator {
    pub closed spec fn wf(&self) -> bool {
        self.confs.wf()
    }

    /// The members in the order in which they came.
    pub closed spec fn texts(&self) -> Seq<Seq<char>> {
        self.confs.texts()
    }

    /// An aggregator that has received nothing.
    pub fn new() -> (a: Aggregator)
        ensures
            a.wf(),
            a@ == Set::<Seq<char>>::empty(),
    {
        Aggregator { confs: ConfirmationSet::new() }
    }

    /// Takes one delivery from the channel. A batch is joined into the
    /// running set, and there is nothing to write yet. When the channel is
    /// closed, the set stays as it is and the bytes of the whole set are
    /// given, to be written once. Any other error is handed on.
    pub fn deliver(&mut self, delivery: Result<ConfirmationSet, PipelineError>) -> (r: Option<
        Result<Vec<u8>, PipelineError>,
    >)
        requires
            old(self).wf(),
        ensures
            final(self).wf(),
            match delivery {
                Ok(batch) => final(self)@ == old(self)@.union(batch@) && r is None,
                Err(PipelineError::ChannelClosed) => {
                    &&& final(self)@ == old(self)@
                    &&& final(self).texts() == old(self).texts()
                    &&& r is Some
                    &&& r->0 is Ok
                    &&& r matches Some(Ok(bytes)) ==> bytes@ == json_array(final(self).texts())
                },
                Err(e) => final(self)@ == old(self)@ && r == Some(
                    Err::<Vec<u8>, PipelineError>(e),
                ),
            },
    {
        match delivery {
            Ok(batch) => {
                self.confs.extend(batch);
                None
            },
            Err(PipelineError::ChannelClosed) => Some(timed_writes(&self.confs)),
            Err(e) => Some(Err(e)),
        }
    }

    /// The number of confirmations received so far, each counted once.
    pub fn cardinality(&self) -> (n: usize)
        requires
            self.wf(),
        ensures
            n == self@.len(),
    {
        self.confs.len()
    }

    /// Whether `text` was received.
    pub fn contains(&self, text: &String) -> (found: bool)
        requires
            self.wf(),
        ensures
            found == self@.contains(text@),
    {
        self.confs.contains(text)
    }

    /// The confirmations received so far, in the order in which they came.
    pub fn members(&self) -> (list: &Vec<String>)
        ensures
            texts_of(list@) == self.texts(),
    {
        self.confs.members()
    }
}

} // verus!
