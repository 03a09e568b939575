//! The sample buffer between the audio decode loop and the output callback.
//!
//! The decode loop appends blocks of interleaved samples; the hardware
//! callback pulls as many samples as its output slice holds. A pull never
//! waits: what the buffer cannot supply is filled with silence.
//!
//! A sample is the bit pattern of a 32-bit IEEE-754 float, as
//! `f32::to_bits` gives it. The buffer moves samples and never computes on
//! them, so the patterns pass through unchanged.

use vstd::prelude::*;

verus! {

/// The bit pattern of the sample `0.0`.
pub const SILENCE: u32 = 0;

/// `count` samples of silence.
pub open spec fn silence(count: nat) -> Seq<u32> {
    Seq::new(count, |i: int| SILENCE)
}

/// How many buffered samples a pull of `requested` samples takes.
pub open spec fn taken(buffered: Seq<u32>, requested: nat) -> nat {
    if requested < buffered.len() {
        requested
    } else {
        buffered.len()
    }
}

/// What a pull of `requested` samples hands out: the oldest buffered samples
/// in order, then silence for whatever is missing.
pub open spec fn pulled(buffered: Seq<u32>, requested: nat) -> Seq<u32> {
    let count = taken(buffered, requested);
    buffered.subrange(0, count as int) + silence((requested - count) as nat)
}

/// What stays buffered after a pull of `requested` samples.
pub open spec fn left_over(buffered: Seq<u32>, requested: nat) -> Seq<u32> {
    buffered.subrange(taken(buffered, requested) as int, buffered.len() as int)
}

/// A first-in, first-out queue of samples without a bound on its length.
#[derive(Debug)]
pub struct AudioBuffer {
    samples: Vec<u32>,
}

impl View for AudioBuffer {
    type V = Seq<u32>;

    /// The buffered samples, oldest first.
    closed spec fn view(&self) -> Seq<u32> {
        self.samples@
    }
}

impl AudioBuffer {
    /// An empty buffer.
    pub fn new() -> (buffer: AudioBuffer)
        ensures
            buffer@ == Seq::<u32>::empty(),
    {
        AudioBuffer { samples: Vec::new() }
    }

    /// The number of buffered samples.
    pub fn len(&self) -> (len: usize)
        ensures
            len == self@.len(),
    {
        self.samples.len()
    }

    /// Whether nothing is buffered.
    pub fn is_empty(&self) -> (empty: bool)
        ensures
            empty == (self@.len() == 0),
    {
        self.samples.len() == 0
    }

    /// Appends one decoded block behind everything already buffered.
    pub fn push_block(&mut self, block: &[u32])
        ensures
            final(self)@ == old(self)@ + block@,
    {
        self.samples.extend_from_slice(block);
        assert(self.samples@ =~= old(self).samples@ + block@);
    }

    /// Serves one invocation of the output callback: hands out exactly
    /// `requested` samples, the oldest buffered ones first and silence after
    /// them, and drops the samples handed out from the buffer.
    pub fn pull(&mut self, requested: usize) -> (output: Vec<u32>)
        ensures
            output@ == pulled(old(self)@, requested as nat),
            final(self)@ == left_over(old(self)@, requested as nat),
            output@.len() == requested,
            old(self)@.len() == 0 ==> forall|i: int| 0 <= i < requested ==> output@[i] == SILENCE,
    {
        let available: usize = self.samples.len();
        let count: usize = if requested < available {
            requested
        } else {
            available
        };
        let mut output: Vec<u32> = self.samples.split_off(count);
        core::mem::swap(&mut self.samples, &mut output);
        output.resize(requested, SILENCE);
        assert(output@ =~= pulled(old(self)@, requested as nat));
        output
    }
}

/// A pull loses nothing and invents nothing: the samples it takes, followed by
/// the samples it leaves, are the buffer as it was, and only silence is added.
pub proof fn lemma_pull_splits_buffer(buffered: Seq<u32>, requested: nat)
    ensures
        pulled(buffered, requested).len() == requested,
        pulled(buffered, requested).subrange(0, taken(buffered, requested) as int) + left_over(
            buffered,
            requested,
        ) == buffered,
        forall|i: int|
            taken(buffered, requested) <= i < requested ==> pulled(buffered, requested)[i]
                == SILENCE,
{
    let count = taken(buffered, requested) as int;
    assert(pulled(buffered, requested).subrange(0, count) =~= buffered.subrange(0, count));
    assert(buffered.subrange(0, count) + left_over(buffered, requested) =~= buffered);
}

/// Samples leave in the order in which they arrived: pulling from a buffer
/// that received one block after another gives the first block's samples
/// before the second's.
pub proof fn lemma_fifo_order(first: Seq<u32>, second: Seq<u32>, requested: nat)
    ensures
        requested <= first.len() ==> pulled(first + second, requested) == first.subrange(
            0,
            requested as int,
        ),
        first.len() <= requested <= first.len() + second.len() ==> pulled(
            first + second,
            requested,
        ) == first + second.subrange(0, requested - first.len()),
{
    if requested <= first.len() {
        assert(pulled(first + second, requested) =~= first.subrange(0, requested as int));
    }
    if first.len() <= requested <= first.len() + second.len() {
        assert(pulled(first + second, requested) =~= first + second.subrange(
            0,
            requested - first.len(),
        ));
    }
}

} // verus!
