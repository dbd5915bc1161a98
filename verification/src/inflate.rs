//! The length of a compressed stream, found by decompressing it.
use vstd::prelude::*;

verus! {

broadcast use crate::slices::slice_len_bound;

/// A stream that expands beyond this many bytes is given up on.
pub const MAX_DECOMPRESSED: u64 = 0x2000_0000;

/// The room for output that each decompression step is given.
pub const STEP_OUTPUT: usize = 0x1_0000;

/// How one decompression step ended.
#[derive(Clone, Copy, Debug, PartialEq, Eq, Structural)]
pub enum StepStatus {
    /// More input or more room for output is needed.
    Running,
    /// The stream is complete.
    Finished,
    /// No progress is possible with the buffers given.
    Stalled,
    /// The input is not a valid stream.
    Invalid,
}

/// What a decompressor has been given since it was made: whether it expects
/// zlib framing, and for each step the input and the room for output.
pub ghost struct Feed {
    pub zlib: bool,
    pub steps: Seq<(Seq<u8>, int)>,
}

impl Feed {
    /// Nothing given yet.
    pub open spec fn start(zlib: bool) -> Feed {
        Feed { zlib, steps: Seq::empty() }
    }

    /// One more step with this input and room for output.
    pub open spec fn step(self, input: Seq<u8>, room: int) -> Feed {
        Feed { zlib: self.zlib, steps: self.steps.push((input, room)) }
    }
}

/// The decompressor of `flate2`, as an opaque value.
#[verifier::external_type_specification]
#[verifier::external_body]
pub struct ExDecompress(flate2::Decompress);

/// What the decompressor has been given since it was made.
pub uninterp spec fn fed(decoder: flate2::Decompress) -> Feed;

/// How the last step of a feed ended.
pub uninterp spec fn step_status(feed: Feed) -> StepStatus;

/// How many input bytes a decompressor has consumed after a feed.
pub uninterp spec fn consumed(feed: Feed) -> nat;

/// How many output bytes a decompressor has produced after a feed.
pub uninterp spec fn produced(feed: Feed) -> nat;

/// `flate2::Decompress::new`: a decompressor that has been given nothing, has
/// consumed nothing and has produced nothing.
#[verifier::external_body]
fn new_decoder(zlib: bool) -> (r: flate2::Decompress)
    ensures
        fed(r) == Feed::start(zlib),
        consumed(fed(r)) == 0,
        produced(fed(r)) == 0,
{
    flate2::Decompress::new(zlib)
}

/// `flate2::Decompress::total_in`: the number of input bytes consumed so far,
/// which depends on nothing but what the decompressor has been given.
#[verifier::external_body]
fn total_in(decoder: &flate2::Decompress) -> (r: u64)
    ensures
        r == consumed(fed(*decoder)),
{
    decoder.total_in()
}

/// `flate2::Decompress::total_out`: the number of output bytes produced so far,
/// which depends on nothing but what the decompressor has been given.
#[verifier::external_body]
fn total_out(decoder: &flate2::Decompress) -> (r: u64)
    ensures
        r == produced(fed(*decoder)),
{
    decoder.total_out()
}

/// `flate2::Decompress::decompress` without flushing: one more step. It
/// consumes at most the whole input and produces at most as much as there is
/// room for; how it ends depends on nothing but what the decompressor has been
/// given.
#[verifier::external_body]
fn decompress_step(decoder: &mut flate2::Decompress, input: &[u8], output: &mut Vec<u8>) -> (r: StepStatus)
    requires
        consumed(fed(*old(decoder))) + input@.len() <= u64::MAX,
        produced(fed(*old(decoder))) + old(output)@.len() <= u64::MAX,
    ensures
        fed(*final(decoder)) == fed(*old(decoder)).step(input@, old(output)@.len() as int),
        r == step_status(fed(*final(decoder))),
        final(output)@.len() == old(output)@.len(),
        consumed(fed(*old(decoder))) <= consumed(fed(*final(decoder))) <= consumed(
            fed(*old(decoder)),
        ) + input@.len(),
        produced(fed(*old(decoder))) <= produced(fed(*final(decoder))) <= produced(
            fed(*old(decoder)),
        ) + old(output)@.len(),
{
    match decoder.decompress(input, output, flate2::FlushDecompress::None) {
        Ok(flate2::Status::Ok) => StepStatus::Running,
        Ok(flate2::Status::StreamEnd) => StepStatus::Finished,
        Ok(flate2::Status::BufError) => StepStatus::Stalled,
        Err(_) => StepStatus::Invalid,
    }
}

/// What a decompressor has been given after `n` steps over `input`, when each
/// step gets the input that is still unconsumed.
pub open spec fn feed_after(zlib: bool, input: Seq<u8>, n: nat) -> Feed
    decreases n,
{
    if n == 0 {
        Feed::start(zlib)
    } else {
        let before = feed_after(zlib, input, (n - 1) as nat);
        before.step(input.subrange(consumed(before) as int, input.len() as int), STEP_OUTPUT as int)
    }
}

/// What follows from one decompression step.
#[derive(Clone, Copy, Debug, PartialEq, Eq, Structural)]
pub enum Verdict {
    /// Take another step.
    Continue,
    /// The whole stream has been consumed.
    Complete,
    /// There is no valid stream, or it is too long to follow.
    GiveUp,
}

/// A step is followed by another one if it made progress, wants to go on and
/// stays below the limit.
pub open spec fn verdict(
    status: StepStatus,
    consumed_before: int,
    produced_before: int,
    consumed_after: int,
    produced_after: int,
) -> Verdict {
    match status {
        StepStatus::Finished => Verdict::Complete,
        StepStatus::Running => {
            let progress = consumed_after > consumed_before || produced_after > produced_before;
            if progress && produced_after <= MAX_DECOMPRESSED {
                Verdict::Continue
            } else {
                Verdict::GiveUp
            }
        },
        _ => Verdict::GiveUp,
    }
}

/// What follows from a step that ended with `status`, given the numbers of
/// bytes consumed and produced before and after it.
pub fn judge_step(
    status: StepStatus,
    consumed_before: u64,
    produced_before: u64,
    consumed_after: u64,
    produced_after: u64,
) -> (r: Verdict)
    ensures
        r == verdict(
            status,
            consumed_before as int,
            produced_before as int,
            consumed_after as int,
            produced_after as int,
        ),
{
    match status {
        StepStatus::Finished => Verdict::Complete,
        StepStatus::Running => {
            let progress = consumed_after > consumed_before || produced_after > produced_before;
            if progress && produced_after <= MAX_DECOMPRESSED {
                Verdict::Continue
            } else {
                Verdict::GiveUp
            }
        },
        StepStatus::Stalled => Verdict::GiveUp,
        StepStatus::Invalid => Verdict::GiveUp,
    }
}

/// What follows from step `n` (from 0) over `input`.
pub open spec fn verdict_at(zlib: bool, input: Seq<u8>, n: nat) -> Verdict {
    let before = feed_after(zlib, input, n);
    let after = feed_after(zlib, input, n + 1);
    verdict(
        step_status(after),
        consumed(before) as int,
        produced(before) as int,
        consumed(after) as int,
        produced(after) as int,
    )
}

/// Step `n` (from 0) is the last one.
pub open spec fn stops_at(zlib: bool, input: Seq<u8>, n: nat) -> bool {
    &&& !(verdict_at(zlib, input, n) is Continue)
    &&& forall|k: nat| k < n ==> verdict_at(zlib, input, k) is Continue
}

/// The length of the compressed stream at the start of `input`: what has been
/// consumed once the last step has found the stream complete.
pub open spec fn stream_len(zlib: bool, input: Seq<u8>) -> Option<int> {
    if exists|n: nat| stops_at(zlib, input, n) {
        let n = choose|n: nat| stops_at(zlib, input, n);
        match verdict_at(zlib, input, n) {
            Verdict::Complete => Some(consumed(feed_after(zlib, input, n + 1)) as int),
            _ => None,
        }
    } else {
        None
    }
}

/// There is only one last step.
proof fn lemma_stops_once(zlib: bool, input: Seq<u8>, n: nat, m: nat)
    requires
        stops_at(zlib, input, n),
        stops_at(zlib, input, m),
    ensures
        n == m,
{
    if n < m {
        assert(verdict_at(zlib, input, n) is Continue);
    } else if m < n {
        assert(verdict_at(zlib, input, m) is Continue);
    }
}

fn compressed_stream_len(zlib: bool, input: &[u8]) -> (r: Option<usize>)
    ensures
        r is Some <==> stream_len(zlib, input@) is Some,
        r matches Some(n) ==> stream_len(zlib, input@) == Some(n as int) && n <= input@.len(),
{
    let mut decoder = new_decoder(zlib);
    let mut out: Vec<u8> = vec![0u8; STEP_OUTPUT];
    let ghost mut n: nat = 0;
    loop
        invariant
            fed(decoder) == feed_after(zlib, input@, n),
            forall|k: nat| k < n ==> verdict_at(zlib, input@, k) is Continue,
            consumed(fed(decoder)) <= input@.len(),
            produced(fed(decoder)) <= MAX_DECOMPRESSED,
            out@.len() == STEP_OUTPUT,
        decreases input@.len() - consumed(fed(decoder)) + MAX_DECOMPRESSED - produced(fed(decoder)),
    {
        let before_in = total_in(&decoder);
        let before_out = total_out(&decoder);
        let rest = vstd::slice::slice_subrange(input, before_in as usize, input.len());
        let status = decompress_step(&mut decoder, rest, &mut out);
        assert(fed(decoder) == feed_after(zlib, input@, n + 1));
        let after_in = total_in(&decoder);
        let after_out = total_out(&decoder);
        match judge_step(status, before_in, before_out, after_in, after_out) {
            Verdict::Continue => {
                proof {
                    assert(verdict_at(zlib, input@, n) is Continue);
                    n = n + 1;
                }
            },
            other => {
                proof {
                    assert(stops_at(zlib, input@, n));
                    let m = choose|m: nat| stops_at(zlib, input@, m);
                    lemma_stops_once(zlib, input@, n, m);
                }
                return if other == Verdict::Complete {
                    Some(after_in as usize)
                } else {
                    None
                };
            },
        }
    }
}

/// The length of the raw DEFLATE stream at the start of `input`.
pub fn deflate_stream_len(input: &[u8]) -> (r: Option<usize>)
    ensures
        r is Some <==> stream_len(false, input@) is Some,
        r matches Some(n) ==> stream_len(false, input@) == Some(n as int) && n <= input@.len(),
{
    compressed_stream_len(false, input)
}

/// The length of the zlib stream at the start of `input`.
pub fn zlib_stream_len(input: &[u8]) -> (r: Option<usize>)
    ensures
        r is Some <==> stream_len(true, input@) is Some,
        r matches Some(n) ==> stream_len(true, input@) == Some(n as int) && n <= input@.len(),
{
    compressed_stream_len(true, input)
}

} // verus!
