//! The transcoding buffer: pulls bytes from a source, decodes them, and hands
//! out the UTF-8 through a peek-then-consume protocol.
use vstd::prelude::*;
use vstd::slice::slice_subrange;

pub use crate::decoding::decoder_helper;
use crate::decoding::{
    decoder_clean, decoder_for_label, decoder_input, decoder_label, decoder_live, finish_decoder, label_resolves,
    output_room, room_suffices, utf8_complete, utf8_of, utf8_step, CodecError, DecodeStatus,
};
use crate::DEFAULT_BUF_SIZE;

verus! {

/// How many pull and decode cycles one peek may make that yield no UTF-8
/// before it gives up.
pub const MAX_SILENT_PULLS: usize = 64;

/// Relies on `std::io::Read::read`: it places what it read at the front of
/// `buf` and returns how many bytes that was, never more than `buf.len()`.
#[verifier::external_body]
fn read_source<R: std::io::Read>(inner: &mut R, buf: &mut Vec<u8>) -> (r: Result<usize, std::io::Error>)
    ensures
        final(buf)@.len() == old(buf)@.len(),
        r matches Ok(n) ==> n <= old(buf)@.len(),
{
    inner.read(buf.as_mut_slice())
}

/// Relies on `Vec::capacity`: a vector can hold at least its length.
#[verifier::external_body]
fn vec_capacity(v: &Vec<u8>) -> (r: usize)
    ensures
        v@.len() <= r,
{
    v.capacity()
}

/// A reader over `inner`, whose bytes are text in some encoding, that yields
/// that text as UTF-8.
pub struct CodecReadBuffer<R> {
    inner: R,
    decoder: encoding_rs::Decoder,
    input_buf: Vec<u8>,
    capacity: usize,
    output_buf: Vec<u8>,
    output_pos: usize,
    /// The UTF-8 that was decoded before `output_buf`.
    earlier: Ghost<Seq<u8>>,
    /// Set once the decoder met malformed input or stopped early.
    broken: Ghost<bool>,
    /// Whether the last pull asked the source for bytes and got none.
    exhausted: Ghost<bool>,
    /// Set once the decoder has been told that the stream ended.
    finished: bool,
    /// The decoder as it was before its most recent call.
    last_state: Ghost<encoding_rs::Decoder>,
}

impl<R> CodecReadBuffer<R> {
    /// The label of the encoding being decoded.
    pub closed spec fn label(&self) -> Seq<char> {
        decoder_label(self.decoder)
    }

    /// The source.
    pub closed spec fn source(&self) -> R {
        self.inner
    }

    /// The most bytes that one pull from the source asks for.
    pub closed spec fn capacity(&self) -> nat {
        self.capacity as nat
    }

    /// The bytes that the decoder has consumed.
    pub closed spec fn consumed(&self) -> Seq<u8> {
        decoder_input(self.decoder)
    }

    /// The bytes that are waiting to be decoded.
    pub closed spec fn pending_input(&self) -> Seq<u8> {
        self.input_buf@
    }

    /// Every byte taken in so far, decoded or not.
    pub closed spec fn pulled(&self) -> Seq<u8> {
        self.consumed() + self.pending_input()
    }

    /// All the UTF-8 decoded so far.
    pub closed spec fn produced(&self) -> Seq<u8> {
        self.earlier@ + self.output_buf@
    }

    /// The UTF-8 that callers have consumed.
    pub closed spec fn delivered(&self) -> Seq<u8> {
        self.earlier@ + self.output_buf@.subrange(0, self.output_pos as int)
    }

    /// The decoded UTF-8 that callers have not consumed yet.
    pub closed spec fn available(&self) -> Seq<u8> {
        self.output_buf@.subrange(self.output_pos as int, self.output_buf@.len() as int)
    }

    /// Whether everything decoded has been consumed, so that the next peek
    /// pulls and decodes.
    pub open spec fn drained(&self) -> bool {
        self.available().len() == 0
    }

    /// Whether the decoder has been told that the stream ended.
    pub closed spec fn finished(&self) -> bool {
        self.finished
    }

    /// Whether, before its most recent call, the decoder could take `n`
    /// bytes in one call.
    pub closed spec fn last_call_had_room(&self, n: usize) -> bool {
        room_suffices(self.last_state@, n)
    }

    /// The current decoded chunk, consumed or not.
    pub closed spec fn chunk(&self) -> Seq<u8> {
        self.output_buf@
    }

    /// Whether the decoder can take `n` more bytes in one call.
    pub closed spec fn decodes_in_one_call(&self, n: usize) -> bool {
        room_suffices(self.decoder, n)
    }

    /// Whether the bytes waiting to be decoded are well formed and can be
    /// decoded in one call, so that decoding them cannot fail.
    pub open spec fn pending_decodable(&self) -> bool {
        &&& !self.finished()
        &&& self.pending_input().len() > 0
        &&& self.intact()
        &&& self.decodes_in_one_call(self.pending_input().len() as usize)
        &&& utf8_step(self.label(), self.consumed(), self.pending_input()) is Some
    }

    /// Whether the last pull asked the source for bytes and got none.
    pub closed spec fn source_exhausted(&self) -> bool {
        self.exhausted@
    }

    /// Whether the decoder has met no malformed input and lost no output.
    pub closed spec fn intact(&self) -> bool {
        !self.broken@
    }

    /// The buffer's invariant: the cursor lies within the decoded chunk, and
    /// while intact, what was decoded is what the consumed bytes decode to.
    pub closed spec fn wf(&self) -> bool {
        &&& self.output_pos <= self.output_buf@.len()
        &&& !self.finished ==> decoder_live(self.decoder)
        &&& self.finished ==> self.input_buf@.len() == 0
        &&& self.intact() && !self.finished ==> decoder_clean(self.decoder)
        &&& self.intact() && !self.finished ==> utf8_of(self.label(), self.consumed()) == Some(
            self.produced(),
        )
        &&& self.intact() && self.finished ==> utf8_complete(self.label(), self.consumed()) == Some(
            self.produced(),
        )
    }

    proof fn lemma_split(&self)
        requires
            self.wf(),
        ensures
            self.produced() == self.delivered() + self.available(),
            self.drained() <==> self.output_pos == self.output_buf@.len(),
    {
        assert(self.output_buf@ =~= self.output_buf@.subrange(0, self.output_pos as int)
            + self.available());
        assert(self.produced() =~= self.delivered() + self.available());
    }
}

// The constructors ask nothing of `R`, so they cannot read from the source:
// nothing is pulled until the first peek.
impl<R> CodecReadBuffer<R> {
    /// Makes a buffer that decodes `inner` from the encoding `encoding_name`,
    /// pulling up to `DEFAULT_BUF_SIZE` bytes at a time. Nothing is read yet.
    pub fn for_encoding(inner: R, encoding_name: &str) -> (r: Result<Self, CodecError>)
        ensures
            r is Ok <==> label_resolves(encoding_name@),
            r matches Err(e) ==> e matches CodecError::UnrecognizedEncoding(name) && name@ == encoding_name@,
            r matches Ok(b) ==> b.fresh(inner, encoding_name@, Seq::empty(), DEFAULT_BUF_SIZE as nat),
    {
        Self::for_encoding_with_capacity(inner, encoding_name, DEFAULT_BUF_SIZE)
    }

    /// Makes a buffer that decodes `inner` from the encoding `encoding_name`,
    /// pulling up to `capacity` bytes at a time. Nothing is read yet.
    pub fn for_encoding_with_capacity(inner: R, encoding_name: &str, capacity: usize) -> (r: Result<
        Self,
        CodecError,
    >)
        ensures
            r is Ok <==> label_resolves(encoding_name@),
            r matches Err(e) ==> e matches CodecError::UnrecognizedEncoding(name) && name@ == encoding_name@,
            r matches Ok(b) ==> b.fresh(inner, encoding_name@, Seq::empty(), capacity as nat),
    {
        Self::with_parts(inner, encoding_name, Vec::new(), capacity)
    }

    /// Makes a buffer that decodes `inner` from the encoding `encoding_name`.
    /// The bytes already in `input_buf` are decoded first, ahead of the
    /// source; each pull asks for as many bytes as `input_buf` can hold.
    pub fn for_encoding_with_initial_buffer(inner: R, encoding_name: &str, input_buf: Vec<u8>) -> (r:
        Result<Self, CodecError>)
        ensures
            r is Ok <==> label_resolves(encoding_name@),
            r matches Err(e) ==> e matches CodecError::UnrecognizedEncoding(name) && name@ == encoding_name@,
            r matches Ok(b) ==> b.fresh(inner, encoding_name@, input_buf@, b.capacity()),
            r matches Ok(b) ==> input_buf@.len() <= b.capacity(),
    {
        let capacity = vec_capacity(&input_buf);
        Self::with_parts(inner, encoding_name, input_buf, capacity)
    }

    fn with_parts(inner: R, encoding_name: &str, input_buf: Vec<u8>, capacity: usize) -> (r: Result<
        Self,
        CodecError,
    >)
        ensures
            r is Ok <==> label_resolves(encoding_name@),
            r matches Err(e) ==> e matches CodecError::UnrecognizedEncoding(name) && name@ == encoding_name@,
            r matches Ok(b) ==> b.fresh(inner, encoding_name@, input_buf@, capacity as nat),
    {
        match decoder_for_label(encoding_name) {
            None => Err(CodecError::UnrecognizedEncoding(encoding_name.to_owned())),
            Some(decoder) => {
                let ghost start_state = decoder;
                let b = CodecReadBuffer {
                    inner,
                    decoder,
                    input_buf,
                    capacity,
                    output_buf: Vec::new(),
                    output_pos: 0,
                    earlier: Ghost(Seq::empty()),
                    broken: Ghost(false),
                    exhausted: Ghost(false),
                    finished: false,
                    last_state: Ghost(start_state),
                };
                Ok(b)
            },
        }
    }

    /// Marks `amt` bytes of the decoded UTF-8 as consumed; asking for more
    /// than is available consumes what is available.
    pub fn consume(&mut self, amt: usize)
        requires
            old(self).wf(),
        ensures
            final(self).wf(),
            final(self).label() == old(self).label(),
            final(self).capacity() == old(self).capacity(),
            final(self).source() == old(self).source(),
            final(self).pulled() == old(self).pulled(),
            final(self).consumed() == old(self).consumed(),
            final(self).produced() == old(self).produced(),
            final(self).intact() == old(self).intact(),
            final(self).source_exhausted() == old(self).source_exhausted(),
            final(self).finished() == old(self).finished(),
            amt <= old(self).available().len() ==> ({
                &&& final(self).delivered() == old(self).delivered() + old(self).available().take(amt as int)
                &&& final(self).available() == old(self).available().skip(amt as int)
            }),
            amt > old(self).available().len() ==> ({
                &&& final(self).delivered() == old(self).delivered() + old(self).available()
                &&& final(self).drained()
            }),
    {
        let ghost before = *self;
        proof {
            self.lemma_split();
        }
        if amt >= self.output_buf.len() - self.output_pos {
            self.output_pos = self.output_buf.len();
        } else {
            self.output_pos = self.output_pos + amt;
        }
        proof {
            if amt <= before.available().len() {
                assert(self.delivered() =~= before.delivered() + before.available().take(amt as int));
                assert(self.available() =~= before.available().skip(amt as int));
            } else {
                assert(self.delivered() =~= before.delivered() + before.available());
            }
        }
    }

    /// The source.
    pub fn get_ref(&self) -> (r: &R)
        ensures
            *r == self.source(),
    {
        &self.inner
    }

    /// How many decoded bytes are still to be consumed, and how many the
    /// current decoded chunk holds.
    pub fn output_counts(&self) -> (r: (usize, usize))
        requires
            self.wf(),
        ensures
            r.0 == self.available().len(),
            r.1 == self.chunk().len(),
            r.0 <= r.1,
            r.1 - r.0 <= self.delivered().len(),
    {
        (self.output_buf.len() - self.output_pos, self.output_buf.len())
    }

    /// A buffer just made over `inner` for `label`: nothing decoded or
    /// handed out, `input` waiting to be decoded.
    pub open spec fn fresh(&self, inner: R, label: Seq<char>, input: Seq<u8>, capacity: nat) -> bool {
        &&& self.wf()
        &&& self.source() == inner
        &&& self.label() == label
        &&& self.capacity() == capacity
        &&& self.consumed() == Seq::<u8>::empty()
        &&& self.pending_input() == input
        &&& self.produced() == Seq::<u8>::empty()
        &&& self.delivered() == Seq::<u8>::empty()
        &&& self.available() == Seq::<u8>::empty()
        &&& self.intact()
        &&& !self.finished()
    }
}

impl<R: std::io::Read> CodecReadBuffer<R> {
    /// Takes in what a read of the source into the whole input buffer
    /// returned: after `Ok(n)` the first `n` bytes wait to be decoded; after
    /// an error nothing does, and the source's own error is passed on.
    fn accept_read(&mut self, res: Result<usize, std::io::Error>) -> (r: Result<usize, CodecError>)
        requires
            old(self).input_buf@.len() == old(self).capacity,
            res matches Ok(n) ==> n <= old(self).capacity,
        ensures
            *final(self) == (CodecReadBuffer { input_buf: final(self).input_buf, ..*old(self) }),
            match res {
                Ok(n) => r == Ok::<usize, CodecError>(n) && final(self).input_buf@ == old(self).input_buf@.take(
                    n as int,
                ),
                Err(e) => r == Err::<usize, CodecError>(CodecError::Source(e)) && final(self).input_buf@.len()
                    == 0,
            },
    {
        match res {
            Ok(n) => {
                self.input_buf.truncate(n);
                Ok(n)
            },
            Err(e) => {
                self.input_buf.clear();
                Err(CodecError::Source(e))
            },
        }
    }

    /// Pulls up to `capacity` bytes from the source, but only when no bytes
    /// are waiting to be decoded; returns how many were pulled.
    fn fill_input_buf(&mut self) -> (r: Result<usize, CodecError>)
        requires
            old(self).wf(),
            !old(self).finished(),
        ensures
            !final(self).finished(),
            final(self).wf(),
            final(self).label() == old(self).label(),
            final(self).capacity() == old(self).capacity(),
            final(self).consumed() == old(self).consumed(),
            final(self).produced() == old(self).produced(),
            final(self).delivered() == old(self).delivered(),
            final(self).available() == old(self).available(),
            final(self).intact() == old(self).intact(),
            old(self).pending_input().len() > 0 ==> r == Ok::<usize, CodecError>(0usize)
                && *final(self) == *old(self),
            old(self).pending_input().len() == 0 ==> match r {
                Ok(n) => n <= old(self).capacity() && final(self).pending_input().len() == n,
                Err(e) => e is Source && final(self).pending_input().len() == 0,
            },
    {
        if self.input_buf.len() == 0 {
            self.input_buf.resize(self.capacity, 0u8);
            let res = read_source(&mut self.inner, &mut self.input_buf);
            self.accept_read(res)
        } else {
            Ok(0)
        }
    }

    /// One pull and decode cycle, made once everything decoded has been
    /// consumed: the bytes waiting to be decoded, or else a fresh pull from
    /// the source, become the new decoded chunk. Returns whether the source
    /// was asked and gave nothing.
    fn refill(&mut self) -> (r: Result<bool, CodecError>)
        requires
            old(self).wf(),
            old(self).drained(),
            !old(self).finished(),
        ensures
            !final(self).finished(),
            final(self).wf(),
            final(self).label() == old(self).label(),
            final(self).capacity() == old(self).capacity(),
            final(self).delivered() == old(self).delivered(),
            old(self).pending_decodable() ==> r is Ok,
            match r {
                Ok(exhausted) => {
                    &&& old(self).pending_input().len() > 0 && old(self).intact() ==> Some(
                        final(self).available(),
                    ) == utf8_step(old(self).label(), old(self).consumed(), old(self).pending_input())
                    &&& final(self).pending_input().len() == 0
                    &&& old(self).pulled().is_prefix_of(final(self).pulled())
                    &&& old(self).pending_input().len() > 0 ==> final(self).pulled() == old(self).pulled()
                        && !exhausted
                    &&& old(self).pending_input().len() == 0 && !exhausted ==> final(self).pulled().len()
                        > old(self).pulled().len()
                    &&& exhausted ==> final(self).pulled() == old(self).pulled() && final(self).drained()
                    &&& final(self).source_exhausted() == exhausted
                    &&& old(self).intact() ==> final(self).intact()
                },
                Err(CodecError::Source(_)) => {
                    &&& old(self).pending_input().len() == 0
                    &&& final(self).pending_input().len() == 0
                    &&& final(self).pulled() == old(self).pulled()
                    &&& final(self).drained()
                    &&& final(self).intact() == old(self).intact()
                },
                Err(CodecError::Malformed { input, position }) => {
                    &&& input@ == final(self).pending_input()
                    &&& old(self).pulled().is_prefix_of(old(self).consumed() + input@)
                    &&& position <= input@.len()
                    &&& final(self).consumed() == old(self).consumed() + input@.take(position as int)
                    &&& !final(self).intact()
                    &&& old(self).intact() ==> utf8_of(old(self).label(), old(self).consumed() + input@) is None
                },
                Err(CodecError::Stalled { input, position }) => {
                    &&& input@ == final(self).pending_input()
                    &&& position < input@.len()
                    &&& !final(self).intact()
                    &&& !final(self).last_call_had_room(input@.len() as usize)
                },
                Err(_) => false,
            },
    {
        proof {
            self.lemma_split();
        }
        let had_pending = self.input_buf.len() > 0;
        match self.fill_input_buf() {
            Ok(_) => {},
            Err(e) => {
                return Err(e);
            },
        }
        let exhausted = !had_pending && self.input_buf.len() == 0;
        proof {
            self.last_state@ = self.decoder;
        }
        let ghost before = *self;
        match decoder_helper(&mut self.decoder, self.input_buf.as_slice()) {
            Ok(out) => {
                proof {
                    self.earlier@ = self.earlier@ + self.output_buf@;
                }
                self.output_buf = out;
                self.input_buf.clear();
                self.output_pos = 0;
                proof {
                    self.exhausted@ = exhausted;
                    assert(self.delivered() =~= before.produced());
                    assert(self.available() =~= self.output_buf@);
                    if before.intact() {
                        let a = utf8_of(before.label(), before.consumed())->Some_0;
                        let b = utf8_of(before.label(), self.consumed())->Some_0;
                        assert(a.is_prefix_of(b));
                        assert(self.produced() =~= b);
                    }
                    assert(self.pulled() =~= before.pulled());
                }
                Ok(exhausted)
            },
            Err(e) => {
                proof {
                    self.broken@ = true;
                }
                Err(e)
            },
        }
    }

    /// Tells the decoder that the stream has ended, once everything pulled
    /// has been decoded and consumed; what that completes becomes the new
    /// decoded chunk. A stream that ends inside a character is reported.
    fn finish(&mut self) -> (r: Result<(), CodecError>)
        requires
            old(self).wf(),
            old(self).drained(),
            !old(self).finished(),
            old(self).pending_input().len() == 0,
        ensures
            final(self).wf(),
            final(self).finished(),
            final(self).label() == old(self).label(),
            final(self).capacity() == old(self).capacity(),
            final(self).pulled() == old(self).pulled(),
            final(self).delivered() == old(self).delivered(),
            final(self).source_exhausted() == old(self).source_exhausted(),
            old(self).intact() && old(self).decodes_in_one_call(0) && utf8_complete(
                old(self).label(),
                old(self).pulled(),
            ) is Some ==> r is Ok,
            match r {
                Ok(_) => old(self).intact() ==> final(self).intact(),
                Err(CodecError::Truncated) => {
                    &&& !final(self).intact()
                    &&& old(self).intact() ==> utf8_complete(old(self).label(), old(self).pulled()) is None
                },
                Err(CodecError::Stalled { input, position }) => {
                    &&& input@.len() == 0
                    &&& position == 0
                    &&& !final(self).intact()
                    &&& !final(self).last_call_had_room(0)
                },
                Err(_) => false,
            },
    {
        proof {
            self.lemma_split();
        }
        let room = output_room(&self.decoder, 0);
        proof {
            self.last_state@ = self.decoder;
        }
        let ghost before = *self;
        let (status, out) = finish_decoder(&mut self.decoder, room);
        self.finished = true;
        proof {
            assert(self.pulled() =~= before.pulled());
            assert(before.pulled() =~= before.consumed());
        }
        if status == DecodeStatus::InputEmpty {
            proof {
                self.earlier@ = self.earlier@ + self.output_buf@;
            }
            self.output_buf = out;
            self.output_pos = 0;
            proof {
                assert(self.delivered() =~= before.produced());
                if before.intact() {
                    let a = utf8_of(before.label(), before.consumed())->Some_0;
                    let b = utf8_complete(before.label(), before.consumed())->Some_0;
                    assert(a.is_prefix_of(b));
                    assert(self.produced() =~= b);
                }
            }
            Ok(())
        } else if status == DecodeStatus::Malformed {
            proof {
                self.broken@ = true;
            }
            Err(CodecError::Truncated)
        } else {
            proof {
                self.broken@ = true;
            }
            Err(CodecError::Stalled { input: Vec::new(), position: 0 })
        }
    }

    /// Peeks at the decoded UTF-8 that has not been consumed. Only when all
    /// of it has been consumed does it pull from the source and decode, as
    /// often as it takes to get some UTF-8 or to find the source exhausted:
    /// an empty result means that the source gave no more bytes.
    pub fn fill_buf(&mut self) -> (r: Result<&[u8], CodecError>)
        requires
            old(self).wf(),
        ensures
            final(self).wf(),
            final(self).label() == old(self).label(),
            final(self).capacity() == old(self).capacity(),
            final(self).delivered() == old(self).delivered(),
            !old(self).drained() ==> (r matches Ok(s) && s@ == old(self).available() && *final(self)
                == *old(self)),
            old(self).drained() ==> match r {
                Ok(s) => {
                    &&& s@ == final(self).available()
                    &&& s@.len() == 0 ==> final(self).finished()
                    &&& final(self).pending_input().len() == 0
                    &&& old(self).pulled().is_prefix_of(final(self).pulled())
                    &&& old(self).intact() ==> final(self).intact()
                    &&& final(self).intact() && !final(self).finished() ==> utf8_of(
                        final(self).label(),
                        final(self).pulled(),
                    ) == Some(final(self).delivered() + s@)
                    &&& final(self).intact() && final(self).finished() ==> utf8_complete(
                        final(self).label(),
                        final(self).pulled(),
                    ) == Some(final(self).delivered() + s@)
                },
                Err(CodecError::Source(_)) => {
                    &&& final(self).pending_input().len() == 0
                    &&& old(self).pulled().is_prefix_of(final(self).pulled())
                    &&& final(self).drained()
                    &&& old(self).intact() ==> final(self).intact()
                },
                Err(CodecError::Malformed { input, position }) => {
                    &&& input@ == final(self).pending_input()
                    &&& old(self).pulled().is_prefix_of(final(self).consumed() + input@.skip(position as int))
                    &&& position <= input@.len()
                    &&& !final(self).intact()
                    &&& old(self).intact() ==> utf8_of(old(self).label(), final(self).consumed() + input@.skip(
                        position as int)) is None
                },
                Err(CodecError::Stalled { input, position }) => {
                    &&& input@ == final(self).pending_input()
                    &&& position <= input@.len()
                    &&& !final(self).intact()
                    &&& !final(self).last_call_had_room(input@.len() as usize)
                },
                Err(CodecError::Truncated) => {
                    &&& final(self).finished()
                    &&& !final(self).intact()
                    &&& old(self).pulled().is_prefix_of(final(self).pulled())
                    &&& old(self).intact() ==> utf8_complete(old(self).label(), final(self).pulled()) is None
                },
                Err(CodecError::NoOutput) => {
                    &&& final(self).drained()
                    &&& old(self).pulled().is_prefix_of(final(self).pulled())
                    &&& final(self).pulled().len() + 1 >= old(self).pulled().len() + MAX_SILENT_PULLS
                },
                Err(_) => false,
            },
            old(self).drained() && old(self).pending_decodable() && utf8_step(
                old(self).label(),
                old(self).consumed(),
                old(self).pending_input(),
            )->Some_0.len() > 0 ==> (r matches Ok(s) && Some(s@) == utf8_step(
                old(self).label(),
                old(self).consumed(),
                old(self).pending_input(),
            )),
            old(self).finished() && old(self).drained() ==> (r matches Ok(s) && s@.len() == 0)
                && *final(self) == *old(self),
            old(self).drained() && !old(self).finished() && r is Ok && final(self).finished()
                ==> final(self).source_exhausted(),
    {
        proof {
            self.lemma_split();
        }
        if self.output_pos >= self.output_buf.len() && !self.finished {
            let ghost start = *self;
            let mut rounds: usize = 0;
            let mut ended = false;
            loop
                invariant_except_break
                    self.drained(),
                    !ended,
                    start.pending_decodable() && utf8_step(
                        start.label(),
                        start.consumed(),
                        start.pending_input(),
                    )->Some_0.len() > 0 ==> rounds == 0,
                    self.pulled().len() + 1 >= start.pulled().len() + rounds,
                    rounds <= MAX_SILENT_PULLS,
                    rounds > 0 ==> self.pending_input().len() == 0,
                    rounds > 0 && start.pending_input().len() == 0 ==> self.pulled().len()
                        > start.pulled().len(),
                    rounds == 0 ==> *self == start,
                invariant
                    self.wf(),
                    start == *old(self),
                    start.drained(),
                    self.label() == start.label(),
                    self.capacity() == start.capacity(),
                    self.delivered() == start.delivered(),
                    start.pulled().is_prefix_of(self.pulled()),
                    start.intact() ==> self.intact(),
                    !self.finished(),
                    !start.finished(),
                ensures
                    !self.finished(),
                    ended ==> self.source_exhausted() && self.drained(),
                    !ended ==> !self.drained(),
                    start.pending_decodable() && utf8_step(
                        start.label(),
                        start.consumed(),
                        start.pending_input(),
                    )->Some_0.len() > 0 ==> Some(self.available()) == utf8_step(
                        start.label(),
                        start.consumed(),
                        start.pending_input(),
                    ),
                    self.pending_input().len() == 0,
                    start.pending_input().len() == 0 && self.pulled() == start.pulled() ==> self.drained(),
                decreases MAX_SILENT_PULLS - rounds,
            {
                if rounds == MAX_SILENT_PULLS {
                    return Err(CodecError::NoOutput);
                }
                let ghost prev = *self;
                match self.refill() {
                    Ok(exhausted) => {
                        proof {
                            self.lemma_split();
                            assert(start.pulled().is_prefix_of(self.pulled()));
                        }
                        if exhausted {
                            ended = true;
                            break;
                        }
                        if self.output_pos < self.output_buf.len() {
                            break;
                        }
                    },
                    Err(e) => {
                        proof {
                            if e is Malformed {
                                let input = e->Malformed_input;
                                let position = e->Malformed_position;
                                assert(prev.consumed() + input@ =~= self.consumed() + input@.skip(
                                    position as int));
                                let rest = self.consumed() + input@.skip(position as int);
                                assert(prev.pulled().is_prefix_of(rest));
                                assert(start.pulled().is_prefix_of(prev.pulled()));
                                assert(rest.subrange(0, start.pulled().len() as int) =~= prev.pulled().subrange(
                                    0, start.pulled().len() as int));
                                assert(start.pulled().is_prefix_of(rest));
                            }
                        }
                        return Err(e);
                    },
                }
                rounds = rounds + 1;
            }
            if ended {
                match self.finish() {
                    Ok(()) => {},
                    Err(e) => {
                        proof {
                            assert(start.pulled().is_prefix_of(self.pulled()));
                        }
                        return Err(e);
                    },
                }
            }
        }
        proof {
            self.lemma_split();
        }
        Ok(slice_subrange(self.output_buf.as_slice(), self.output_pos, self.output_buf.len()))
    }

    /// Copies as much decoded UTF-8 as fits into `buf`, refilling first if
    /// everything decoded has been consumed, and consumes what was copied.
    pub fn read(&mut self, buf: &mut [u8]) -> (r: Result<usize, CodecError>)
        requires
            old(self).wf(),
        ensures
            final(self).wf(),
            final(self).label() == old(self).label(),
            final(self).capacity() == old(self).capacity(),
            old(self).intact() && r is Ok ==> final(self).intact(),
            !old(self).drained() ==> r is Ok,
            old(self).finished() && old(self).drained() ==> r == Ok::<usize, CodecError>(0usize)
                && *final(self) == *old(self) && final(buf)@ == old(buf)@,
            match r {
                Ok(n) => {
                    &&& n <= old(buf)@.len()
                    &&& final(buf)@.len() == old(buf)@.len()
                    &&& final(self).delivered() == old(self).delivered() + final(buf)@.take(n as int)
                    &&& final(buf)@.skip(n as int) == old(buf)@.skip(n as int)
                    &&& n < old(buf)@.len() ==> final(self).drained()
                    &&& n == 0 && old(buf)@.len() > 0 ==> final(self).finished()
                    &&& !old(self).drained() ==> final(self).pulled() == old(self).pulled()
                    &&& !old(self).drained() ==> final(buf)@.take(n as int) == old(self).available().take(
                        n as int)
                    &&& !old(self).drained() ==> n == if old(buf)@.len() < old(self).available().len() {
                        old(buf)@.len()
                    } else {
                        old(self).available().len()
                    }
                },
                Err(_) => final(self).delivered() == old(self).delivered() && final(buf)@ == old(buf)@,
            },
    {
        let avail = match self.fill_buf() {
            Ok(s) => s,
            Err(e) => {
                return Err(e);
            },
        };
        let n: usize = if avail.len() < buf.len() {
            avail.len()
        } else {
            buf.len()
        };
        let ghost start = buf@;
        let mut i: usize = 0;
        while i < n
            invariant
                i <= n,
                n <= avail@.len(),
                n <= start.len(),
                buf@.len() == start.len(),
                forall|j: int| 0 <= j < i ==> buf@[j] == avail@[j],
                forall|j: int| i <= j < start.len() ==> buf@[j] == start[j],
            decreases n - i,
        {
            buf[i] = avail[i];
            i = i + 1;
        }
        proof {
            assert(buf@.take(n as int) =~= avail@.take(n as int));
            assert(buf@.skip(n as int) =~= start.skip(n as int));
        }
        if n > 0 {
            self.consume(n);
        }
        proof {
            if n == 0 {
                assert(buf@ =~= start);
            }
        }
        Ok(n)
    }
}

/// How reads split the source does not matter: two intact buffers for the
/// same label that have pulled the same bytes, reached the end of the stream
/// and had all the result consumed, have handed out the same UTF-8, namely
/// what those bytes decode to as a whole stream. In particular a character whose bytes came in two
/// reads comes out as if they had come in one.
pub proof fn lemma_output_independent_of_reads<R, S>(a: &CodecReadBuffer<R>, b: &CodecReadBuffer<S>)
    requires
        a.wf(),
        b.wf(),
        a.intact(),
        b.intact(),
        a.label() == b.label(),
        a.pulled() == b.pulled(),
        a.finished(),
        b.finished(),
        a.drained(),
        b.drained(),
    ensures
        a.delivered() == b.delivered(),
        Some(a.delivered()) == utf8_complete(a.label(), a.pulled()),
{
    a.lemma_split();
    b.lemma_split();
    assert(a.available() =~= Seq::<u8>::empty());
    assert(b.available() =~= Seq::<u8>::empty());
    assert(a.delivered() =~= a.produced());
    assert(b.delivered() =~= b.produced());
    assert(a.pulled() =~= a.consumed());
    assert(b.pulled() =~= b.consumed());
}

} // verus!
