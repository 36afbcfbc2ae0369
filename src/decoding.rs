//! The decode step: feeding raw bytes to a stateful `encoding_rs` decoder
//! without replacement of malformed sequences.
use vstd::prelude::*;
use vstd::slice::{slice_subrange, slice_to_vec};

verus! {

/// `encoding_rs::Decoder`, carried opaquely: a streaming decoder whose state
/// is spoken of through `decoder_label` and `decoder_input`.
#[verifier::external_type_specification]
#[verifier::external_body]
pub struct ExDecoder(encoding_rs::Decoder);

/// `std::io::Error`, carried opaquely from a failing source to the caller.
#[verifier::external_type_specification]
#[verifier::external_body]
pub struct ExIoError(std::io::Error);

/// Whether `encoding_rs` knows `label` as the name of an encoding other
/// than the replacement encoding.
pub uninterp spec fn label_resolves(label: Seq<char>) -> bool;

/// The label of the encoding that a decoder was made for.
pub uninterp spec fn decoder_label(d: encoding_rs::Decoder) -> Seq<char>;

/// The bytes that a decoder has consumed since it was made.
pub uninterp spec fn decoder_input(d: encoding_rs::Decoder) -> Seq<u8>;

/// Whether a decoder has never reported a malformed sequence.
pub uninterp spec fn decoder_clean(d: encoding_rs::Decoder) -> bool;

/// The UTF-8 that a decoder for `label`, without BOM handling and without
/// replacement, has written once it has consumed `input` (never as the last
/// input of the stream); `None` where it met a malformed sequence.
pub uninterp spec fn utf8_of(label: Seq<char>, input: Seq<u8>) -> Option<Seq<u8>>;

/// Whether a decoder may still be fed: it has not been told that its input
/// ended.
pub uninterp spec fn decoder_live(d: encoding_rs::Decoder) -> bool;

/// The output space that the decoder, in its state `d`, promises to need at
/// most for `n` more input bytes; `None` where that would overflow `usize`.
pub uninterp spec fn max_utf8_len(d: encoding_rs::Decoder, n: usize) -> Option<usize>;

/// The most output space that one call of the decoder is given.
pub const MAX_ROOM: usize = 0x4000_0000;

/// Whether the decoder in state `d` can take `n` bytes in one call with
/// output space that the library is willing to give.
pub open spec fn room_suffices(d: encoding_rs::Decoder, n: usize) -> bool {
    max_utf8_len(d, n) matches Some(m) && m <= MAX_ROOM
}

/// The UTF-8 that a decoder for `label`, without BOM handling and without
/// replacement, has written once it has consumed `input` and been told that
/// the stream ends there; `None` where it met a malformed sequence or the
/// stream ends inside a character.
pub uninterp spec fn utf8_complete(label: Seq<char>, input: Seq<u8>) -> Option<Seq<u8>>;

/// Whether a decoder has met no malformed input, so that what it has written
/// is what the bytes it consumed decode to.
pub open spec fn decoder_sound(d: encoding_rs::Decoder) -> bool {
    decoder_clean(d) && utf8_of(decoder_label(d), decoder_input(d)) is Some
}

/// How a call of the decoder ended.
#[derive(Clone, Copy, Debug, PartialEq, Eq, Structural)]
pub(crate) enum DecodeStatus {
    /// All of the input was consumed.
    InputEmpty,
    /// The output space ran out before the input did.
    OutputFull,
    /// A malformed byte sequence was met.
    Malformed,
}

/// Why a decoding buffer could not go on.
#[derive(Debug)]
pub enum CodecError {
    /// The encoding label names no encoding that can be decoded.
    UnrecognizedEncoding(String),
    /// The bytes handed to the decoder are malformed under its encoding;
    /// `position` is how far into `input` decoding stopped.
    Malformed { input: Vec<u8>, position: usize },
    /// The decoder made no progress although it was given output space;
    /// `position` is how far into `input` decoding stopped.
    Stalled { input: Vec<u8>, position: usize },
    /// The stream ended inside a character.
    Truncated,
    /// The decoder took in many pulls' worth of bytes without writing any
    /// UTF-8.
    NoOutput,
    /// The source failed.
    Source(std::io::Error),
}

/// Relies on `Encoding::for_label_no_replacement`, which resolves a label to an
/// encoding, and `Encoding::new_decoder_without_bom_handling`, which makes a
/// fresh decoder that treats a BOM as ordinary input.
#[verifier::external_body]
pub(crate) fn decoder_for_label(label: &str) -> (r: Option<encoding_rs::Decoder>)
    ensures
        r is Some <==> label_resolves(label@),
        r matches Some(d) ==> decoder_label(d) == label@ && decoder_input(d) == Seq::<u8>::empty()
            && decoder_live(d) && decoder_clean(d),
        r is Some ==> utf8_of(label@, Seq::<u8>::empty()) == Some(Seq::<u8>::empty()),
{
    encoding_rs::Encoding::for_label_no_replacement(label.as_bytes())
        .map(encoding_rs::Encoding::new_decoder_without_bom_handling)
}

/// Makes a decoder for `label` that treats a BOM as ordinary input and has
/// consumed nothing yet; `None` where the label names no encoding that can
/// be decoded.
pub fn new_decoder(label: &str) -> (r: Option<encoding_rs::Decoder>)
    ensures
        r is Some <==> label_resolves(label@),
        r matches Some(d) ==> decoder_label(d) == label@ && decoder_input(d) == Seq::<u8>::empty()
            && decoder_live(d) && decoder_sound(d),
        r is Some ==> utf8_of(label@, Seq::<u8>::empty()) == Some(Seq::<u8>::empty()),
{
    decoder_for_label(label)
}

/// Relies on `Decoder::max_utf8_buffer_length_without_replacement`: the
/// output space that suffices for `n` more bytes in the decoder's state.
#[verifier::external_body]
fn max_output_len(decoder: &encoding_rs::Decoder, n: usize) -> (r: Option<usize>)
    requires
        decoder_live(*decoder),
    ensures
        r == max_utf8_len(*decoder, n),
{
    decoder.max_utf8_buffer_length_without_replacement(n)
}

/// Relies on `Decoder::decode_to_string_without_replacement`, called with
/// `last == false` on a `String` of capacity `room`: it consumes a prefix of
/// `src` (all of it unless it stops early), carries partial characters over
/// to the next call, and writes what the consumed bytes decode to.
#[verifier::external_body]
fn decode_some(decoder: &mut encoding_rs::Decoder, src: &[u8], room: usize) -> (r: (
    DecodeStatus,
    usize,
    Vec<u8>,
))
    requires
        decoder_live(*old(decoder)),
        4 <= room <= MAX_ROOM,
    ensures
        decoder_live(*final(decoder)),
        decoder_label(*final(decoder)) == decoder_label(*old(decoder)),
        max_utf8_len(*old(decoder), src@.len() as usize) matches Some(m) && m <= room ==> r.0
            != DecodeStatus::OutputFull,
        r.1 <= src@.len(),
        decoder_input(*final(decoder)) == decoder_input(*old(decoder)) + src@.subrange(0, r.1 as int),
        r.0 == DecodeStatus::InputEmpty ==> r.1 == src@.len(),
        r.0 != DecodeStatus::Malformed && decoder_sound(*old(decoder)) ==> decoder_clean(*final(decoder)),
        r.0 != DecodeStatus::Malformed && decoder_sound(*old(decoder)) ==> ({
            let before = utf8_of(decoder_label(*old(decoder)), decoder_input(*old(decoder)))->Some_0;
            let after = utf8_of(decoder_label(*final(decoder)), decoder_input(*final(decoder)));
            &&& after is Some
            &&& before.is_prefix_of(after->Some_0)
            &&& r.2@ == after->Some_0.skip(before.len() as int)
        }),
        r.0 == DecodeStatus::Malformed && decoder_sound(*old(decoder)) ==> utf8_of(
            decoder_label(*old(decoder)),
            decoder_input(*old(decoder)) + src@,
        ) is None,
{
    let mut dst = String::with_capacity(room);
    let (result, read) = decoder.decode_to_string_without_replacement(src, &mut dst, false);
    let status = match result {
        encoding_rs::DecoderResult::InputEmpty => DecodeStatus::InputEmpty,
        encoding_rs::DecoderResult::OutputFull => DecodeStatus::OutputFull,
        encoding_rs::DecoderResult::Malformed(_, _) => DecodeStatus::Malformed,
    };
    (status, read, dst.into_bytes())
}

/// Relies on `Decoder::decode_to_string_without_replacement`, called with no
/// input and `last == true` on a `String` of capacity `room`: it tells the
/// decoder that the stream has ended and writes what that completes. The
/// decoder must not be fed afterwards.
#[verifier::external_body]
pub(crate) fn finish_decoder(decoder: &mut encoding_rs::Decoder, room: usize) -> (r: (
    DecodeStatus,
    Vec<u8>,
))
    requires
        decoder_live(*old(decoder)),
        4 <= room <= MAX_ROOM,
    ensures
        decoder_label(*final(decoder)) == decoder_label(*old(decoder)),
        decoder_input(*final(decoder)) == decoder_input(*old(decoder)),
        max_utf8_len(*old(decoder), 0) matches Some(m) && m <= room ==> r.0 != DecodeStatus::OutputFull,
        r.0 == DecodeStatus::InputEmpty && decoder_sound(*old(decoder)) ==> ({
            let before = utf8_of(decoder_label(*old(decoder)), decoder_input(*old(decoder)))->Some_0;
            let after = utf8_complete(decoder_label(*old(decoder)), decoder_input(*old(decoder)));
            &&& after is Some
            &&& before.is_prefix_of(after->Some_0)
            &&& r.1@ == after->Some_0.skip(before.len() as int)
        }),
        r.0 == DecodeStatus::Malformed && decoder_sound(*old(decoder)) ==> utf8_complete(decoder_label(*old(decoder)), decoder_input(*old(decoder))) is None,
{
    let mut dst = String::with_capacity(room);
    let (result, _) = decoder.decode_to_string_without_replacement(&[], &mut dst, true);
    let status = match result {
        encoding_rs::DecoderResult::InputEmpty => DecodeStatus::InputEmpty,
        encoding_rs::DecoderResult::OutputFull => DecodeStatus::OutputFull,
        encoding_rs::DecoderResult::Malformed(_, _) => DecodeStatus::Malformed,
    };
    (status, dst.into_bytes())
}

/// What a decoder for `label` that has consumed `before` writes when it goes
/// on to consume `more` as well: `None` where the bytes are malformed.
pub open spec fn utf8_step(label: Seq<char>, before: Seq<u8>, more: Seq<u8>) -> Option<Seq<u8>> {
    match (utf8_of(label, before), utf8_of(label, before + more)) {
        (Some(a), Some(b)) => Some(b.skip(a.len() as int)),
        _ => None,
    }
}

/// The output space offered to one call of the decoder for `n` input bytes:
/// what the decoder asks for where that is at most `MAX_ROOM`, else three
/// bytes for each input byte and a margin, up to a few MiB.
pub(crate) fn output_room(decoder: &encoding_rs::Decoder, n: usize) -> (r: usize)
    requires
        decoder_live(*decoder),
    ensures
        16 <= r <= MAX_ROOM,
        room_suffices(*decoder, n) ==> max_utf8_len(*decoder, n)->Some_0 <= r,
{
    match max_output_len(decoder, n) {
        Some(m) => {
            if m <= MAX_ROOM {
                if m < 16 {
                    return 16;
                }
                return m;
            }
        },
        None => {},
    }
    if n <= 0x10_0000 {
        3 * n + 16
    } else {
        0x30_0010
    }
}

/// Decodes `input` with `decoder`, which goes on from where its last call
/// stopped, into UTF-8. Malformed bytes are reported, never replaced.
pub fn decoder_helper(decoder: &mut encoding_rs::Decoder, input: &[u8]) -> (r: Result<
    Vec<u8>,
    CodecError,
>)
    requires
        decoder_live(*old(decoder)),
    ensures
        decoder_live(*final(decoder)),
        decoder_label(*final(decoder)) == decoder_label(*old(decoder)),
        decoder_sound(*old(decoder))
            && utf8_of(decoder_label(*old(decoder)), decoder_input(*old(decoder)) + input@) is Some
            && room_suffices(*old(decoder), input@.len() as usize) ==> r is Ok,
        match r {
            Ok(out) => {
                &&& decoder_input(*final(decoder)) == decoder_input(*old(decoder)) + input@
                &&& decoder_sound(*old(decoder)) ==> {
                    &&& decoder_sound(*final(decoder))
                    &&& Some(out@) == utf8_step(decoder_label(*old(decoder)), decoder_input(*old(decoder)), input@)
                    &&& utf8_of(decoder_label(*old(decoder)), decoder_input(*old(decoder)))->Some_0.is_prefix_of(
                        utf8_of(decoder_label(*old(decoder)), decoder_input(*final(decoder)))->Some_0)
                }
            },
            Err(CodecError::Malformed { input: bytes, position }) => {
                &&& bytes@ == input@
                &&& position <= input@.len()
                &&& decoder_input(*final(decoder)) == decoder_input(*old(decoder)) + input@.subrange(0, position as int)
                &&& decoder_sound(*old(decoder)) ==> utf8_of(decoder_label(*old(decoder)), decoder_input(
                    *old(decoder),
                ) + input@) is None
            },
            Err(CodecError::Stalled { input: bytes, position }) => {
                &&& bytes@ == input@
                &&& position < input@.len()
                &&& decoder_input(*final(decoder)) == decoder_input(*old(decoder)) + input@.subrange(0, position as int)
                &&& !room_suffices(*old(decoder), input@.len() as usize)
            },
            Err(_) => false,
        },
        decoder_sound(*old(decoder))
            && utf8_of(decoder_label(*old(decoder)), decoder_input(*old(decoder)) + input@) is Some
            ==> !(r matches Err(CodecError::Malformed { .. })),
        input@.len() == 0 ==> (r matches Ok(out) && out@.len() == 0),
{
    let ghost label = decoder_label(*decoder);
    let ghost start_input = decoder_input(*decoder);
    let mut out: Vec<u8> = Vec::new();
    let mut start: usize = 0;
    while start < input.len()
        invariant
            start <= input@.len(),
            decoder_label(*decoder) == label,
            label == decoder_label(*old(decoder)),
            start_input == decoder_input(*old(decoder)),
            decoder_live(*decoder),
            start == 0 ==> *decoder == *old(decoder),
            room_suffices(*old(decoder), input@.len() as usize) ==> start == 0 || start == input@.len(),
            decoder_input(*decoder) == start_input + input@.subrange(0, start as int),
            input@.len() == 0 ==> out@.len() == 0,
            decoder_sound(*old(decoder)) ==> {
                &&& decoder_sound(*decoder)
                &&& utf8_of(label, start_input)->Some_0.is_prefix_of(utf8_of(label, decoder_input(*decoder))->Some_0)
                &&& out@ == utf8_of(label, decoder_input(*decoder))->Some_0.skip(
                    utf8_of(label, start_input)->Some_0.len() as int)
            },
        decreases input@.len() - start,
    {
        let rest = slice_subrange(input, start, input.len());
        proof {
            if start == 0 {
                assert(rest@ =~= input@);
            }
        }
        let (status, read, mut chunk) = decode_some(decoder, rest, output_room(decoder, rest.len()));
        proof {
            assert(input@.subrange(0, start as int) + rest@.subrange(0, read as int)
                =~= input@.subrange(0, start + read));
        }
        if status == DecodeStatus::Malformed {
            proof {
                assert(start_input + input@.subrange(0, start as int) + rest@ =~= start_input + input@);
            }
            return Err(CodecError::Malformed { input: slice_to_vec(input), position: start + read });
        }
        if read == 0 {
            return Err(CodecError::Stalled { input: slice_to_vec(input), position: start });
        }
        proof {
            if decoder_sound(*old(decoder)) {
                let a = utf8_of(label, start_input)->Some_0;
                let b = utf8_of(label, decoder_input(*decoder))->Some_0;
                assert(out@ + chunk@ =~= b.skip(a.len() as int));
                assert(a.is_prefix_of(b));
            }
        }
        out.append(&mut chunk);
        start = start + read;
    }
    proof {
        assert(input@.subrange(0, input@.len() as int) =~= input@);
    }
    Ok(out)
}

} // verus!
