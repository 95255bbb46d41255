use vstd::prelude::*;
use vstd::utf8::*;
use vstd::string::StringSliceAdditionalSpecFns;
use crate::msg::Buffer;
use crate::server::{CollectState, all_nonempty, collect_run, successful_reads, lemma_complete_stream_delivers_all_bytes};

verus! {

broadcast use encode_utf8_decode_utf8, encode_utf8_valid_utf8;

/// Receives what the peers deliver and turns it into text.
#[derive(Debug, Clone, Copy)]
pub struct Processor {}

/// `std::str::from_utf8`, with a failure mapped to `None`.  The claim: it
/// succeeds exactly on valid UTF-8, and the string it returns is made of
/// the bytes it was given.
#[verifier::external_body]
fn str_from_utf8(bytes: &[u8]) -> (text: Option<&str>)
    ensures
        text is Some <==> valid_utf8(bytes@),
        text matches Some(t) ==> t.spec_bytes() == bytes@,
{
    std::str::from_utf8(bytes).ok()
}

impl Processor {
    /// A processor.
    pub fn new() -> (p: Processor)
        ensures
            p == (Processor {}),
    {
        Processor {}
    }

    /// The text carried by a buffer: `None` when its bytes are not valid
    /// UTF-8, which the receiving actor treats as fatal.
    pub fn decode(&self, msg: &Buffer) -> (text: Option<String>)
        ensures
            text is Some <==> valid_utf8(msg.inner@),
            text matches Some(s) ==> s@ == decode_utf8(msg.inner@),
    {
        match str_from_utf8(msg.inner.as_slice()) {
            Some(t) => {
                proof {
                    assert(decode_utf8(encode_utf8(t@)) == t@);
                }
                Some(t.to_owned())
            },
            None => None,
        }
    }
}

/// A text that a client writes arrives at the processor unchanged, however
/// the socket splits its bytes into reads: the server delivers exactly the
/// UTF-8 bytes of the text, which are valid and decode back to the text.
pub proof fn lemma_written_text_reaches_processor(
    text: Seq<char>,
    chunks: Seq<Seq<u8>>,
    later: Seq<Option<Seq<u8>>>,
)
    requires
        all_nonempty(chunks),
        chunks.flatten() == encode_utf8(text),
    ensures
        collect_run(
            CollectState::Reading(Seq::empty()),
            successful_reads(chunks) + seq![Some(Seq::<u8>::empty())] + later,
        ) == CollectState::Complete(encode_utf8(text)),
        valid_utf8(encode_utf8(text)),
        decode_utf8(encode_utf8(text)) == text,
{
    lemma_complete_stream_delivers_all_bytes(chunks, later);
}

} // verus!
