//! The framing codec: one message out of the front of a byte buffer, or a
//! message onto the end of one. Pure functions; a transport owns the buffer.
use vstd::prelude::*;

verus! {

use crate::model::VideohubMessage;
use crate::parser::{ParseError, SpecParse, spec_parse_block};
use crate::writer::spec_serialize;

/// Codec over the wire protocol: blocks delimited by blank lines.
#[derive(Clone, Copy, Debug, Default, PartialEq, Eq)]
pub struct VideohubCodec;

impl VideohubCodec {
    /// Decode one message from the front of `src`. `Ok(Some)` also returns
    /// how many bytes the caller must drain; `Ok(None)` asks for more bytes
    /// and consumes nothing; `Err` is a protocol error that closes the
    /// stream.
    pub fn decode(&self, src: &Vec<u8>) -> (r: Result<
        Option<(VideohubMessage, usize)>,
        ParseError,
    >)
        ensures
            match r {
                Ok(Some((m, n))) => 0 < n <= src.len() && spec_parse_block(src@)
                    == (SpecParse::Parsed { msg: m@, len: n as int }),
                Ok(None) => spec_parse_block(src@) == SpecParse::Incomplete,
                Err(e) => e == ParseError::Malformed && spec_parse_block(src@)
                    == SpecParse::Malformed,
            },
    {
        match VideohubMessage::parse_single_block(src) {
            Ok((m, n)) => Ok(Some((m, n))),
            Err(ParseError::Incomplete) => Ok(None),
            Err(ParseError::Malformed) => Err(ParseError::Malformed),
        }
    }

    /// Encode a message onto the end of `dst`.
    pub fn encode(&self, item: &VideohubMessage, dst: &mut Vec<u8>)
        ensures
            final(dst)@ == old(dst)@ + spec_serialize(item@),
    {
        item.write_serialized(dst);
    }
}

} // verus!
