//! A message body held in memory, and its conversion to text.

use vstd::prelude::*;

use vstd::utf8::{decode_utf8, valid_utf8};

use crate::error::{HootError, Result};

verus! {

/// What a body holds.
pub enum BodyKind {
    /// No bytes at all.
    Empty,
    /// Bytes held in memory.
    Bytes(Vec<u8>),
}

/// A message body held in memory.
pub struct Body {
    /// What the body holds.
    pub kind: BodyKind,
}

/// Relies on `String::from_utf8`: it succeeds exactly when the bytes are
/// valid UTF-8, and then the string holds their decoding.
#[verifier::external_body]
fn bytes_to_string(v: Vec<u8>) -> (r: Result<String>)
    ensures
        r is Ok <==> valid_utf8(v@),
        r matches Ok(s) ==> s@ == decode_utf8(v@),
        r matches Err(e) ==> e == HootError::ConvertBytesToStr,
{
    match String::from_utf8(v) {
        Ok(s) => Ok(s),
        Err(u) => Err(HootError::ConvertBytesToStr),
    }
}

impl Body {
    /// The bytes the body holds.
    pub open spec fn view(self) -> Seq<u8> {
        match self.kind {
            BodyKind::Empty => Seq::<u8>::empty(),
            BodyKind::Bytes(v) => v@,
        }
    }

    /// A body with nothing in it.
    pub fn empty() -> (r: Body)
        ensures
            r.view() == Seq::<u8>::empty(),
            r.kind is Empty,
    {
        Body { kind: BodyKind::Empty }
    }

    /// A body holding the given bytes.
    pub fn bytes(bytes: Vec<u8>) -> (r: Body)
        ensures
            r.view() == bytes@,
    {
        Body { kind: BodyKind::Bytes(bytes) }
    }

    /// How many bytes the body holds, when that is known without reading it.
    pub fn size(&self) -> (r: Option<u64>)
        ensures
            r == Option::Some(self.view().len() as u64),
            self.view().len() <= u64::MAX,
    {
        match &self.kind {
            BodyKind::Empty => Option::Some(0),
            BodyKind::Bytes(v) => Option::Some(v.len() as u64),
        }
    }

    /// Reads the body as UTF-8 text, taking at most `limit` bytes.
    /// Succeeds exactly when the bytes taken are valid UTF-8, and then
    /// returns their decoding; anything else is a conversion failure.
    pub fn into_string(self, limit: u64) -> (r: Result<String>)
        ensures
            ({
                let taken = self.view().take(vstd::math::min(
                    limit as int,
                    self.view().len() as int,
                ));
                &&& r is Ok <==> valid_utf8(taken)
                &&& (r matches Ok(s) ==> s@ == decode_utf8(taken))
                &&& (r matches Err(e) ==> e == HootError::ConvertBytesToStr)
            }),
    {
        let v: Vec<u8> = match self.kind {
            BodyKind::Empty => Vec::new(),
            BodyKind::Bytes(b) => b,
        };
        let taken: Vec<u8> = if (v.len() as u64) <= limit {
            v
        } else {
            crate::request::copy_range(v.as_slice(), 0, limit as usize)
        };
        proof {
            assert(taken@ =~= self.view().take(vstd::math::min(
                limit as int,
                self.view().len() as int,
            )));
        }
        bytes_to_string(taken)
    }
}

} // verus!
