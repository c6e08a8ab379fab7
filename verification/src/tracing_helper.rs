//! Log plumbing helpers: an adaptor that accepts byte writes and appends
//! them, as text, to an owned buffer.

use vstd::prelude::*;

use crate::strutil::{push_str, string_from_utf8};
use crate::Error;

verus! {

/// Accepts byte-oriented writes and collects them as text. A write that is
/// not valid UTF-8 is rejected and leaves the buffer alone.
#[derive(Debug, PartialEq)]
pub struct WriteAdaptor {
    pub out: String,
}

impl WriteAdaptor {
    /// An adaptor with an empty buffer.
    pub fn new() -> (r: Self)
        ensures
            r.out@ == Seq::<char>::empty(),
    {
        WriteAdaptor { out: String::new() }
    }

    /// Writes a chunk: valid UTF-8 is decoded and appended, and the whole
    /// chunk counts as written; anything else is invalid data and the buffer
    /// keeps its content.
    pub fn write(&mut self, buf: &[u8]) -> (r: Result<usize, Error>)
        ensures
            match r {
                Ok(n) => vstd::utf8::valid_utf8(buf@) && n == buf@.len() && final (self).out@
                    == old(self).out@ + vstd::utf8::decode_utf8(buf@),
                Err(e) => !vstd::utf8::valid_utf8(buf@) && e == Error::BadRequest
                    && final (self).out == old(self).out,
            },
    {
        let mut v: Vec<u8> = Vec::new();
        let mut i: usize = 0;
        while i < buf.len()
            invariant
                0 <= i <= buf@.len(),
                v@ =~= buf@.take(i as int),
            decreases buf@.len() - i,
        {
            proof {
                assert(buf@.take(i as int + 1) =~= buf@.take(i as int).push(buf@[i as int]));
            }
            v.push(buf[i]);
            i += 1;
        }
        proof {
            assert(buf@.take(buf@.len() as int) =~= buf@);
        }
        let n = v.len();
        match string_from_utf8(v) {
            Some(s) => {
                push_str(&mut self.out, s.as_str());
                Ok(n)
            }
            None => Err(Error::BadRequest),
        }
    }

    /// The collected text.
    pub fn content(&self) -> (r: &String)
        ensures
            r == self.out,
    {
        &self.out
    }
}

} // verus!
