//! Log records on the shell's output channel.
use vstd::prelude::*;
use vstd::string::StringSliceAdditionalSpecFns;

use crate::control::LF;
use crate::editor::push_all;

verus! {

/// The logger that writes records to the output channel, one per line.
pub struct MyLogger;

impl MyLogger {
    pub fn new() -> (r: Self)
        ensures
            r == MyLogger,
    {
        MyLogger
    }

    /// The bytes of one record: its text and a line feed.
    pub fn frame(&self, text: &str) -> (r: Vec<u8>)
        ensures
            r@ == text.spec_bytes() + seq![LF],
    {
        let mut out: Vec<u8> = Vec::new();
        push_all(&mut out, text.as_bytes());
        out.push(LF);
        assert(out@ =~= text.spec_bytes() + seq![LF]);
        out
    }
}

} // verus!
