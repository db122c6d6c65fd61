//! Block-buffered output policy: lines accumulate in a buffer of one
//! traditional block, and the buffer is handed out for writing when a line
//! would overflow it or fills it.

use vstd::prelude::*;
use vstd::string::StringSliceAdditionalSpecFns;

verus! {

/// Traditional block size in bytes.
pub const BLOCK_SIZE: usize = 512;

/// What one buffered line append yields: the bytes that must be written out
/// now, and the buffer contents afterwards. The buffer is written out before
/// the line when the line would overflow the block, and again right away
/// when the appended line fills it.
pub open spec fn writeln_spec(buf: Seq<u8>, line: Seq<u8>) -> (Seq<u8>, Seq<u8>) {
    let (o1, b1): (Seq<u8>, Seq<u8>) = if buf.len() + line.len() > BLOCK_SIZE {
        (buf, Seq::empty())
    } else {
        (Seq::empty(), buf)
    };
    let b2 = b1 + line;
    if b2.len() >= BLOCK_SIZE {
        (o1 + b2, Seq::empty())
    } else {
        (o1, b2)
    }
}

/// A block-sized output buffer. Holds strictly less than one block; what
/// overflows is handed back to the caller to write.
#[derive(Debug)]
pub struct BlockBuffer {
    buffer: Vec<u8>,
}

impl View for BlockBuffer {
    type V = Seq<u8>;

    closed spec fn view(&self) -> Seq<u8> {
        self.buffer@
    }
}

impl BlockBuffer {
    /// An empty buffer.
    pub fn new() -> (r: BlockBuffer)
        ensures
            r@ == Seq::<u8>::empty(),
    {
        BlockBuffer { buffer: Vec::new() }
    }

    /// Appends one line (terminated with a newline byte) to the buffer and
    /// returns the bytes that must be written out now, exactly as
    /// [`writeln_spec`] prescribes.
    pub fn writeln(&mut self, txt: &str) -> (out: Vec<u8>)
        ensures
            out@ == writeln_spec(old(self)@, txt.spec_bytes() + seq![10u8]).0,
            final(self)@ == writeln_spec(old(self)@, txt.spec_bytes() + seq![10u8]).1,
    {
        let ghost line = txt.spec_bytes() + seq![10u8];
        let bytes = txt.as_bytes();
        let mut out: Vec<u8> = Vec::new();
        if self.buffer.len() >= BLOCK_SIZE || bytes.len() > BLOCK_SIZE - 1 - self.buffer.len() {
            push_bytes(&mut out, self.buffer.as_slice());
            self.buffer.clear();
            proof {
                assert(out@ =~= old(self)@);
            }
        }
        push_bytes(&mut self.buffer, bytes);
        self.buffer.push(10u8);
        proof {
            if out@.len() == 0 {
                assert(self.buffer@ =~= old(self)@ + line);
            } else {
                assert(self.buffer@ =~= Seq::<u8>::empty() + line);
            }
        }
        if self.buffer.len() >= BLOCK_SIZE {
            push_bytes(&mut out, self.buffer.as_slice());
            self.buffer.clear();
            proof {
                let pair = writeln_spec(old(self)@, line);
                assert(out@ =~= pair.0);
                assert(self.buffer@ =~= pair.1);
            }
        } else {
            proof {
                let pair = writeln_spec(old(self)@, line);
                assert(out@ =~= pair.0);
                assert(self.buffer@ =~= pair.1);
            }
        }
        out
    }

    /// Empties the buffer and returns what it held, for a final write.
    pub fn take_buffer(&mut self) -> (out: Vec<u8>)
        ensures
            out@ == old(self)@,
            final(self)@ == Seq::<u8>::empty(),
    {
        let mut out: Vec<u8> = Vec::new();
        push_bytes(&mut out, self.buffer.as_slice());
        self.buffer.clear();
        proof {
            assert(out@ =~= old(self)@);
        }
        out
    }

    /// How many bytes the buffer currently holds.
    pub fn len(&self) -> (r: usize)
        ensures
            r == self@.len(),
    {
        self.buffer.len()
    }
}

/// Appends all of `src` to `dst`.
fn push_bytes(dst: &mut Vec<u8>, src: &[u8])
    ensures
        final(dst)@ == old(dst)@ + src@,
{
    let mut i: usize = 0;
    proof {
        assert(dst@ =~= old(dst)@ + src@.take(0));
    }
    while i < src.len()
        invariant
            0 <= i <= src@.len(),
            dst@ == old(dst)@ + src@.take(i as int),
        decreases src@.len() - i,
    {
        dst.push(src[i]);
        proof {
            assert(dst@ =~= old(dst)@ + src@.take(i + 1));
        }
        i += 1;
    }
    proof {
        assert(src@.take(src@.len() as int) =~= src@);
    }
}

} // verus!
