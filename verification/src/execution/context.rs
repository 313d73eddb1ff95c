//! The execution context: one memory tape, one input stream and one output
//! stream, owned together for the lifetime of a single program run.

use vstd::prelude::*;

use crate::execution::memory::Memory;

verus! {

/// The mathematical value of an input stream: the values it will hand out in
/// order, how many were already consumed, and the sentinel returned once the
/// values are exhausted.
#[verifier::ext_equal]
pub ghost struct InSnapshot {
    pub data: Seq<i32>,
    pub pos: int,
    pub eof: i32,
}

impl InSnapshot {
    pub open spec fn wf(self) -> bool {
        0 <= self.pos <= self.data.len()
    }

    /// The value the next read returns.
    pub open spec fn next(self) -> i32 {
        if self.pos < self.data.len() {
            self.data[self.pos]
        } else {
            self.eof
        }
    }

    /// The stream after one read: consumed by one value, or unchanged at the
    /// end of the stream.
    pub open spec fn advanced(self) -> InSnapshot {
        if self.pos < self.data.len() {
            InSnapshot { pos: self.pos + 1, ..self }
        } else {
            self
        }
    }
}

/// An input stream over a fixed sequence of values; once the sequence is
/// exhausted every further read yields the end-of-stream sentinel.
pub struct InputStream {
    data: Vec<i32>,
    pos: usize,
    eof: i32,
}

impl View for InputStream {
    type V = InSnapshot;

    closed spec fn view(&self) -> InSnapshot {
        InSnapshot { data: self.data@, pos: self.pos as int, eof: self.eof }
    }
}

impl InputStream {
    /// A stream that hands out `data` in order and then `eof` forever.
    pub fn new(data: Vec<i32>, eof: i32) -> (s: InputStream)
        ensures
            s@ == (InSnapshot { data: data@, pos: 0, eof }),
            s@.wf(),
    {
        InputStream { data, pos: 0, eof }
    }

    /// Reads one value; never fails.
    pub fn read(&mut self) -> (v: i32)
        requires
            old(self)@.wf(),
        ensures
            final(self)@.wf(),
            v == old(self)@.next(),
            final(self)@ == old(self)@.advanced(),
    {
        if self.pos < self.data.len() {
            let v = self.data[self.pos];
            self.pos = self.pos + 1;
            proof {
                assert(final(self)@ =~= old(self)@.advanced());
            }
            v
        } else {
            self.eof
        }
    }
}

/// An output stream that records every written value in order.
pub struct OutputStream {
    data: Vec<i32>,
}

impl View for OutputStream {
    type V = Seq<i32>;

    closed spec fn view(&self) -> Seq<i32> {
        self.data@
    }
}

impl OutputStream {
    /// An empty output stream.
    pub fn new() -> (s: OutputStream)
        ensures
            s@ == Seq::<i32>::empty(),
    {
        let s = OutputStream { data: Vec::new() };
        proof {
            assert(s@ =~= Seq::<i32>::empty());
        }
        s
    }

    /// Appends one value; side-effecting, no result.
    pub fn write(&mut self, value: i32)
        ensures
            final(self)@ == old(self)@.push(value),
    {
        self.data.push(value);
    }

    /// The values written so far, in order.
    pub fn values(&self) -> (v: &Vec<i32>)
        ensures
            v@ == self@,
    {
        &self.data
    }
}

/// The bundle a single program run executes against.
pub struct Context {
    pub memory: Memory,
    pub in_stream: InputStream,
    pub out_stream: OutputStream,
}

impl Context {
    pub fn new(memory: Memory, in_stream: InputStream, out_stream: OutputStream) -> (c: Context)
        ensures
            c.memory == memory,
            c.in_stream == in_stream,
            c.out_stream == out_stream,
    {
        Context { memory, in_stream, out_stream }
    }
}

} // verus!
