use vstd::prelude::*;

verus! {

/// A growable byte buffer with a read cursor. The host program appends the
/// bytes it reads from the socket; the TLS state machine consumes them
/// through the cursor; a redirect can still splice the whole accumulated
/// prefix upstream.
#[derive(Debug)]
pub struct Buffer {
    buf: Vec<u8>,
    index: usize,
}

impl Buffer {
    #[verifier::type_invariant]
    spec fn wf(&self) -> bool {
        self.index <= self.buf@.len()
    }

    /// The bytes accumulated so far.
    pub closed spec fn bytes(&self) -> Seq<u8> {
        self.buf@
    }

    /// The read cursor.
    pub closed spec fn cursor(&self) -> int {
        self.index as int
    }

    /// An empty buffer.
    pub fn new() -> (r: Buffer)
        ensures
            r.bytes() == Seq::<u8>::empty(),
            r.cursor() == 0,
    {
        Buffer { buf: Vec::new(), index: 0 }
    }

    /// An empty buffer expecting about `capacity` bytes.
    pub fn with_capacity(capacity: usize) -> (r: Buffer)
        ensures
            r.bytes() == Seq::<u8>::empty(),
            r.cursor() == 0,
    {
        Buffer { buf: Vec::with_capacity(capacity), index: 0 }
    }

    /// How many accumulated bytes the cursor has not consumed yet.
    pub fn ready(&self) -> (r: usize)
        ensures
            r == self.bytes().len() - self.cursor(),
    {
        proof {
            use_type_invariant(self);
        }
        self.buf.len() - self.index
    }

    /// All the bytes accumulated so far, consumed or not.
    pub fn data(&self) -> (r: &Vec<u8>)
        ensures
            r@ == self.bytes(),
    {
        &self.buf
    }

    /// Append bytes the host program read from the socket.
    pub fn push_bytes(&mut self, data: &[u8])
        ensures
            final(self).bytes() == old(self).bytes() + data@,
            final(self).cursor() == old(self).cursor(),
    {
        proof {
            use_type_invariant(&*self);
        }
        let mut i: usize = 0;
        let mut appended: Vec<u8> = Vec::new();
        while i < data.len()
            invariant
                i <= data@.len(),
                appended@ == data@.take(i as int),
            decreases data@.len() - i,
        {
            appended.push(*vstd::slice::slice_index_get(data, i));
            proof {
                assert(appended@ =~= data@.take(i + 1));
            }
            i = i + 1;
        }
        proof {
            assert(data@.take(data@.len() as int) =~= data@);
        }
        let rest = Buffer { buf: appended, index: 0 };
        let mut merged: Vec<u8> = Vec::new();
        let mut j: usize = 0;
        while j < self.buf.len()
            invariant
                j <= self.buf@.len(),
                self.buf@ == old(self).bytes(),
                self.index == old(self).cursor(),
                merged@ == self.buf@.take(j as int),
            decreases self.buf@.len() - j,
        {
            merged.push(self.buf[j]);
            proof {
                assert(merged@ =~= self.buf@.take(j + 1));
            }
            j = j + 1;
        }
        let mut k: usize = 0;
        proof {
            assert(self.buf@.take(self.buf@.len() as int) =~= self.buf@);
        }
        while k < rest.buf.len()
            invariant
                k <= rest.buf@.len(),
                rest.buf@ == data@,
                self.buf@ == old(self).bytes(),
                self.index == old(self).cursor(),
                merged@ == self.buf@ + rest.buf@.take(k as int),
            decreases rest.buf@.len() - k,
        {
            merged.push(rest.buf[k]);
            proof {
                assert(merged@ =~= self.buf@ + rest.buf@.take(k + 1));
            }
            k = k + 1;
        }
        proof {
            assert(self.buf@ + rest.buf@.take(rest.buf@.len() as int) =~= old(self).bytes()
                + data@);
        }
        self.buf = merged;
    }

    /// Read up to `n` unconsumed bytes, advancing the cursor past them.
    pub fn read_up_to(&mut self, n: usize) -> (r: Vec<u8>)
        ensures
            ({
                let take = if n <= old(self).bytes().len() - old(self).cursor() {
                    n as int
                } else {
                    old(self).bytes().len() - old(self).cursor()
                };
                &&& r@ == old(self).bytes().subrange(old(self).cursor(), old(self).cursor() + take)
                &&& final(self).bytes() == old(self).bytes()
                &&& final(self).cursor() == old(self).cursor() + take
            }),
    {
        proof {
            use_type_invariant(&*self);
        }
        let ready = self.buf.len() - self.index;
        let take = if n <= ready {
            n
        } else {
            ready
        };
        let start = self.index;
        let bn = self.buf.len();
        let mut r: Vec<u8> = Vec::new();
        let mut i: usize = 0;
        while i < take
            invariant
                i <= take,
                bn == self.buf@.len(),
                start + take <= self.buf@.len(),
                start == old(self).cursor(),
                self.buf@ == old(self).bytes(),
                self.index == old(self).cursor(),
                r@ == self.buf@.subrange(start as int, start + i),
            decreases take - i,
        {
            r.push(self.buf[start + i]);
            proof {
                assert(r@ =~= self.buf@.subrange(start as int, start + i + 1));
            }
            i = i + 1;
        }
        self.index = self.index + take;
        r
    }
}

} // verus!
