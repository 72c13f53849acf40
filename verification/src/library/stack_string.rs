use vstd::prelude::*;
use vstd::string::StringSliceAdditionalSpecFns;

verus! {

/// Formats text into a buffer of fixed size: bytes are appended until the
/// buffer is full.
pub struct StackString {
    buf: Vec<u8>,
    pos: usize,
}

impl StackString {
    /// The whole buffer.
    pub closed spec fn buf_spec(&self) -> Seq<u8> {
        self.buf@
    }

    /// How many bytes were written.
    pub closed spec fn pos_spec(&self) -> nat {
        self.pos as nat
    }

    /// The text written so far.
    pub open spec fn text(&self) -> Seq<u8> {
        self.buf_spec().subrange(0, self.pos_spec() as int)
    }

    /// The capacity of the buffer.
    pub open spec fn capacity(&self) -> nat {
        self.buf_spec().len()
    }

    pub open spec fn wf(&self) -> bool {
        self.pos_spec() <= self.capacity()
    }

    /// An empty text in the buffer `buf`.
    pub fn new(buf: Vec<u8>) -> (r: StackString)
        ensures
            r.wf(),
            r.buf_spec() == buf@,
            r.text() == Seq::<u8>::empty(),
    {
        let r = StackString { buf, pos: 0 };
        assert(r.text() =~= Seq::<u8>::empty());
        r
    }

    /// Append the bytes of `s`, if they fit; else nothing is written and the error
    /// is returned.
    pub fn write_str(&mut self, s: &str) -> (r: Result<(), ()>)
        requires
            old(self).wf(),
        ensures
            final(self).wf(),
            final(self).capacity() == old(self).capacity(),
            old(self).pos_spec() + s.spec_bytes().len() > old(self).capacity() ==> r is Err && *final(self)
                == *old(self),
            old(self).pos_spec() + s.spec_bytes().len() <= old(self).capacity() ==> r is Ok
                && final(self).text() == old(self).text() + s.spec_bytes(),
    {
        let bytes = s.as_bytes();
        let len = bytes.len();
        if len > self.buf.len() - self.pos {
            return Err(());
        }
        let ghost start = self.pos;
        let cap = self.buf.len();
        let mut i: usize = 0;
        while i < len
            invariant
                bytes@ == s.spec_bytes(),
                len == bytes@.len(),
                i <= len,
                start + len <= self.buf@.len(),
                cap == self.buf@.len(),
                self.buf@.len() == old(self).buf@.len(),
                self.pos == start,
                start == old(self).pos,
                self.buf@.subrange(0, start as int) == old(self).buf@.subrange(0, start as int),
                self.buf@.subrange(start as int, start + i) == bytes@.subrange(0, i as int),
            decreases len - i,
        {
            self.buf.set(self.pos + i, bytes[i]);
            i = i + 1;
            assert(self.buf@.subrange(start as int, start + i) == bytes@.subrange(0, i as int));
        }
        self.pos = self.pos + len;
        assert(self.text() =~= old(self).text() + s.spec_bytes()) by {
            assert(self.buf@.subrange(0, start as int) == old(self).text());
            assert(bytes@.subrange(0, len as int) == bytes@);
        }
        Ok(())
    }

    /// The text written so far.
    pub fn as_bytes(&self) -> (r: Vec<u8>)
        requires
            self.wf(),
        ensures
            r@ == self.text(),
    {
        crate::library::text::copy_range(self.buf.as_slice(), 0, self.pos)
    }
}

} // verus!
