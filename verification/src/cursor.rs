use vstd::prelude::*;

use crate::error::{Error, IoError, Result};

verus! {

/// `buf` after writing `bytes` at `pos`: the bytes there are overwritten, and
/// the buffer grows where `bytes` runs past its end.
pub open spec fn overwrite(buf: Seq<u8>, pos: int, bytes: Seq<u8>) -> Seq<u8> {
    if pos + bytes.len() < buf.len() {
        buf.take(pos) + bytes + buf.skip(pos + bytes.len())
    } else {
        buf.take(pos) + bytes
    }
}

/// What a cursor holds: its bytes and its position in them.
pub struct CursorView {
    pub bytes: Seq<u8>,
    pub pos: nat,
}

impl CursorView {
    /// The cursor after writing `b` at its position.
    pub open spec fn pushed(self, b: Seq<u8>) -> CursorView {
        CursorView { bytes: overwrite(self.bytes, self.pos as int, b), pos: self.pos + b.len() }
    }

    /// The bytes that can still be popped: those before the position.
    pub open spec fn readable(self) -> Seq<u8> {
        self.bytes.take(self.pos as int)
    }

    /// The cursor after popping `n` bytes.
    pub open spec fn popped(self, n: nat) -> CursorView {
        CursorView { bytes: self.bytes, pos: (self.pos - n) as nat }
    }

    pub open spec fn wf(self) -> bool {
        self.pos <= self.bytes.len()
    }
}

/// Pushing `a` and then `b` writes what pushing `a + b` writes.
pub proof fn lemma_pushed_pushed(c: CursorView, a: Seq<u8>, b: Seq<u8>)
    requires
        c.wf(),
    ensures
        c.pushed(a).wf(),
        c.pushed(a).pushed(b) == c.pushed(a + b),
{
    let p = c.pos as int;
    assert(c.pushed(a).bytes.take(p + a.len()) =~= c.bytes.take(p) + a);
    assert(c.pushed(a).pushed(b).bytes =~= c.pushed(a + b).bytes);
}

/// The bytes that can be popped after a push are those that could be popped
/// before it, followed by the bytes pushed; popping them again restores the
/// bytes that could be popped before.
pub proof fn lemma_pushed_readable(c: CursorView, b: Seq<u8>)
    requires
        c.wf(),
    ensures
        c.pushed(b).wf(),
        c.pushed(b).readable() == c.readable() + b,
        c.pushed(b).popped(b.len()).readable() == c.readable(),
{
    assert(c.pushed(b).readable() =~= c.readable() + b);
    assert(c.pushed(b).popped(b.len()).readable() =~= c.readable());
}

/// Popping `m` and then `k` bytes pops `m + k` bytes; the readable bytes shrink from the end.
pub proof fn lemma_popped(c: CursorView, m: nat)
    requires
        c.wf(),
        m <= c.pos,
    ensures
        c.popped(m).wf(),
        c.popped(m).readable() == c.readable().take(c.readable().len() - m),
        forall|k: nat| #[trigger] c.popped(m).popped(k) == c.popped(m + k),
{
    assert(c.popped(m).readable() =~= c.readable().take(c.readable().len() - m));
}

/// A byte buffer with a position. Values are pushed forward at the position
/// and popped back off the bytes before it, last in first out.
pub struct SquashCursor {
    buf: Vec<u8>,
    pos: usize,
}

impl View for SquashCursor {
    type V = CursorView;

    closed spec fn view(&self) -> CursorView {
        CursorView { bytes: self.buf@, pos: self.pos as nat }
    }
}

impl SquashCursor {
    #[verifier::type_invariant]
    spec fn inv(self) -> bool {
        self.pos <= self.buf.len()
    }

    /// An empty cursor.
    pub fn new() -> (c: SquashCursor)
        ensures
            c@.bytes == Seq::<u8>::empty(),
            c@.pos == 0,
            c@.wf(),
    {
        SquashCursor { buf: Vec::new(), pos: 0 }
    }

    /// A cursor over `data`, positioned at its start.
    pub fn from_vec(data: Vec<u8>) -> (c: SquashCursor)
        ensures
            c@.bytes == data@,
            c@.pos == 0,
            c@.wf(),
    {
        SquashCursor { buf: data, pos: 0 }
    }

    /// The cursor's bytes.
    pub fn into_inner(self) -> (v: Vec<u8>)
        ensures
            v@ == self@.bytes,
    {
        self.buf
    }

    /// The cursor's bytes, borrowed.
    pub fn as_slice(&self) -> (r: &[u8])
        ensures
            r@ == self@.bytes,
    {
        self.buf.as_slice()
    }

    /// The cursor's position.
    pub fn position(&self) -> (p: usize)
        ensures
            p == self@.pos,
            self@.wf(),
    {
        proof { use_type_invariant(self); }
        self.pos
    }

    /// Moves the position to the end of the bytes, and returns it.
    pub fn seek_end(&mut self) -> (r: Result<u64>)
        ensures
            final(self)@.bytes == old(self)@.bytes,
            final(self)@.pos == old(self)@.bytes.len(),
            r matches Ok(p) && p == old(self)@.bytes.len(),
            old(self)@.wf(),
    {
        proof { use_type_invariant(&*self); }
        self.pos = self.buf.len();
        Ok(self.pos as u64)
    }

    /// The number of bytes that can still be popped: the position.
    pub fn remaining(&mut self) -> (r: Result<u64>)
        ensures
            final(self)@ == old(self)@,
            r matches Ok(p) && p == old(self)@.pos,
            old(self)@.wf(),
    {
        proof { use_type_invariant(&*self); }
        Ok(self.pos as u64)
    }

    /// Grows the bytes with zeros so that `size` bytes fit after the position.
    pub fn realloc(&mut self, size: u64)
        requires
            old(self)@.pos + size <= usize::MAX,
        ensures
            old(self)@.wf(),
            final(self)@.wf(),
            final(self)@.pos == old(self)@.pos,
            old(self)@.pos + size <= old(self)@.bytes.len() ==> final(self)@.bytes == old(self)@.bytes,
            old(self)@.pos + size > old(self)@.bytes.len() ==> final(self)@.bytes == old(self)@.bytes
                + Seq::new((old(self)@.pos + size - old(self)@.bytes.len()) as nat, |i: int| 0u8),
    {
        proof { use_type_invariant(&*self); }
        let target = self.pos + size as usize;
        let pos = self.pos;
        self.pos = 0;
        let mut buf: Vec<u8> = Vec::new();
        std::mem::swap(&mut buf, &mut self.buf);
        let ghost start = buf@;
        assert(start + Seq::new(0, |i: int| 0u8) =~= start);
        while buf.len() < target
            invariant
                start.len() <= buf.len(),
                start.len() < target ==> buf.len() <= target,
                start.len() >= target ==> buf.len() == start.len(),
                buf@ == start + Seq::new((buf.len() - start.len()) as nat, |i: int| 0u8),
            decreases target - buf.len(),
        {
            buf.push(0u8);
            assert(buf@ =~= start + Seq::new((buf.len() - start.len()) as nat, |i: int| 0u8));
        }
        std::mem::swap(&mut buf, &mut self.buf);
        self.pos = pos;
        assert(start + Seq::new(0, |i: int| 0u8) =~= start);
    }

    /// Writes `bytes` at the position and moves past them; returns how many
    /// were written. Fails, writing nothing, where the position would pass
    /// `usize::MAX`.
    pub fn write(&mut self, bytes: &[u8]) -> (r: Result<usize>)
        ensures
            old(self)@.wf(),
            final(self)@.wf(),
            match r {
                Ok(n) => {
                    &&& old(self)@.pos + bytes@.len() <= usize::MAX
                    &&& final(self)@ == old(self)@.pushed(bytes@)
                    &&& n == bytes@.len()
                },
                Err(e) => {
                    &&& old(self)@.pos + bytes@.len() > usize::MAX
                    &&& e == Error::Io(IoError::PositionOverflow)
                    &&& final(self)@ == old(self)@
                },
            },
    {
        proof { use_type_invariant(&*self); }
        if bytes.len() > usize::MAX - self.pos {
            return Err(Error::Io(IoError::PositionOverflow));
        }
        let ghost start = self@;
        assert(bytes@.take(0) =~= Seq::<u8>::empty());
        assert(overwrite(start.bytes, start.pos as int, Seq::<u8>::empty()) =~= start.bytes);
        let mut pos = self.pos;
        self.pos = 0;
        let mut buf: Vec<u8> = Vec::new();
        std::mem::swap(&mut buf, &mut self.buf);
        let mut i: usize = 0;
        while i < bytes.len()
            invariant
                0 <= i <= bytes@.len(),
                start.wf(),
                pos <= buf.len(),
                pos == start.pos + i,
                start.pos + bytes@.len() <= usize::MAX,
                (CursorView { bytes: buf@, pos: pos as nat }) == start.pushed(bytes@.take(i as int)),
            decreases bytes@.len() - i,
        {
            let b = bytes[i];
            if pos < buf.len() {
                buf.set(pos, b);
            } else {
                buf.push(b);
            }
            pos = pos + 1;
            i = i + 1;
            assert(bytes@.take(i as int) == bytes@.take(i - 1) + seq![b]);
            assert(buf@ =~= overwrite(start.bytes, start.pos as int, bytes@.take(i as int)));
        }
        std::mem::swap(&mut buf, &mut self.buf);
        self.pos = pos;
        assert(bytes@.take(i as int) == bytes@);
        Ok(i)
    }

    /// Pops `buf.len()` bytes off the end of the readable bytes into `buf`,
    /// in the order in which they stand.
    pub fn pop_read(&mut self, buf: &mut [u8]) -> (r: Result<usize>)
        ensures
            old(self)@.wf(),
            final(self)@.wf(),
            final(buf)@.len() == old(buf)@.len(),
            match r {
                Ok(n) => {
                    &&& n == old(buf)@.len()
                    &&& old(buf)@.len() <= old(self)@.pos
                    &&& final(buf)@ == old(self)@.readable().skip(old(self)@.pos - old(buf)@.len())
                    &&& final(self)@ == old(self)@.popped(old(buf)@.len())
                },
                Err(e) => {
                    &&& old(buf)@.len() > old(self)@.pos
                    &&& e == Error::Io(IoError::SeekBeforeStart)
                    &&& final(self)@ == old(self)@
                },
            },
    {
        proof { use_type_invariant(&*self); }
        let n = buf.len();
        if n > self.pos {
            return Err(Error::Io(IoError::SeekBeforeStart));
        }
        let start = self.pos - n;
        let mut i: usize = 0;
        while i < n
            invariant
                0 <= i <= n,
                n == buf@.len(),
                start + n == self.pos <= self.buf.len(),
                forall|j: int| 0 <= j < i ==> buf@[j] == self.buf@[start + j],
            decreases n - i,
        {
            buf[i] = self.buf[start + i];
            i = i + 1;
        }
        self.pos = start;
        assert(buf@ =~= old(self)@.readable().skip(old(self)@.pos - n));
        Ok(n)
    }
}

} // verus!
