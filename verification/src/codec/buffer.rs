use vstd::prelude::*;
use vstd::utf8::valid_utf8;

use crate::codec::SerDes;
use crate::cursor::{lemma_popped, lemma_pushed_pushed, SquashCursor};
use crate::error::{Error, IoError, Result};
use crate::num::vlq::{lemma_vlq_fewest, vlq_encode, Vlq};
use crate::object::SquashObject;

verus! {

/// `n` zero bytes.
pub open spec fn zeros(n: nat) -> Seq<u8> {
    Seq::new(n, |i: int| 0u8)
}

/// `s` cut to `n` bytes, or padded with zeros to `n` bytes.
pub open spec fn fit_bytes(s: Seq<u8>, n: nat) -> Seq<u8> {
    if s.len() >= n {
        s.take(n as int)
    } else {
        s + zeros((n - s.len()) as nat)
    }
}

/// Zero bytes are valid UTF-8 (each one is the character `'\0'`).
pub proof fn lemma_zeros_valid_utf8(n: nat)
    ensures
        valid_utf8(zeros(n)),
    decreases n,
{
    if n > 0 {
        lemma_zeros_valid_utf8((n - 1) as nat);
        let z = zeros(n);
        assert(z[0] == 0u8);
        assert(z.subrange(1, n as int) =~= zeros((n - 1) as nat));
    }
}

/// Variable-length buffer: the raw bytes, then their count as a VLQ. The
/// count comes off first, then the block of bytes before it, in order.
#[derive(Clone, Copy, Debug, Default, PartialEq, Eq)]
pub struct Buf;

impl SerDes for Buf {
    type Value = Vec<u8>;

    open spec fn spec_valid(&self) -> bool {
        true
    }

    open spec fn spec_encode(&self, v: Vec<u8>) -> Option<Seq<u8>> {
        if v@.len() > u64::MAX {
            None
        } else {
            match Vlq::spec_encode(v@.len() as u64) {
                Some(h) => Some(v@ + h),
                None => None,
            }
        }
    }

    open spec fn spec_decode(&self, bytes: Seq<u8>) -> Option<(Seq<u8>, nat)> {
        match Vlq::spec_decode(bytes) {
            Some((n, k)) => {
                let rest = bytes.take(bytes.len() - k);
                if n > rest.len() {
                    None
                } else {
                    Some((rest.skip(rest.len() - n), k + n as nat))
                }
            },
            None => None,
        }
    }

    open spec fn spec_readback(&self, v: Vec<u8>) -> Seq<u8> {
        v@
    }

    open spec fn spec_roundtrips(&self, v: Vec<u8>, prefix_len: nat) -> bool {
        true
    }

    proof fn lemma_decode_len(&self, bytes: Seq<u8>) {
        Vlq::lemma_decode_len(bytes);
    }

    proof fn lemma_roundtrip(&self, v: Vec<u8>, prefix: Seq<u8>) {
        let s = v@;
        let h = Vlq::spec_encode(s.len() as u64)->0;
        Vlq::lemma_roundtrip(s.len() as u64, prefix + s);
        let bytes = prefix + (s + h);
        assert(bytes == (prefix + s) + h);
        let rest = bytes.take(bytes.len() - h.len());
        assert(rest =~= prefix + s);
        assert(rest.skip(rest.len() - s.len()) =~= s);
    }

    fn ser(&self, cursor: &mut SquashCursor, value: &Vec<u8>) -> Result<usize> {
        let _ = cursor.position();
        let ghost start = cursor@;
        let mut count = match cursor.write(value.as_slice()) {
            Ok(n) => n,
            Err(e) => {
                return Err(e);
            },
        };
        let r = cursor.push(Vlq(value.len() as u64));
        proof {
            lemma_pushed_pushed(start, value@, Vlq::spec_encode(value@.len() as u64)->0);
        }
        match r {
            Ok(n) => {
                count = count + n;
                Ok(count)
            },
            Err(e) => Err(e),
        }
    }

    fn des(&self, cursor: &mut SquashCursor) -> Result<Vec<u8>> {
        let _ = cursor.position();
        let ghost start = cursor@;
        let len = match cursor.pop::<Vlq>() {
            Ok(v) => v.0,
            Err(e) => {
                return Err(e);
            },
        };
        proof {
            let k = Vlq::spec_decode(start.readable()).unwrap().1;
            Vlq::lemma_decode_len(start.readable());
            lemma_popped(start, k);
        }
        let pos = cursor.position();
        if len > pos as u64 {
            return Err(Error::Io(IoError::SeekBeforeStart));
        }
        let n = len as usize;
        let mut buf: Vec<u8> = vec![0u8; n];
        match cursor.pop_read(buf.as_mut_slice()) {
            Ok(_) => {},
            Err(e) => {
                return Err(e);
            },
        }
        proof {
            let k = Vlq::spec_decode(start.readable()).unwrap().1;
            lemma_popped(start, k);
            assert(buf.deep_view() =~= buf@);
        }
        Ok(buf)
    }
}

/// Fixed-length buffer: exactly `n` raw bytes, no length; a longer value is
/// cut, a shorter one padded with zeros.
#[derive(Clone, Copy, Debug, Default, PartialEq, Eq)]
pub struct BufN(pub usize);

impl SerDes for BufN {
    type Value = Vec<u8>;

    open spec fn spec_valid(&self) -> bool {
        true
    }

    open spec fn spec_encode(&self, v: Vec<u8>) -> Option<Seq<u8>> {
        Some(fit_bytes(v@, self.0 as nat))
    }

    open spec fn spec_decode(&self, bytes: Seq<u8>) -> Option<(Seq<u8>, nat)> {
        if self.0 <= bytes.len() {
            Some((bytes.skip(bytes.len() - self.0), self.0 as nat))
        } else {
            None
        }
    }

    open spec fn spec_readback(&self, v: Vec<u8>) -> Seq<u8> {
        fit_bytes(v@, self.0 as nat)
    }

    open spec fn spec_roundtrips(&self, v: Vec<u8>, prefix_len: nat) -> bool {
        true
    }

    proof fn lemma_decode_len(&self, bytes: Seq<u8>) {
    }

    proof fn lemma_roundtrip(&self, v: Vec<u8>, prefix: Seq<u8>) {
        let e = fit_bytes(v@, self.0 as nat);
        let bytes = prefix + e;
        assert(bytes.skip(bytes.len() - self.0) =~= e);
    }

    fn ser(&self, cursor: &mut SquashCursor, value: &Vec<u8>) -> Result<usize> {
        let n = self.0;
        let k = if value.len() < n {
            value.len()
        } else {
            n
        };
        let mut buf: Vec<u8> = Vec::new();
        let mut i: usize = 0;
        while i < n
            invariant
                0 <= i <= n,
                k <= n,
                k <= value@.len(),
                k == value@.len() || k == n,
                buf@ == fit_bytes(value@, n as nat).take(i as int),
            decreases n - i,
        {
            let b = if i < k {
                value[i]
            } else {
                0u8
            };
            buf.push(b);
            i = i + 1;
            assert(buf@ =~= fit_bytes(value@, n as nat).take(i as int));
        }
        assert(buf@ =~= fit_bytes(value@, n as nat));
        cursor.write(buf.as_slice())
    }

    fn des(&self, cursor: &mut SquashCursor) -> Result<Vec<u8>> {
        let n = self.0;
        if n > cursor.position() {
            return Err(Error::Io(IoError::SeekBeforeStart));
        }
        let mut buf: Vec<u8> = vec![0u8; n];
        match cursor.pop_read(buf.as_mut_slice()) {
            Ok(_) => {},
            Err(e) => {
                return Err(e);
            },
        }
        proof {
            assert(buf.deep_view() =~= buf@);
        }
        Ok(buf)
    }
}

/// A buffer is its bytes as they are, then their count as a VLQ.
pub proof fn lemma_buf_layout(v: Vec<u8>)
    ensures
        v@.len() < 0x100_0000_0000_0000 ==> Buf.spec_encode(v) == Some(v@ + vlq_encode(v@.len() as u64)->0),
        v@.len() >= 0x100_0000_0000_0000 ==> Buf.spec_encode(v) is None,
{
    lemma_vlq_fewest(v@.len() as u64);
}

/// A fixed-length buffer of `n` is the first `n` bytes of the value, with
/// zeros after them where the value is shorter.
pub proof fn lemma_buf_n_layout(b: BufN, v: Vec<u8>)
    ensures
        b.spec_encode(v) matches Some(e) && e.len() == b.0 && forall|i: int| 0 <= i < b.0 ==> #[trigger] e[i] == (if i
            < v@.len() {
            v@[i]
        } else {
            0u8
        }),
{
}

} // verus!
