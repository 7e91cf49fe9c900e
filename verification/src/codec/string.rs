use vstd::prelude::*;
use vstd::string::StringSliceAdditionalSpecFns;
use vstd::utf8::{decode_utf8, encode_utf8, encode_utf8_valid_utf8, is_char_boundary, valid_utf8, valid_utf8_concat, valid_utf8_split};

use crate::codec::buffer::{zeros, lemma_zeros_valid_utf8};
use crate::codec::SerDes;
use crate::cursor::{lemma_pushed_pushed, SquashCursor};
use crate::error::{Error, IoError, Result};
use crate::num::vlq::Vlq;
use crate::object::{string_from_utf8, SquashObject};

verus! {

/// Variable-length string: its UTF-8 bytes, then their count as a VLQ.
#[derive(Clone, Copy, Debug, Default, PartialEq, Eq)]
pub struct Str;

impl SerDes for Str {
    type Value = String;

    open spec fn spec_valid(&self) -> bool {
        true
    }

    open spec fn spec_encode(&self, v: String) -> Option<Seq<u8>> {
        String::spec_encode(v@)
    }

    open spec fn spec_decode(&self, bytes: Seq<u8>) -> Option<(Seq<char>, nat)> {
        String::spec_decode(bytes)
    }

    open spec fn spec_readback(&self, v: String) -> Seq<char> {
        v@
    }

    open spec fn spec_roundtrips(&self, v: String, prefix_len: nat) -> bool {
        true
    }

    proof fn lemma_decode_len(&self, bytes: Seq<u8>) {
        String::lemma_decode_len(bytes);
    }

    proof fn lemma_roundtrip(&self, v: String, prefix: Seq<u8>) {
        String::lemma_roundtrip(v@, prefix);
    }

    fn ser(&self, cursor: &mut SquashCursor, value: &String) -> Result<usize> {
        let _ = cursor.position();
        let ghost start = cursor@;
        let bytes = value.as_str().as_bytes();
        let ghost raw = encode_utf8(value@);
        let mut count = match cursor.write(bytes) {
            Ok(n) => n,
            Err(e) => {
                return Err(e);
            },
        };
        let r = cursor.push(Vlq(bytes.len() as u64));
        proof {
            lemma_pushed_pushed(start, raw, Vlq::spec_encode(raw.len() as u64)->0);
        }
        match r {
            Ok(n) => {
                count = count + n;
                Ok(count)
            },
            Err(e) => Err(e),
        }
    }

    fn des(&self, cursor: &mut SquashCursor) -> Result<String> {
        cursor.pop::<String>()
    }
}

/// The largest character boundary of `raw` at or below `k`.
pub open spec fn boundary_below(raw: Seq<u8>, k: nat) -> nat
    decreases k,
{
    if k == 0 || is_char_boundary(raw, k as int) {
        k
    } else {
        boundary_below(raw, (k - 1) as nat)
    }
}

/// The `n` bytes a string is written as by `StrN(n)`: its UTF-8 bytes, cut
/// back to the last character boundary that fits, then zeros.
pub open spec fn strn_bytes(v: Seq<char>, n: nat) -> Seq<u8> {
    let raw = encode_utf8(v);
    let k = boundary_below(raw, if raw.len() < n { raw.len() } else { n });
    raw.take(k as int) + zeros((n - k) as nat)
}

proof fn lemma_boundary_below(raw: Seq<u8>, k: nat)
    ensures
        boundary_below(raw, k) <= k,
        boundary_below(raw, k) == 0 || is_char_boundary(raw, boundary_below(raw, k) as int),
    decreases k,
{
    if k > 0 && !is_char_boundary(raw, k as int) {
        lemma_boundary_below(raw, (k - 1) as nat);
    }
}

proof fn lemma_strn_bytes(v: Seq<char>, n: nat)
    ensures
        strn_bytes(v, n).len() == n,
        valid_utf8(strn_bytes(v, n)),
{
    let raw = encode_utf8(v);
    let m = if raw.len() < n { raw.len() } else { n };
    let k = boundary_below(raw, m);
    lemma_boundary_below(raw, m);
    encode_utf8_valid_utf8(v);
    if k == 0 {
        assert(raw.subrange(0, 0) =~= Seq::<u8>::empty());
    }
    assert(is_char_boundary(raw, k as int));
    valid_utf8_split(raw, k as int);
    assert(raw.take(k as int) =~= raw.subrange(0, k as int));
    lemma_zeros_valid_utf8((n - k) as nat);
    valid_utf8_concat(raw.take(k as int), zeros((n - k) as nat));
}

/// Fixed-length string: exactly `n` bytes, no length. A longer string is cut
/// back to the last character boundary that fits; the rest is zeros.
#[derive(Clone, Copy, Debug, Default, PartialEq, Eq)]
pub struct StrN(pub usize);

impl SerDes for StrN {
    type Value = String;

    open spec fn spec_valid(&self) -> bool {
        true
    }

    open spec fn spec_encode(&self, v: String) -> Option<Seq<u8>> {
        Some(strn_bytes(v@, self.0 as nat))
    }

    open spec fn spec_decode(&self, bytes: Seq<u8>) -> Option<(Seq<char>, nat)> {
        if self.0 <= bytes.len() {
            let raw = bytes.skip(bytes.len() - self.0);
            if valid_utf8(raw) {
                Some((decode_utf8(raw), self.0 as nat))
            } else {
                None
            }
        } else {
            None
        }
    }

    open spec fn spec_readback(&self, v: String) -> Seq<char> {
        decode_utf8(strn_bytes(v@, self.0 as nat))
    }

    open spec fn spec_roundtrips(&self, v: String, prefix_len: nat) -> bool {
        true
    }

    proof fn lemma_decode_len(&self, bytes: Seq<u8>) {
    }

    proof fn lemma_roundtrip(&self, v: String, prefix: Seq<u8>) {
        let e = strn_bytes(v@, self.0 as nat);
        lemma_strn_bytes(v@, self.0 as nat);
        let bytes = prefix + e;
        assert(bytes.skip(bytes.len() - self.0) =~= e);
    }

    fn ser(&self, cursor: &mut SquashCursor, value: &String) -> Result<usize> {
        let n = self.0;
        let s = value.as_str();
        let bytes = s.as_bytes();
        let ghost raw = encode_utf8(value@);
        let mut k = if bytes.len() < n {
            bytes.len()
        } else {
            n
        };
        let ghost m = k as nat;
        while k > 0 && !s.is_char_boundary(k)
            invariant
                boundary_below(raw, k as nat) == boundary_below(raw, m),
                raw == s.spec_bytes(),
                raw == bytes@,
                k <= bytes@.len(),
                k <= n,
                m == (if raw.len() < n { raw.len() } else { n as nat }),
            decreases k,
        {
            k = k - 1;
        }
        let mut buf: Vec<u8> = Vec::new();
        let mut i: usize = 0;
        while i < n
            invariant
                0 <= i <= n,
                k <= n,
                k <= bytes@.len(),
                raw == bytes@,
                buf@ == (raw.take(k as int) + zeros((n - k) as nat)).take(i as int),
            decreases n - i,
        {
            let b = if i < k {
                bytes[i]
            } else {
                0u8
            };
            buf.push(b);
            i = i + 1;
            assert(buf@ =~= (raw.take(k as int) + zeros((n - k) as nat)).take(i as int));
        }
        assert(buf@ =~= strn_bytes(value@, n as nat));
        cursor.write(buf.as_slice())
    }

    fn des(&self, cursor: &mut SquashCursor) -> Result<String> {
        let n = self.0;
        if n > cursor.position() {
            return Err(Error::Io(IoError::SeekBeforeStart));
        }
        let mut buf: Vec<u8> = vec![0u8; n];
        match cursor.pop_read(buf.as_mut_slice()) {
            Ok(_) => {},
            Err(e) => {
                return Err(e);
            },
        }
        match string_from_utf8(buf) {
            Ok(s) => Ok(s),
            Err(e) => Err(Error::Utf8(e)),
        }
    }
}

} // verus!
