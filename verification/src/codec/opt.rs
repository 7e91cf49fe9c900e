use vstd::prelude::*;

use crate::codec::SerDes;
use crate::cursor::{lemma_popped, lemma_pushed_pushed, SquashCursor};
use crate::error::Result;
use crate::object::lemma_u8_spec;

verus! {

/// Optional value: `None` is the byte `0x00`; `Some` is its payload followed by `0x01`.
#[derive(Clone, Copy, Debug, Default)]
pub struct Opt<S>(pub S);

impl<S: SerDes> SerDes for Opt<S> {
    type Value = Option<S::Value>;

    open spec fn spec_valid(&self) -> bool {
        self.0.spec_valid()
    }

    open spec fn spec_encode(&self, v: Option<S::Value>) -> Option<Seq<u8>> {
        match v {
            Some(x) => match self.0.spec_encode(x) {
                Some(e) => Some(e + seq![1u8]),
                None => None,
            },
            None => Some(seq![0u8]),
        }
    }

    /// The flag byte comes off first: `1` means a payload before it, any other byte means `None`.
    open spec fn spec_decode(&self, bytes: Seq<u8>) -> Option<(Option<<S::Value as DeepView>::V>, nat)> {
        if bytes.len() == 0 {
            None
        } else if bytes.last() == 1 {
            match self.0.spec_decode(bytes.drop_last()) {
                Some((x, m)) => Some((Some(x), m + 1)),
                None => None,
            }
        } else {
            Some((None, 1))
        }
    }

    open spec fn spec_readback(&self, v: Option<S::Value>) -> Option<<S::Value as DeepView>::V> {
        match v {
            Some(x) => Some(self.0.spec_readback(x)),
            None => None,
        }
    }

    open spec fn spec_roundtrips(&self, v: Option<S::Value>, prefix_len: nat) -> bool {
        match v {
            Some(x) => self.0.spec_roundtrips(x, prefix_len),
            None => true,
        }
    }

    proof fn lemma_decode_len(&self, bytes: Seq<u8>) {
        if bytes.len() > 0 {
            self.0.lemma_decode_len(bytes.drop_last());
        }
    }

    proof fn lemma_roundtrip(&self, v: Option<S::Value>, prefix: Seq<u8>) {
        match v {
            Some(x) => {
                let e = self.0.spec_encode(x)->0;
                self.0.lemma_roundtrip(x, prefix);
                assert((prefix + (e + seq![1u8])).drop_last() =~= prefix + e);
            },
            None => {},
        }
    }

    fn ser(&self, cursor: &mut SquashCursor, value: &Option<S::Value>) -> Result<usize> {
        let _ = cursor.position();
        let ghost start = cursor@;
        proof {
            lemma_u8_spec(1, Seq::empty());
            lemma_u8_spec(0, Seq::empty());
        }
        match value {
            Some(x) => {
                let n = match self.0.ser(cursor, x) {
                    Ok(n) => n,
                    Err(e) => {
                        return Err(e);
                    },
                };
                let _ = cursor.position();
                let r = cursor.push(1_u8);
                proof {
                    if self.spec_valid() {
                        lemma_pushed_pushed(start, self.0.spec_encode(*x)->0, seq![1u8]);
                    }
                }
                let _ = cursor.position();
                match r {
                    Ok(m) => Ok(n + m),
                    Err(e) => Err(e),
                }
            },
            None => cursor.push(0_u8),
        }
    }

    fn des(&self, cursor: &mut SquashCursor) -> Result<Option<S::Value>> {
        let _ = cursor.position();
        let ghost start = cursor@;
        proof {
            lemma_u8_spec(0, start.readable());
        }
        let flag = match cursor.pop::<u8>() {
            Ok(b) => b,
            Err(e) => {
                return Err(e);
            },
        };
        if flag == 1 {
            proof {
                lemma_popped(start, 1);
                assert(start.readable().take(start.readable().len() - 1) =~= start.readable().drop_last());
            }
            match self.0.des(cursor) {
                Ok(x) => Ok(Some(x)),
                Err(e) => Err(e),
            }
        } else {
            Ok(None)
        }
    }
}

/// `None` is the one byte `0`; `Some(x)` is the bytes of `x`, then the byte
/// `1`.
pub proof fn lemma_opt_layout<S: SerDes>(o: Opt<S>, v: Option<S::Value>)
    ensures
        v is None ==> o.spec_encode(v) == Some(seq![0u8]),
        v matches Some(x) ==> o.spec_encode(v) == (match o.0.spec_encode(x) {
            Some(e) => Some(e.push(1u8)),
            None => None,
        }),
{
    if let Some(x) = v {
        if let Some(e) = o.0.spec_encode(x) {
            assert(e + seq![1u8] =~= e.push(1u8));
        }
    }
}

} // verus!
