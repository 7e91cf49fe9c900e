use vstd::prelude::*;

use crate::codec::SerDes;
use crate::cursor::{lemma_popped, lemma_pushed_pushed, SquashCursor};
use crate::error::Result;

verus! {

/// A pair: the first element is pushed first, so it is popped last.
impl<A: SerDes, B: SerDes> SerDes for (A, B) {
    type Value = (A::Value, B::Value);

    open spec fn spec_valid(&self) -> bool {
        self.0.spec_valid() && self.1.spec_valid()
    }

    open spec fn spec_encode(&self, v: (A::Value, B::Value)) -> Option<Seq<u8>> {
        match (self.0.spec_encode(v.0), self.1.spec_encode(v.1)) {
            (Some(e0), Some(e1)) => Some(e0 + e1),
            _ => None,
        }
    }

    open spec fn spec_decode(&self, bytes: Seq<u8>) -> Option<(<(A::Value, B::Value) as DeepView>::V, nat)> {
        match self.1.spec_decode(bytes) {
            Some((x1, n1)) => match self.0.spec_decode(bytes.take(bytes.len() - n1)) {
                Some((x0, n0)) => Some(((x0, x1), n0 + n1)),
                None => None,
            },
            None => None,
        }
    }

    open spec fn spec_readback(&self, v: (A::Value, B::Value)) -> <(A::Value, B::Value) as DeepView>::V {
        (self.0.spec_readback(v.0), self.1.spec_readback(v.1))
    }

    open spec fn spec_roundtrips(&self, v: (A::Value, B::Value), prefix_len: nat) -> bool {
        &&& self.0.spec_roundtrips(v.0, prefix_len)
        &&& self.1.spec_roundtrips(v.1, prefix_len + self.0.spec_encode(v.0)->0.len())
    }

    proof fn lemma_decode_len(&self, bytes: Seq<u8>) {
        self.1.lemma_decode_len(bytes);
        if let Some((x1, n1)) = self.1.spec_decode(bytes) {
            self.0.lemma_decode_len(bytes.take(bytes.len() - n1));
        }
    }

    proof fn lemma_roundtrip(&self, v: (A::Value, B::Value), prefix: Seq<u8>) {
        let e0 = self.0.spec_encode(v.0)->0;
        let e1 = self.1.spec_encode(v.1)->0;
        self.0.lemma_roundtrip(v.0, prefix);
        self.1.lemma_roundtrip(v.1, prefix + e0);
        let all = prefix + (e0 + e1);
        assert(all =~= (prefix + e0) + e1);
        assert(all.take(all.len() - e1.len()) =~= prefix + e0);
    }

    fn ser(&self, cursor: &mut SquashCursor, value: &(A::Value, B::Value)) -> Result<usize> {
        let _ = cursor.position();
        let ghost start = cursor@;
        let n0 = match self.0.ser(cursor, &value.0) {
            Ok(n) => n,
            Err(e) => {
                return Err(e);
            },
        };
        let _ = cursor.position();
        let n1 = match self.1.ser(cursor, &value.1) {
            Ok(n) => n,
            Err(e) => {
                return Err(e);
            },
        };
        proof {
            if self.spec_valid() {
                lemma_pushed_pushed(start, self.0.spec_encode(value.0)->0, self.1.spec_encode(value.1)->0);
            }
        }
        let _ = cursor.position();
        Ok(n0 + n1)
    }

    fn des(&self, cursor: &mut SquashCursor) -> Result<(A::Value, B::Value)> {
        let _ = cursor.position();
        let ghost start = cursor@;
        let x1 = match self.1.des(cursor) {
            Ok(x) => x,
            Err(e) => {
                return Err(e);
            },
        };
        proof {
            if self.spec_valid() {
                self.1.lemma_decode_len(start.readable());
                lemma_popped(start, self.1.spec_decode(start.readable()).unwrap().1);
            }
        }
        let x0 = match self.0.des(cursor) {
            Ok(x) => x,
            Err(e) => {
                return Err(e);
            },
        };
        Ok((x0, x1))
    }
}

/// A tuple of 3 codecs: the first element is pushed first, so it is popped last.
impl<A: SerDes, B: SerDes, C: SerDes> SerDes for (A, B, C) {
    type Value = (A::Value, B::Value, C::Value);

    open spec fn spec_valid(&self) -> bool {
        self.0.spec_valid() && self.1.spec_valid() && self.2.spec_valid()
    }

    open spec fn spec_encode(&self, v: (A::Value, B::Value, C::Value)) -> Option<Seq<u8>> {
        match (self.0.spec_encode(v.0), self.1.spec_encode(v.1), self.2.spec_encode(v.2)) {
            (Some(e0), Some(e1), Some(e2)) => Some(e0 + e1 + e2),
            _ => None,
        }
    }

    open spec fn spec_decode(&self, bytes: Seq<u8>) -> Option<(<(A::Value, B::Value, C::Value) as DeepView>::V, nat)> {
        let b2 = bytes;
        match self.2.spec_decode(b2) {
            Some((x2, n2)) => {
                let b1 = b2.take(b2.len() - n2);
                match self.1.spec_decode(b1) {
                    Some((x1, n1)) => {
                        let b0 = b1.take(b1.len() - n1);
                        match self.0.spec_decode(b0) {
                            Some((x0, n0)) => {
                                Some(((x0, x1, x2), n0 + n1 + n2))
                            },
                            None => None,
                        }
                    },
                    None => None,
                }
            },
            None => None,
        }
    }

    open spec fn spec_readback(&self, v: (A::Value, B::Value, C::Value)) -> <(A::Value, B::Value, C::Value) as DeepView>::V {
        (self.0.spec_readback(v.0), self.1.spec_readback(v.1), self.2.spec_readback(v.2))
    }

    open spec fn spec_roundtrips(&self, v: (A::Value, B::Value, C::Value), prefix_len: nat) -> bool {
        &&& self.0.spec_roundtrips(v.0, prefix_len)
        &&& self.1.spec_roundtrips(v.1, prefix_len + self.0.spec_encode(v.0)->0.len())
        &&& self.2.spec_roundtrips(v.2, prefix_len + self.0.spec_encode(v.0)->0.len() + self.1.spec_encode(v.1)->0.len())
    }

    proof fn lemma_decode_len(&self, bytes: Seq<u8>) {
        let b2 = bytes;
        self.2.lemma_decode_len(b2);
        if let Some((_, n2)) = self.2.spec_decode(b2) {
            let b1 = b2.take(b2.len() - n2);
            self.1.lemma_decode_len(b1);
            if let Some((_, n1)) = self.1.spec_decode(b1) {
                let b0 = b1.take(b1.len() - n1);
                self.0.lemma_decode_len(b0);
            }
        }
    }

    proof fn lemma_roundtrip(&self, v: (A::Value, B::Value, C::Value), prefix: Seq<u8>) {
        let e0 = self.0.spec_encode(v.0)->0;
        let e1 = self.1.spec_encode(v.1)->0;
        let e2 = self.2.spec_encode(v.2)->0;
        let p0 = prefix;
        let p1 = p0 + e0;
        let p2 = p1 + e1;
        self.0.lemma_roundtrip(v.0, p0);
        self.1.lemma_roundtrip(v.1, p1);
        self.2.lemma_roundtrip(v.2, p2);
        let all = prefix + (e0 + e1 + e2);
        assert(all =~= p2 + e2);
        assert((p2 + e2).take((p2 + e2).len() - e2.len()) =~= p2);
        assert((p1 + e1).take((p1 + e1).len() - e1.len()) =~= p1);
    }

    fn ser(&self, cursor: &mut SquashCursor, value: &(A::Value, B::Value, C::Value)) -> Result<usize> {
        let _ = cursor.position();
        let ghost start = cursor@;
        let n0 = match self.0.ser(cursor, &value.0) {
            Ok(n) => n,
            Err(e) => {
                return Err(e);
            },
        };
        let _ = cursor.position();
        let n1 = match self.1.ser(cursor, &value.1) {
            Ok(n) => n,
            Err(e) => {
                return Err(e);
            },
        };
        let _ = cursor.position();
        let n2 = match self.2.ser(cursor, &value.2) {
            Ok(n) => n,
            Err(e) => {
                return Err(e);
            },
        };
        let _ = cursor.position();
        proof {
            if self.spec_valid() {
                let e0 = self.0.spec_encode(value.0)->0;
                let e1 = self.1.spec_encode(value.1)->0;
                let e2 = self.2.spec_encode(value.2)->0;
                lemma_pushed_pushed(start, e0, e1);
                lemma_pushed_pushed(start, e0 + e1, e2);
            }
        }
        Ok(n0 + n1 + n2)
    }

    fn des(&self, cursor: &mut SquashCursor) -> Result<(A::Value, B::Value, C::Value)> {
        let _ = cursor.position();
        let ghost c2 = cursor@;
        let x2 = match self.2.des(cursor) {
            Ok(x) => x,
            Err(e) => {
                return Err(e);
            },
        };
        proof {
            if self.spec_valid() {
                self.2.lemma_decode_len(c2.readable());
                lemma_popped(c2, self.2.spec_decode(c2.readable()).unwrap().1);
            }
        }
        let ghost c1 = cursor@;
        let x1 = match self.1.des(cursor) {
            Ok(x) => x,
            Err(e) => {
                return Err(e);
            },
        };
        proof {
            if self.spec_valid() {
                self.1.lemma_decode_len(c1.readable());
                lemma_popped(c1, self.1.spec_decode(c1.readable()).unwrap().1);
            }
        }
        let ghost c0 = cursor@;
        let x0 = match self.0.des(cursor) {
            Ok(x) => x,
            Err(e) => {
                return Err(e);
            },
        };
        Ok((x0, x1, x2))
    }
}

/// A tuple of 4 codecs: the first element is pushed first, so it is popped last.
impl<A: SerDes, B: SerDes, C: SerDes, D: SerDes> SerDes for (A, B, C, D) {
    type Value = (A::Value, B::Value, C::Value, D::Value);

    open spec fn spec_valid(&self) -> bool {
        self.0.spec_valid() && self.1.spec_valid() && self.2.spec_valid() && self.3.spec_valid()
    }

    open spec fn spec_encode(&self, v: (A::Value, B::Value, C::Value, D::Value)) -> Option<Seq<u8>> {
        match (self.0.spec_encode(v.0), self.1.spec_encode(v.1), self.2.spec_encode(v.2), self.3.spec_encode(v.3)) {
            (Some(e0), Some(e1), Some(e2), Some(e3)) => Some(e0 + e1 + e2 + e3),
            _ => None,
        }
    }

    open spec fn spec_decode(&self, bytes: Seq<u8>) -> Option<(<(A::Value, B::Value, C::Value, D::Value) as DeepView>::V, nat)> {
        let b3 = bytes;
        match self.3.spec_decode(b3) {
            Some((x3, n3)) => {
                let b2 = b3.take(b3.len() - n3);
                match self.2.spec_decode(b2) {
                    Some((x2, n2)) => {
                        let b1 = b2.take(b2.len() - n2);
                        match self.1.spec_decode(b1) {
                            Some((x1, n1)) => {
                                let b0 = b1.take(b1.len() - n1);
                                match self.0.spec_decode(b0) {
                                    Some((x0, n0)) => {
                                        Some(((x0, x1, x2, x3), n0 + n1 + n2 + n3))
                                    },
                                    None => None,
                                }
                            },
                            None => None,
                        }
                    },
                    None => None,
                }
            },
            None => None,
        }
    }

    open spec fn spec_readback(&self, v: (A::Value, B::Value, C::Value, D::Value)) -> <(A::Value, B::Value, C::Value, D::Value) as DeepView>::V {
        (self.0.spec_readback(v.0), self.1.spec_readback(v.1), self.2.spec_readback(v.2), self.3.spec_readback(v.3))
    }

    open spec fn spec_roundtrips(&self, v: (A::Value, B::Value, C::Value, D::Value), prefix_len: nat) -> bool {
        &&& self.0.spec_roundtrips(v.0, prefix_len)
        &&& self.1.spec_roundtrips(v.1, prefix_len + self.0.spec_encode(v.0)->0.len())
        &&& self.2.spec_roundtrips(v.2, prefix_len + self.0.spec_encode(v.0)->0.len() + self.1.spec_encode(v.1)->0.len())
        &&& self.3.spec_roundtrips(v.3, prefix_len + self.0.spec_encode(v.0)->0.len() + self.1.spec_encode(v.1)->0.len() + self.2.spec_encode(v.2)->0.len())
    }

    proof fn lemma_decode_len(&self, bytes: Seq<u8>) {
        let b3 = bytes;
        self.3.lemma_decode_len(b3);
        if let Some((_, n3)) = self.3.spec_decode(b3) {
            let b2 = b3.take(b3.len() - n3);
            self.2.lemma_decode_len(b2);
            if let Some((_, n2)) = self.2.spec_decode(b2) {
                let b1 = b2.take(b2.len() - n2);
                self.1.lemma_decode_len(b1);
                if let Some((_, n1)) = self.1.spec_decode(b1) {
                    let b0 = b1.take(b1.len() - n1);
                    self.0.lemma_decode_len(b0);
                }
            }
        }
    }

    proof fn lemma_roundtrip(&self, v: (A::Value, B::Value, C::Value, D::Value), prefix: Seq<u8>) {
        let e0 = self.0.spec_encode(v.0)->0;
        let e1 = self.1.spec_encode(v.1)->0;
        let e2 = self.2.spec_encode(v.2)->0;
        let e3 = self.3.spec_encode(v.3)->0;
        let p0 = prefix;
        let p1 = p0 + e0;
        let p2 = p1 + e1;
        let p3 = p2 + e2;
        self.0.lemma_roundtrip(v.0, p0);
        self.1.lemma_roundtrip(v.1, p1);
        self.2.lemma_roundtrip(v.2, p2);
        self.3.lemma_roundtrip(v.3, p3);
        let all = prefix + (e0 + e1 + e2 + e3);
        assert(all =~= p3 + e3);
        assert((p3 + e3).take((p3 + e3).len() - e3.len()) =~= p3);
        assert((p2 + e2).take((p2 + e2).len() - e2.len()) =~= p2);
        assert((p1 + e1).take((p1 + e1).len() - e1.len()) =~= p1);
    }

    fn ser(&self, cursor: &mut SquashCursor, value: &(A::Value, B::Value, C::Value, D::Value)) -> Result<usize> {
        let _ = cursor.position();
        let ghost start = cursor@;
        let n0 = match self.0.ser(cursor, &value.0) {
            Ok(n) => n,
            Err(e) => {
                return Err(e);
            },
        };
        let _ = cursor.position();
        let n1 = match self.1.ser(cursor, &value.1) {
            Ok(n) => n,
            Err(e) => {
                return Err(e);
            },
        };
        let _ = cursor.position();
        let n2 = match self.2.ser(cursor, &value.2) {
            Ok(n) => n,
            Err(e) => {
                return Err(e);
            },
        };
        let _ = cursor.position();
        let n3 = match self.3.ser(cursor, &value.3) {
            Ok(n) => n,
            Err(e) => {
                return Err(e);
            },
        };
        let _ = cursor.position();
        proof {
            if self.spec_valid() {
                let e0 = self.0.spec_encode(value.0)->0;
                let e1 = self.1.spec_encode(value.1)->0;
                let e2 = self.2.spec_encode(value.2)->0;
                let e3 = self.3.spec_encode(value.3)->0;
                lemma_pushed_pushed(start, e0, e1);
                lemma_pushed_pushed(start, e0 + e1, e2);
                lemma_pushed_pushed(start, e0 + e1 + e2, e3);
            }
        }
        Ok(n0 + n1 + n2 + n3)
    }

    fn des(&self, cursor: &mut SquashCursor) -> Result<(A::Value, B::Value, C::Value, D::Value)> {
        let _ = cursor.position();
        let ghost c3 = cursor@;
        let x3 = match self.3.des(cursor) {
            Ok(x) => x,
            Err(e) => {
                return Err(e);
            },
        };
        proof {
            if self.spec_valid() {
                self.3.lemma_decode_len(c3.readable());
                lemma_popped(c3, self.3.spec_decode(c3.readable()).unwrap().1);
            }
        }
        let ghost c2 = cursor@;
        let x2 = match self.2.des(cursor) {
            Ok(x) => x,
            Err(e) => {
                return Err(e);
            },
        };
        proof {
            if self.spec_valid() {
                self.2.lemma_decode_len(c2.readable());
                lemma_popped(c2, self.2.spec_decode(c2.readable()).unwrap().1);
            }
        }
        let ghost c1 = cursor@;
        let x1 = match self.1.des(cursor) {
            Ok(x) => x,
            Err(e) => {
                return Err(e);
            },
        };
        proof {
            if self.spec_valid() {
                self.1.lemma_decode_len(c1.readable());
                lemma_popped(c1, self.1.spec_decode(c1.readable()).unwrap().1);
            }
        }
        let ghost c0 = cursor@;
        let x0 = match self.0.des(cursor) {
            Ok(x) => x,
            Err(e) => {
                return Err(e);
            },
        };
        Ok((x0, x1, x2, x3))
    }
}

/// A tuple of 5 codecs: the first element is pushed first, so it is popped last.
impl<A: SerDes, B: SerDes, C: SerDes, D: SerDes, E: SerDes> SerDes for (A, B, C, D, E) {
    type Value = (A::Value, B::Value, C::Value, D::Value, E::Value);

    open spec fn spec_valid(&self) -> bool {
        self.0.spec_valid() && self.1.spec_valid() && self.2.spec_valid() && self.3.spec_valid() && self.4.spec_valid()
    }

    open spec fn spec_encode(&self, v: (A::Value, B::Value, C::Value, D::Value, E::Value)) -> Option<Seq<u8>> {
        match (self.0.spec_encode(v.0), self.1.spec_encode(v.1), self.2.spec_encode(v.2), self.3.spec_encode(v.3), self.4.spec_encode(v.4)) {
            (Some(e0), Some(e1), Some(e2), Some(e3), Some(e4)) => Some(e0 + e1 + e2 + e3 + e4),
            _ => None,
        }
    }

    open spec fn spec_decode(&self, bytes: Seq<u8>) -> Option<(<(A::Value, B::Value, C::Value, D::Value, E::Value) as DeepView>::V, nat)> {
        let b4 = bytes;
        match self.4.spec_decode(b4) {
            Some((x4, n4)) => {
                let b3 = b4.take(b4.len() - n4);
                match self.3.spec_decode(b3) {
                    Some((x3, n3)) => {
                        let b2 = b3.take(b3.len() - n3);
                        match self.2.spec_decode(b2) {
                            Some((x2, n2)) => {
                                let b1 = b2.take(b2.len() - n2);
                                match self.1.spec_decode(b1) {
                                    Some((x1, n1)) => {
                                        let b0 = b1.take(b1.len() - n1);
                                        match self.0.spec_decode(b0) {
                                            Some((x0, n0)) => {
                                                Some(((x0, x1, x2, x3, x4), n0 + n1 + n2 + n3 + n4))
                                            },
                                            None => None,
                                        }
                                    },
                                    None => None,
                                }
                            },
                            None => None,
                        }
                    },
                    None => None,
                }
            },
            None => None,
        }
    }

    open spec fn spec_readback(&self, v: (A::Value, B::Value, C::Value, D::Value, E::Value)) -> <(A::Value, B::Value, C::Value, D::Value, E::Value) as DeepView>::V {
        (self.0.spec_readback(v.0), self.1.spec_readback(v.1), self.2.spec_readback(v.2), self.3.spec_readback(v.3), self.4.spec_readback(v.4))
    }

    open spec fn spec_roundtrips(&self, v: (A::Value, B::Value, C::Value, D::Value, E::Value), prefix_len: nat) -> bool {
        &&& self.0.spec_roundtrips(v.0, prefix_len)
        &&& self.1.spec_roundtrips(v.1, prefix_len + self.0.spec_encode(v.0)->0.len())
        &&& self.2.spec_roundtrips(v.2, prefix_len + self.0.spec_encode(v.0)->0.len() + self.1.spec_encode(v.1)->0.len())
        &&& self.3.spec_roundtrips(v.3, prefix_len + self.0.spec_encode(v.0)->0.len() + self.1.spec_encode(v.1)->0.len() + self.2.spec_encode(v.2)->0.len())
        &&& self.4.spec_roundtrips(v.4, prefix_len + self.0.spec_encode(v.0)->0.len() + self.1.spec_encode(v.1)->0.len() + self.2.spec_encode(v.2)->0.len() + self.3.spec_encode(v.3)->0.len())
    }

    proof fn lemma_decode_len(&self, bytes: Seq<u8>) {
        let b4 = bytes;
        self.4.lemma_decode_len(b4);
        if let Some((_, n4)) = self.4.spec_decode(b4) {
            let b3 = b4.take(b4.len() - n4);
            self.3.lemma_decode_len(b3);
            if let Some((_, n3)) = self.3.spec_decode(b3) {
                let b2 = b3.take(b3.len() - n3);
                self.2.lemma_decode_len(b2);
                if let Some((_, n2)) = self.2.spec_decode(b2) {
                    let b1 = b2.take(b2.len() - n2);
                    self.1.lemma_decode_len(b1);
                    if let Some((_, n1)) = self.1.spec_decode(b1) {
                        let b0 = b1.take(b1.len() - n1);
                        self.0.lemma_decode_len(b0);
                    }
                }
            }
        }
    }

    proof fn lemma_roundtrip(&self, v: (A::Value, B::Value, C::Value, D::Value, E::Value), prefix: Seq<u8>) {
        let e0 = self.0.spec_encode(v.0)->0;
        let e1 = self.1.spec_encode(v.1)->0;
        let e2 = self.2.spec_encode(v.2)->0;
        let e3 = self.3.spec_encode(v.3)->0;
        let e4 = self.4.spec_encode(v.4)->0;
        let p0 = prefix;
        let p1 = p0 + e0;
        let p2 = p1 + e1;
        let p3 = p2 + e2;
        let p4 = p3 + e3;
        self.0.lemma_roundtrip(v.0, p0);
        self.1.lemma_roundtrip(v.1, p1);
        self.2.lemma_roundtrip(v.2, p2);
        self.3.lemma_roundtrip(v.3, p3);
        self.4.lemma_roundtrip(v.4, p4);
        let all = prefix + (e0 + e1 + e2 + e3 + e4);
        assert(all =~= p4 + e4);
        assert((p4 + e4).take((p4 + e4).len() - e4.len()) =~= p4);
        assert((p3 + e3).take((p3 + e3).len() - e3.len()) =~= p3);
        assert((p2 + e2).take((p2 + e2).len() - e2.len()) =~= p2);
        assert((p1 + e1).take((p1 + e1).len() - e1.len()) =~= p1);
    }

    fn ser(&self, cursor: &mut SquashCursor, value: &(A::Value, B::Value, C::Value, D::Value, E::Value)) -> Result<usize> {
        let _ = cursor.position();
        let ghost start = cursor@;
        let n0 = match self.0.ser(cursor, &value.0) {
            Ok(n) => n,
            Err(e) => {
                return Err(e);
            },
        };
        let _ = cursor.position();
        let n1 = match self.1.ser(cursor, &value.1) {
            Ok(n) => n,
            Err(e) => {
                return Err(e);
            },
        };
        let _ = cursor.position();
        let n2 = match self.2.ser(cursor, &value.2) {
            Ok(n) => n,
            Err(e) => {
                return Err(e);
            },
        };
        let _ = cursor.position();
        let n3 = match self.3.ser(cursor, &value.3) {
            Ok(n) => n,
            Err(e) => {
                return Err(e);
            },
        };
        let _ = cursor.position();
        let n4 = match self.4.ser(cursor, &value.4) {
            Ok(n) => n,
            Err(e) => {
                return Err(e);
            },
        };
        let _ = cursor.position();
        proof {
            if self.spec_valid() {
                let e0 = self.0.spec_encode(value.0)->0;
                let e1 = self.1.spec_encode(value.1)->0;
                let e2 = self.2.spec_encode(value.2)->0;
                let e3 = self.3.spec_encode(value.3)->0;
                let e4 = self.4.spec_encode(value.4)->0;
                lemma_pushed_pushed(start, e0, e1);
                lemma_pushed_pushed(start, e0 + e1, e2);
                lemma_pushed_pushed(start, e0 + e1 + e2, e3);
                lemma_pushed_pushed(start, e0 + e1 + e2 + e3, e4);
            }
        }
        Ok(n0 + n1 + n2 + n3 + n4)
    }

    fn des(&self, cursor: &mut SquashCursor) -> Result<(A::Value, B::Value, C::Value, D::Value, E::Value)> {
        let _ = cursor.position();
        let ghost c4 = cursor@;
        let x4 = match self.4.des(cursor) {
            Ok(x) => x,
            Err(e) => {
                return Err(e);
            },
        };
        proof {
            if self.spec_valid() {
                self.4.lemma_decode_len(c4.readable());
                lemma_popped(c4, self.4.spec_decode(c4.readable()).unwrap().1);
            }
        }
        let ghost c3 = cursor@;
        let x3 = match self.3.des(cursor) {
            Ok(x) => x,
            Err(e) => {
                return Err(e);
            },
        };
        proof {
            if self.spec_valid() {
                self.3.lemma_decode_len(c3.readable());
                lemma_popped(c3, self.3.spec_decode(c3.readable()).unwrap().1);
            }
        }
        let ghost c2 = cursor@;
        let x2 = match self.2.des(cursor) {
            Ok(x) => x,
            Err(e) => {
                return Err(e);
            },
        };
        proof {
            if self.spec_valid() {
                self.2.lemma_decode_len(c2.readable());
                lemma_popped(c2, self.2.spec_decode(c2.readable()).unwrap().1);
            }
        }
        let ghost c1 = cursor@;
        let x1 = match self.1.des(cursor) {
            Ok(x) => x,
            Err(e) => {
                return Err(e);
            },
        };
        proof {
            if self.spec_valid() {
                self.1.lemma_decode_len(c1.readable());
                lemma_popped(c1, self.1.spec_decode(c1.readable()).unwrap().1);
            }
        }
        let ghost c0 = cursor@;
        let x0 = match self.0.des(cursor) {
            Ok(x) => x,
            Err(e) => {
                return Err(e);
            },
        };
        Ok((x0, x1, x2, x3, x4))
    }
}

/// A tuple of 6 codecs: the first element is pushed first, so it is popped last.
impl<A: SerDes, B: SerDes, C: SerDes, D: SerDes, E: SerDes, F: SerDes> SerDes for (A, B, C, D, E, F) {
    type Value = (A::Value, B::Value, C::Value, D::Value, E::Value, F::Value);

    open spec fn spec_valid(&self) -> bool {
        self.0.spec_valid() && self.1.spec_valid() && self.2.spec_valid() && self.3.spec_valid() && self.4.spec_valid() && self.5.spec_valid()
    }

    open spec fn spec_encode(&self, v: (A::Value, B::Value, C::Value, D::Value, E::Value, F::Value)) -> Option<Seq<u8>> {
        match (self.0.spec_encode(v.0), self.1.spec_encode(v.1), self.2.spec_encode(v.2), self.3.spec_encode(v.3), self.4.spec_encode(v.4), self.5.spec_encode(v.5)) {
            (Some(e0), Some(e1), Some(e2), Some(e3), Some(e4), Some(e5)) => Some(e0 + e1 + e2 + e3 + e4 + e5),
            _ => None,
        }
    }

    open spec fn spec_decode(&self, bytes: Seq<u8>) -> Option<(<(A::Value, B::Value, C::Value, D::Value, E::Value, F::Value) as DeepView>::V, nat)> {
        let b5 = bytes;
        match self.5.spec_decode(b5) {
            Some((x5, n5)) => {
                let b4 = b5.take(b5.len() - n5);
                match self.4.spec_decode(b4) {
                    Some((x4, n4)) => {
                        let b3 = b4.take(b4.len() - n4);
                        match self.3.spec_decode(b3) {
                            Some((x3, n3)) => {
                                let b2 = b3.take(b3.len() - n3);
                                match self.2.spec_decode(b2) {
                                    Some((x2, n2)) => {
                                        let b1 = b2.take(b2.len() - n2);
                                        match self.1.spec_decode(b1) {
                                            Some((x1, n1)) => {
                                                let b0 = b1.take(b1.len() - n1);
                                                match self.0.spec_decode(b0) {
                                                    Some((x0, n0)) => {
                                                        Some(((x0, x1, x2, x3, x4, x5), n0 + n1 + n2 + n3 + n4 + n5))
                                                    },
                                                    None => None,
                                                }
                                            },
                                            None => None,
                                        }
                                    },
                                    None => None,
                                }
                            },
                            None => None,
                        }
                    },
                    None => None,
                }
            },
            None => None,
        }
    }

    open spec fn spec_readback(&self, v: (A::Value, B::Value, C::Value, D::Value, E::Value, F::Value)) -> <(A::Value, B::Value, C::Value, D::Value, E::Value, F::Value) as DeepView>::V {
        (self.0.spec_readback(v.0), self.1.spec_readback(v.1), self.2.spec_readback(v.2), self.3.spec_readback(v.3), self.4.spec_readback(v.4), self.5.spec_readback(v.5))
    }

    open spec fn spec_roundtrips(&self, v: (A::Value, B::Value, C::Value, D::Value, E::Value, F::Value), prefix_len: nat) -> bool {
        &&& self.0.spec_roundtrips(v.0, prefix_len)
        &&& self.1.spec_roundtrips(v.1, prefix_len + self.0.spec_encode(v.0)->0.len())
        &&& self.2.spec_roundtrips(v.2, prefix_len + self.0.spec_encode(v.0)->0.len() + self.1.spec_encode(v.1)->0.len())
        &&& self.3.spec_roundtrips(v.3, prefix_len + self.0.spec_encode(v.0)->0.len() + self.1.spec_encode(v.1)->0.len() + self.2.spec_encode(v.2)->0.len())
        &&& self.4.spec_roundtrips(v.4, prefix_len + self.0.spec_encode(v.0)->0.len() + self.1.spec_encode(v.1)->0.len() + self.2.spec_encode(v.2)->0.len() + self.3.spec_encode(v.3)->0.len())
        &&& self.5.spec_roundtrips(v.5, prefix_len + self.0.spec_encode(v.0)->0.len() + self.1.spec_encode(v.1)->0.len() + self.2.spec_encode(v.2)->0.len() + self.3.spec_encode(v.3)->0.len() + self.4.spec_encode(v.4)->0.len())
    }

    proof fn lemma_decode_len(&self, bytes: Seq<u8>) {
        let b5 = bytes;
        self.5.lemma_decode_len(b5);
        if let Some((_, n5)) = self.5.spec_decode(b5) {
            let b4 = b5.take(b5.len() - n5);
            self.4.lemma_decode_len(b4);
            if let Some((_, n4)) = self.4.spec_decode(b4) {
                let b3 = b4.take(b4.len() - n4);
                self.3.lemma_decode_len(b3);
                if let Some((_, n3)) = self.3.spec_decode(b3) {
                    let b2 = b3.take(b3.len() - n3);
                    self.2.lemma_decode_len(b2);
                    if let Some((_, n2)) = self.2.spec_decode(b2) {
                        let b1 = b2.take(b2.len() - n2);
                        self.1.lemma_decode_len(b1);
                        if let Some((_, n1)) = self.1.spec_decode(b1) {
                            let b0 = b1.take(b1.len() - n1);
                            self.0.lemma_decode_len(b0);
                        }
                    }
                }
            }
        }
    }

    proof fn lemma_roundtrip(&self, v: (A::Value, B::Value, C::Value, D::Value, E::Value, F::Value), prefix: Seq<u8>) {
        let e0 = self.0.spec_encode(v.0)->0;
        let e1 = self.1.spec_encode(v.1)->0;
        let e2 = self.2.spec_encode(v.2)->0;
        let e3 = self.3.spec_encode(v.3)->0;
        let e4 = self.4.spec_encode(v.4)->0;
        let e5 = self.5.spec_encode(v.5)->0;
        let p0 = prefix;
        let p1 = p0 + e0;
        let p2 = p1 + e1;
        let p3 = p2 + e2;
        let p4 = p3 + e3;
        let p5 = p4 + e4;
        self.0.lemma_roundtrip(v.0, p0);
        self.1.lemma_roundtrip(v.1, p1);
        self.2.lemma_roundtrip(v.2, p2);
        self.3.lemma_roundtrip(v.3, p3);
        self.4.lemma_roundtrip(v.4, p4);
        self.5.lemma_roundtrip(v.5, p5);
        let all = prefix + (e0 + e1 + e2 + e3 + e4 + e5);
        assert(all =~= p5 + e5);
        assert((p5 + e5).take((p5 + e5).len() - e5.len()) =~= p5);
        assert((p4 + e4).take((p4 + e4).len() - e4.len()) =~= p4);
        assert((p3 + e3).take((p3 + e3).len() - e3.len()) =~= p3);
        assert((p2 + e2).take((p2 + e2).len() - e2.len()) =~= p2);
        assert((p1 + e1).take((p1 + e1).len() - e1.len()) =~= p1);
    }

    fn ser(&self, cursor: &mut SquashCursor, value: &(A::Value, B::Value, C::Value, D::Value, E::Value, F::Value)) -> Result<usize> {
        let _ = cursor.position();
        let ghost start = cursor@;
        let n0 = match self.0.ser(cursor, &value.0) {
            Ok(n) => n,
            Err(e) => {
                return Err(e);
            },
        };
        let _ = cursor.position();
        let n1 = match self.1.ser(cursor, &value.1) {
            Ok(n) => n,
            Err(e) => {
                return Err(e);
            },
        };
        let _ = cursor.position();
        let n2 = match self.2.ser(cursor, &value.2) {
            Ok(n) => n,
            Err(e) => {
                return Err(e);
            },
        };
        let _ = cursor.position();
        let n3 = match self.3.ser(cursor, &value.3) {
            Ok(n) => n,
            Err(e) => {
                return Err(e);
            },
        };
        let _ = cursor.position();
        let n4 = match self.4.ser(cursor, &value.4) {
            Ok(n) => n,
            Err(e) => {
                return Err(e);
            },
        };
        let _ = cursor.position();
        let n5 = match self.5.ser(cursor, &value.5) {
            Ok(n) => n,
            Err(e) => {
                return Err(e);
            },
        };
        let _ = cursor.position();
        proof {
            if self.spec_valid() {
                let e0 = self.0.spec_encode(value.0)->0;
                let e1 = self.1.spec_encode(value.1)->0;
                let e2 = self.2.spec_encode(value.2)->0;
                let e3 = self.3.spec_encode(value.3)->0;
                let e4 = self.4.spec_encode(value.4)->0;
                let e5 = self.5.spec_encode(value.5)->0;
                lemma_pushed_pushed(start, e0, e1);
                lemma_pushed_pushed(start, e0 + e1, e2);
                lemma_pushed_pushed(start, e0 + e1 + e2, e3);
                lemma_pushed_pushed(start, e0 + e1 + e2 + e3, e4);
                lemma_pushed_pushed(start, e0 + e1 + e2 + e3 + e4, e5);
            }
        }
        Ok(n0 + n1 + n2 + n3 + n4 + n5)
    }

    fn des(&self, cursor: &mut SquashCursor) -> Result<(A::Value, B::Value, C::Value, D::Value, E::Value, F::Value)> {
        let _ = cursor.position();
        let ghost c5 = cursor@;
        let x5 = match self.5.des(cursor) {
            Ok(x) => x,
            Err(e) => {
                return Err(e);
            },
        };
        proof {
            if self.spec_valid() {
                self.5.lemma_decode_len(c5.readable());
                lemma_popped(c5, self.5.spec_decode(c5.readable()).unwrap().1);
            }
        }
        let ghost c4 = cursor@;
        let x4 = match self.4.des(cursor) {
            Ok(x) => x,
            Err(e) => {
                return Err(e);
            },
        };
        proof {
            if self.spec_valid() {
                self.4.lemma_decode_len(c4.readable());
                lemma_popped(c4, self.4.spec_decode(c4.readable()).unwrap().1);
            }
        }
        let ghost c3 = cursor@;
        let x3 = match self.3.des(cursor) {
            Ok(x) => x,
            Err(e) => {
                return Err(e);
            },
        };
        proof {
            if self.spec_valid() {
                self.3.lemma_decode_len(c3.readable());
                lemma_popped(c3, self.3.spec_decode(c3.readable()).unwrap().1);
            }
        }
        let ghost c2 = cursor@;
        let x2 = match self.2.des(cursor) {
            Ok(x) => x,
            Err(e) => {
                return Err(e);
            },
        };
        proof {
            if self.spec_valid() {
                self.2.lemma_decode_len(c2.readable());
                lemma_popped(c2, self.2.spec_decode(c2.readable()).unwrap().1);
            }
        }
        let ghost c1 = cursor@;
        let x1 = match self.1.des(cursor) {
            Ok(x) => x,
            Err(e) => {
                return Err(e);
            },
        };
        proof {
            if self.spec_valid() {
                self.1.lemma_decode_len(c1.readable());
                lemma_popped(c1, self.1.spec_decode(c1.readable()).unwrap().1);
            }
        }
        let ghost c0 = cursor@;
        let x0 = match self.0.des(cursor) {
            Ok(x) => x,
            Err(e) => {
                return Err(e);
            },
        };
        Ok((x0, x1, x2, x3, x4, x5))
    }
}


} // verus!
