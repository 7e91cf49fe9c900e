use vstd::prelude::*;

use crate::cursor::{lemma_popped, lemma_pushed_pushed, SquashCursor};
use crate::error::Result;
use crate::object::SquashObject;
use crate::roblox::enum_item::EnumItem;

verus! {

/// The parameters of a catalog search.
#[derive(Clone, PartialEq, Eq, PartialOrd, Ord, Hash, Debug, Default)]
pub struct CatalogSearchParams {
    pub include_off_sale: bool,
    pub limit: u8,
    pub min_price: u32,
    pub max_price: u32,
    pub creator_name: String,
    pub search_keyworld: String,
    pub sort_type: EnumItem,
    pub sort_aggregration: EnumItem,
    pub category_filter: EnumItem,
    pub sales_type_filter: EnumItem,
    pub asset_types: Vec<EnumItem>,
}

/// The deep view lists the fields in the order in which they are pushed.
impl DeepView for CatalogSearchParams {
    type V = (<bool as DeepView>::V, <u8 as DeepView>::V, <u32 as DeepView>::V, <u32 as DeepView>::V, <String as DeepView>::V, <String as DeepView>::V, <EnumItem as DeepView>::V, <EnumItem as DeepView>::V, <EnumItem as DeepView>::V, <EnumItem as DeepView>::V, <Vec<EnumItem> as DeepView>::V);

    open spec fn deep_view(&self) -> (<bool as DeepView>::V, <u8 as DeepView>::V, <u32 as DeepView>::V, <u32 as DeepView>::V, <String as DeepView>::V, <String as DeepView>::V, <EnumItem as DeepView>::V, <EnumItem as DeepView>::V, <EnumItem as DeepView>::V, <EnumItem as DeepView>::V, <Vec<EnumItem> as DeepView>::V) {
        (self.include_off_sale.deep_view(), self.limit.deep_view(), self.min_price.deep_view(), self.max_price.deep_view(), self.creator_name.deep_view(), self.search_keyworld.deep_view(), self.sort_type.deep_view(), self.sort_aggregration.deep_view(), self.category_filter.deep_view(), self.sales_type_filter.deep_view(), self.asset_types.deep_view())
    }
}

/// Reading the first 6 fields off the end of `bytes`.
pub open spec fn catalogsearchparams_front_decode(bytes: Seq<u8>) -> Option<((<bool as DeepView>::V, <u8 as DeepView>::V, <u32 as DeepView>::V, <u32 as DeepView>::V, <String as DeepView>::V, <String as DeepView>::V), nat)> {
    let b5 = bytes;
    match <String as SquashObject>::spec_decode(b5) {
        Some((x5, n5)) => {
            let b4 = b5.take(b5.len() - n5);
            match <String as SquashObject>::spec_decode(b4) {
                Some((x4, n4)) => {
                    let b3 = b4.take(b4.len() - n4);
                    match <u32 as SquashObject>::spec_decode(b3) {
                        Some((x3, n3)) => {
                            let b2 = b3.take(b3.len() - n3);
                            match <u32 as SquashObject>::spec_decode(b2) {
                                Some((x2, n2)) => {
                                    let b1 = b2.take(b2.len() - n2);
                                    match <u8 as SquashObject>::spec_decode(b1) {
                                        Some((x1, n1)) => {
                                            let b0 = b1.take(b1.len() - n1);
                                            match <bool as SquashObject>::spec_decode(b0) {
                                                Some((x0, n0)) => {
                                                    Some(((x0, x1, x2, x3, x4, x5), n0 + n1 + n2 + n3 + n4 + n5))
                                                },
                                                None => None,
                                            }
                                        },
                                        None => None,
                                    }
                                },
                                None => None,
                            }
                        },
                        None => None,
                    }
                },
                None => None,
            }
        },
        None => None,
    }
}

/// The bytes of the first 6 fields, one after another.
pub open spec fn catalogsearchparams_front_encode(v: (<bool as DeepView>::V, <u8 as DeepView>::V, <u32 as DeepView>::V, <u32 as DeepView>::V, <String as DeepView>::V, <String as DeepView>::V)) -> Option<Seq<u8>> {
    match (<bool as SquashObject>::spec_encode(v.0), <u8 as SquashObject>::spec_encode(v.1), <u32 as SquashObject>::spec_encode(v.2), <u32 as SquashObject>::spec_encode(v.3), <String as SquashObject>::spec_encode(v.4), <String as SquashObject>::spec_encode(v.5)) {
        (Some(e0), Some(e1), Some(e2), Some(e3), Some(e4), Some(e5)) => Some(e0 + e1 + e2 + e3 + e4 + e5),
        _ => None,
    }
}

proof fn lemma_catalogsearchparams_front_decode_len(bytes: Seq<u8>)
    ensures
        catalogsearchparams_front_decode(bytes) matches Some((_, n)) ==> n <= bytes.len(),
{
    let b5 = bytes;
    <String as SquashObject>::lemma_decode_len(b5);
    if let Some((_, n5)) = <String as SquashObject>::spec_decode(b5) {
        let b4 = b5.take(b5.len() - n5);
        <String as SquashObject>::lemma_decode_len(b4);
        if let Some((_, n4)) = <String as SquashObject>::spec_decode(b4) {
            let b3 = b4.take(b4.len() - n4);
            <u32 as SquashObject>::lemma_decode_len(b3);
            if let Some((_, n3)) = <u32 as SquashObject>::spec_decode(b3) {
                let b2 = b3.take(b3.len() - n3);
                <u32 as SquashObject>::lemma_decode_len(b2);
                if let Some((_, n2)) = <u32 as SquashObject>::spec_decode(b2) {
                    let b1 = b2.take(b2.len() - n2);
                    <u8 as SquashObject>::lemma_decode_len(b1);
                    if let Some((_, n1)) = <u8 as SquashObject>::spec_decode(b1) {
                        let b0 = b1.take(b1.len() - n1);
                        <bool as SquashObject>::lemma_decode_len(b0);
                    }
                }
            }
        }
    }
}

proof fn lemma_catalogsearchparams_front_roundtrip(v: (<bool as DeepView>::V, <u8 as DeepView>::V, <u32 as DeepView>::V, <u32 as DeepView>::V, <String as DeepView>::V, <String as DeepView>::V), prefix: Seq<u8>)
    requires
        <bool as SquashObject>::spec_roundtrips(v.0),
        <u8 as SquashObject>::spec_roundtrips(v.1),
        <u32 as SquashObject>::spec_roundtrips(v.2),
        <u32 as SquashObject>::spec_roundtrips(v.3),
        <String as SquashObject>::spec_roundtrips(v.4),
        <String as SquashObject>::spec_roundtrips(v.5),
        catalogsearchparams_front_encode(v) is Some,
    ensures
        catalogsearchparams_front_decode(prefix + catalogsearchparams_front_encode(v)->0) == Some((v, catalogsearchparams_front_encode(v)->0.len())),
{
    let e0 = <bool as SquashObject>::spec_encode(v.0)->0;
    let e1 = <u8 as SquashObject>::spec_encode(v.1)->0;
    let e2 = <u32 as SquashObject>::spec_encode(v.2)->0;
    let e3 = <u32 as SquashObject>::spec_encode(v.3)->0;
    let e4 = <String as SquashObject>::spec_encode(v.4)->0;
    let e5 = <String as SquashObject>::spec_encode(v.5)->0;
    let p0 = prefix;
    let p1 = p0 + e0;
    let p2 = p1 + e1;
    let p3 = p2 + e2;
    let p4 = p3 + e3;
    let p5 = p4 + e4;
    <bool as SquashObject>::lemma_roundtrip(v.0, p0);
    <u8 as SquashObject>::lemma_roundtrip(v.1, p1);
    <u32 as SquashObject>::lemma_roundtrip(v.2, p2);
    <u32 as SquashObject>::lemma_roundtrip(v.3, p3);
    <String as SquashObject>::lemma_roundtrip(v.4, p4);
    <String as SquashObject>::lemma_roundtrip(v.5, p5);
    let all = prefix + (e0 + e1 + e2 + e3 + e4 + e5);
    assert(all =~= p5 + e5);
    assert((p5 + e5).take((p5 + e5).len() - e5.len()) =~= p5);
    assert((p4 + e4).take((p4 + e4).len() - e4.len()) =~= p4);
    assert((p3 + e3).take((p3 + e3).len() - e3.len()) =~= p3);
    assert((p2 + e2).take((p2 + e2).len() - e2.len()) =~= p2);
    assert((p1 + e1).take((p1 + e1).len() - e1.len()) =~= p1);
}

fn catalogsearchparams_pop_front(cursor: &mut SquashCursor) -> (r: Result<(bool, u8, u32, u32, String, String)>)
    ensures
        match catalogsearchparams_front_decode(old(cursor)@.readable()) {
            Some((w, n)) => {
                &&& r matches Ok(v) && v.0.deep_view() == w.0 && v.1.deep_view() == w.1 && v.2.deep_view() == w.2 && v.3.deep_view() == w.3 && v.4.deep_view() == w.4 && v.5.deep_view() == w.5
                &&& final(cursor)@ == old(cursor)@.popped(n)
            },
            None => r is Err,
        },
{
    let _ = cursor.position();
    let ghost c5 = cursor@;
    let x5 = match cursor.pop::<String>() {
        Ok(x) => x,
        Err(e) => {
            return Err(e);
        },
    };
    proof {
        <String as SquashObject>::lemma_decode_len(c5.readable());
        lemma_popped(c5, <String as SquashObject>::spec_decode(c5.readable()).unwrap().1);
    }
    let ghost c4 = cursor@;
    let x4 = match cursor.pop::<String>() {
        Ok(x) => x,
        Err(e) => {
            return Err(e);
        },
    };
    proof {
        <String as SquashObject>::lemma_decode_len(c4.readable());
        lemma_popped(c4, <String as SquashObject>::spec_decode(c4.readable()).unwrap().1);
    }
    let ghost c3 = cursor@;
    let x3 = match cursor.pop::<u32>() {
        Ok(x) => x,
        Err(e) => {
            return Err(e);
        },
    };
    proof {
        <u32 as SquashObject>::lemma_decode_len(c3.readable());
        lemma_popped(c3, <u32 as SquashObject>::spec_decode(c3.readable()).unwrap().1);
    }
    let ghost c2 = cursor@;
    let x2 = match cursor.pop::<u32>() {
        Ok(x) => x,
        Err(e) => {
            return Err(e);
        },
    };
    proof {
        <u32 as SquashObject>::lemma_decode_len(c2.readable());
        lemma_popped(c2, <u32 as SquashObject>::spec_decode(c2.readable()).unwrap().1);
    }
    let ghost c1 = cursor@;
    let x1 = match cursor.pop::<u8>() {
        Ok(x) => x,
        Err(e) => {
            return Err(e);
        },
    };
    proof {
        <u8 as SquashObject>::lemma_decode_len(c1.readable());
        lemma_popped(c1, <u8 as SquashObject>::spec_decode(c1.readable()).unwrap().1);
    }
    let ghost c0 = cursor@;
    let x0 = match cursor.pop::<bool>() {
        Ok(x) => x,
        Err(e) => {
            return Err(e);
        },
    };
    Ok((x0, x1, x2, x3, x4, x5))
}

impl SquashObject for CatalogSearchParams {
    open spec fn spec_encode(v: (<bool as DeepView>::V, <u8 as DeepView>::V, <u32 as DeepView>::V, <u32 as DeepView>::V, <String as DeepView>::V, <String as DeepView>::V, <EnumItem as DeepView>::V, <EnumItem as DeepView>::V, <EnumItem as DeepView>::V, <EnumItem as DeepView>::V, <Vec<EnumItem> as DeepView>::V)) -> Option<Seq<u8>> {
        match (<bool as SquashObject>::spec_encode(v.0), <u8 as SquashObject>::spec_encode(v.1), <u32 as SquashObject>::spec_encode(v.2), <u32 as SquashObject>::spec_encode(v.3), <String as SquashObject>::spec_encode(v.4), <String as SquashObject>::spec_encode(v.5), <EnumItem as SquashObject>::spec_encode(v.6), <EnumItem as SquashObject>::spec_encode(v.7), <EnumItem as SquashObject>::spec_encode(v.8), <EnumItem as SquashObject>::spec_encode(v.9), <Vec<EnumItem> as SquashObject>::spec_encode(v.10)) {
            (Some(e0), Some(e1), Some(e2), Some(e3), Some(e4), Some(e5), Some(e6), Some(e7), Some(e8), Some(e9), Some(e10)) => Some(e0 + e1 + e2 + e3 + e4 + e5 + e6 + e7 + e8 + e9 + e10),
            _ => None,
        }
    }

    open spec fn spec_decode(bytes: Seq<u8>) -> Option<((<bool as DeepView>::V, <u8 as DeepView>::V, <u32 as DeepView>::V, <u32 as DeepView>::V, <String as DeepView>::V, <String as DeepView>::V, <EnumItem as DeepView>::V, <EnumItem as DeepView>::V, <EnumItem as DeepView>::V, <EnumItem as DeepView>::V, <Vec<EnumItem> as DeepView>::V), nat)> {
        let b10 = bytes;
        match <Vec<EnumItem> as SquashObject>::spec_decode(b10) {
            Some((x10, n10)) => {
                let b9 = b10.take(b10.len() - n10);
                match <EnumItem as SquashObject>::spec_decode(b9) {
                    Some((x9, n9)) => {
                        let b8 = b9.take(b9.len() - n9);
                        match <EnumItem as SquashObject>::spec_decode(b8) {
                            Some((x8, n8)) => {
                                let b7 = b8.take(b8.len() - n8);
                                match <EnumItem as SquashObject>::spec_decode(b7) {
                                    Some((x7, n7)) => {
                                        let b6 = b7.take(b7.len() - n7);
                                        match <EnumItem as SquashObject>::spec_decode(b6) {
                                            Some((x6, n6)) => {
                                                let b5 = b6.take(b6.len() - n6);
                                                match catalogsearchparams_front_decode(b5) {
                                                    Some((f, nf)) => Some(((f.0, f.1, f.2, f.3, f.4, f.5, x6, x7, x8, x9, x10), nf + n6 + n7 + n8 + n9 + n10)),
                                                    None => None,
                                                }
                                            },
                                            None => None,
                                        }
                                    },
                                    None => None,
                                }
                            },
                            None => None,
                        }
                    },
                    None => None,
                }
            },
            None => None,
        }
    }

    open spec fn spec_roundtrips(v: (<bool as DeepView>::V, <u8 as DeepView>::V, <u32 as DeepView>::V, <u32 as DeepView>::V, <String as DeepView>::V, <String as DeepView>::V, <EnumItem as DeepView>::V, <EnumItem as DeepView>::V, <EnumItem as DeepView>::V, <EnumItem as DeepView>::V, <Vec<EnumItem> as DeepView>::V)) -> bool {
        &&& <bool as SquashObject>::spec_roundtrips(v.0)
        &&& <u8 as SquashObject>::spec_roundtrips(v.1)
        &&& <u32 as SquashObject>::spec_roundtrips(v.2)
        &&& <u32 as SquashObject>::spec_roundtrips(v.3)
        &&& <String as SquashObject>::spec_roundtrips(v.4)
        &&& <String as SquashObject>::spec_roundtrips(v.5)
        &&& <EnumItem as SquashObject>::spec_roundtrips(v.6)
        &&& <EnumItem as SquashObject>::spec_roundtrips(v.7)
        &&& <EnumItem as SquashObject>::spec_roundtrips(v.8)
        &&& <EnumItem as SquashObject>::spec_roundtrips(v.9)
        &&& <Vec<EnumItem> as SquashObject>::spec_roundtrips(v.10)
    }

    proof fn lemma_decode_len(bytes: Seq<u8>) {
        let b10 = bytes;
        <Vec<EnumItem> as SquashObject>::lemma_decode_len(b10);
        if let Some((_, n10)) = <Vec<EnumItem> as SquashObject>::spec_decode(b10) {
            let b9 = b10.take(b10.len() - n10);
            <EnumItem as SquashObject>::lemma_decode_len(b9);
            if let Some((_, n9)) = <EnumItem as SquashObject>::spec_decode(b9) {
                let b8 = b9.take(b9.len() - n9);
                <EnumItem as SquashObject>::lemma_decode_len(b8);
                if let Some((_, n8)) = <EnumItem as SquashObject>::spec_decode(b8) {
                    let b7 = b8.take(b8.len() - n8);
                    <EnumItem as SquashObject>::lemma_decode_len(b7);
                    if let Some((_, n7)) = <EnumItem as SquashObject>::spec_decode(b7) {
                        let b6 = b7.take(b7.len() - n7);
                        <EnumItem as SquashObject>::lemma_decode_len(b6);
                        if let Some((_, n6)) = <EnumItem as SquashObject>::spec_decode(b6) {
                            let b5 = b6.take(b6.len() - n6);
                            lemma_catalogsearchparams_front_decode_len(b5);
                        }
                    }
                }
            }
        }
    }

    #[verifier::spinoff_prover]
    #[verifier::rlimit(60)]
    proof fn lemma_roundtrip(v: (<bool as DeepView>::V, <u8 as DeepView>::V, <u32 as DeepView>::V, <u32 as DeepView>::V, <String as DeepView>::V, <String as DeepView>::V, <EnumItem as DeepView>::V, <EnumItem as DeepView>::V, <EnumItem as DeepView>::V, <EnumItem as DeepView>::V, <Vec<EnumItem> as DeepView>::V), prefix: Seq<u8>) {
        let e0 = <bool as SquashObject>::spec_encode(v.0)->0;
        let e1 = <u8 as SquashObject>::spec_encode(v.1)->0;
        let e2 = <u32 as SquashObject>::spec_encode(v.2)->0;
        let e3 = <u32 as SquashObject>::spec_encode(v.3)->0;
        let e4 = <String as SquashObject>::spec_encode(v.4)->0;
        let e5 = <String as SquashObject>::spec_encode(v.5)->0;
        let e6 = <EnumItem as SquashObject>::spec_encode(v.6)->0;
        let e7 = <EnumItem as SquashObject>::spec_encode(v.7)->0;
        let e8 = <EnumItem as SquashObject>::spec_encode(v.8)->0;
        let e9 = <EnumItem as SquashObject>::spec_encode(v.9)->0;
        let e10 = <Vec<EnumItem> as SquashObject>::spec_encode(v.10)->0;
        let fv = (v.0, v.1, v.2, v.3, v.4, v.5);
        let ef = e0 + e1 + e2 + e3 + e4 + e5;
        assert(catalogsearchparams_front_encode(fv) == Some(ef));
        lemma_catalogsearchparams_front_roundtrip(fv, prefix);
        let p6 = prefix + ef;
        let p7 = p6 + e6;
        let p8 = p7 + e7;
        let p9 = p8 + e8;
        let p10 = p9 + e9;
        <EnumItem as SquashObject>::lemma_roundtrip(v.6, p6);
        <EnumItem as SquashObject>::lemma_roundtrip(v.7, p7);
        <EnumItem as SquashObject>::lemma_roundtrip(v.8, p8);
        <EnumItem as SquashObject>::lemma_roundtrip(v.9, p9);
        <Vec<EnumItem> as SquashObject>::lemma_roundtrip(v.10, p10);
        let all = prefix + (e0 + e1 + e2 + e3 + e4 + e5 + e6 + e7 + e8 + e9 + e10);
        assert(all =~= p10 + e10);
        assert((p10 + e10).take((p10 + e10).len() - e10.len()) =~= p10);
        assert((p9 + e9).take((p9 + e9).len() - e9.len()) =~= p9);
        assert((p8 + e8).take((p8 + e8).len() - e8.len()) =~= p8);
        assert((p7 + e7).take((p7 + e7).len() - e7.len()) =~= p7);
        assert((p6 + e6).take((p6 + e6).len() - e6.len()) =~= p6);
    }

    fn push_obj(self, cursor: &mut SquashCursor) -> Result<usize> {
        let _ = cursor.position();
        let ghost start = cursor@;
        let ghost v = self.deep_view();
        let CatalogSearchParams { include_off_sale, limit, min_price, max_price, creator_name, search_keyworld, sort_type, sort_aggregration, category_filter, sales_type_filter, asset_types } = self;
        let n0 = match cursor.push(include_off_sale) {
            Ok(n) => n,
            Err(e) => {
                return Err(e);
            },
        };
        let _ = cursor.position();
        let n1 = match cursor.push(limit) {
            Ok(n) => n,
            Err(e) => {
                return Err(e);
            },
        };
        let _ = cursor.position();
        proof {
            lemma_pushed_pushed(start, <bool as SquashObject>::spec_encode(v.0)->0, <u8 as SquashObject>::spec_encode(v.1)->0);
        }
        let n2 = match cursor.push(min_price) {
            Ok(n) => n,
            Err(e) => {
                return Err(e);
            },
        };
        let _ = cursor.position();
        proof {
            lemma_pushed_pushed(start, <bool as SquashObject>::spec_encode(v.0)->0 + <u8 as SquashObject>::spec_encode(v.1)->0, <u32 as SquashObject>::spec_encode(v.2)->0);
        }
        let n3 = match cursor.push(max_price) {
            Ok(n) => n,
            Err(e) => {
                return Err(e);
            },
        };
        let _ = cursor.position();
        proof {
            lemma_pushed_pushed(start, <bool as SquashObject>::spec_encode(v.0)->0 + <u8 as SquashObject>::spec_encode(v.1)->0 + <u32 as SquashObject>::spec_encode(v.2)->0, <u32 as SquashObject>::spec_encode(v.3)->0);
        }
        let n4 = match cursor.push(creator_name) {
            Ok(n) => n,
            Err(e) => {
                return Err(e);
            },
        };
        let _ = cursor.position();
        proof {
            lemma_pushed_pushed(start, <bool as SquashObject>::spec_encode(v.0)->0 + <u8 as SquashObject>::spec_encode(v.1)->0 + <u32 as SquashObject>::spec_encode(v.2)->0 + <u32 as SquashObject>::spec_encode(v.3)->0, <String as SquashObject>::spec_encode(v.4)->0);
        }
        let n5 = match cursor.push(search_keyworld) {
            Ok(n) => n,
            Err(e) => {
                return Err(e);
            },
        };
        let _ = cursor.position();
        proof {
            lemma_pushed_pushed(start, <bool as SquashObject>::spec_encode(v.0)->0 + <u8 as SquashObject>::spec_encode(v.1)->0 + <u32 as SquashObject>::spec_encode(v.2)->0 + <u32 as SquashObject>::spec_encode(v.3)->0 + <String as SquashObject>::spec_encode(v.4)->0, <String as SquashObject>::spec_encode(v.5)->0);
        }
        let n6 = match cursor.push(sort_type) {
            Ok(n) => n,
            Err(e) => {
                return Err(e);
            },
        };
        let _ = cursor.position();
        proof {
            lemma_pushed_pushed(start, <bool as SquashObject>::spec_encode(v.0)->0 + <u8 as SquashObject>::spec_encode(v.1)->0 + <u32 as SquashObject>::spec_encode(v.2)->0 + <u32 as SquashObject>::spec_encode(v.3)->0 + <String as SquashObject>::spec_encode(v.4)->0 + <String as SquashObject>::spec_encode(v.5)->0, <EnumItem as SquashObject>::spec_encode(v.6)->0);
        }
        let n7 = match cursor.push(sort_aggregration) {
            Ok(n) => n,
            Err(e) => {
                return Err(e);
            },
        };
        let _ = cursor.position();
        proof {
            lemma_pushed_pushed(start, <bool as SquashObject>::spec_encode(v.0)->0 + <u8 as SquashObject>::spec_encode(v.1)->0 + <u32 as SquashObject>::spec_encode(v.2)->0 + <u32 as SquashObject>::spec_encode(v.3)->0 + <String as SquashObject>::spec_encode(v.4)->0 + <String as SquashObject>::spec_encode(v.5)->0 + <EnumItem as SquashObject>::spec_encode(v.6)->0, <EnumItem as SquashObject>::spec_encode(v.7)->0);
        }
        let n8 = match cursor.push(category_filter) {
            Ok(n) => n,
            Err(e) => {
                return Err(e);
            },
        };
        let _ = cursor.position();
        proof {
            lemma_pushed_pushed(start, <bool as SquashObject>::spec_encode(v.0)->0 + <u8 as SquashObject>::spec_encode(v.1)->0 + <u32 as SquashObject>::spec_encode(v.2)->0 + <u32 as SquashObject>::spec_encode(v.3)->0 + <String as SquashObject>::spec_encode(v.4)->0 + <String as SquashObject>::spec_encode(v.5)->0 + <EnumItem as SquashObject>::spec_encode(v.6)->0 + <EnumItem as SquashObject>::spec_encode(v.7)->0, <EnumItem as SquashObject>::spec_encode(v.8)->0);
        }
        let n9 = match cursor.push(sales_type_filter) {
            Ok(n) => n,
            Err(e) => {
                return Err(e);
            },
        };
        let _ = cursor.position();
        proof {
            lemma_pushed_pushed(start, <bool as SquashObject>::spec_encode(v.0)->0 + <u8 as SquashObject>::spec_encode(v.1)->0 + <u32 as SquashObject>::spec_encode(v.2)->0 + <u32 as SquashObject>::spec_encode(v.3)->0 + <String as SquashObject>::spec_encode(v.4)->0 + <String as SquashObject>::spec_encode(v.5)->0 + <EnumItem as SquashObject>::spec_encode(v.6)->0 + <EnumItem as SquashObject>::spec_encode(v.7)->0 + <EnumItem as SquashObject>::spec_encode(v.8)->0, <EnumItem as SquashObject>::spec_encode(v.9)->0);
        }
        let n10 = match cursor.push(asset_types) {
            Ok(n) => n,
            Err(e) => {
                return Err(e);
            },
        };
        let _ = cursor.position();
        proof {
            lemma_pushed_pushed(start, <bool as SquashObject>::spec_encode(v.0)->0 + <u8 as SquashObject>::spec_encode(v.1)->0 + <u32 as SquashObject>::spec_encode(v.2)->0 + <u32 as SquashObject>::spec_encode(v.3)->0 + <String as SquashObject>::spec_encode(v.4)->0 + <String as SquashObject>::spec_encode(v.5)->0 + <EnumItem as SquashObject>::spec_encode(v.6)->0 + <EnumItem as SquashObject>::spec_encode(v.7)->0 + <EnumItem as SquashObject>::spec_encode(v.8)->0 + <EnumItem as SquashObject>::spec_encode(v.9)->0, <Vec<EnumItem> as SquashObject>::spec_encode(v.10)->0);
        }
        Ok(n0 + n1 + n2 + n3 + n4 + n5 + n6 + n7 + n8 + n9 + n10)
    }

    fn pop_obj(cursor: &mut SquashCursor) -> Result<CatalogSearchParams> {
        let _ = cursor.position();
        let ghost c10 = cursor@;
        let asset_types = match cursor.pop::<Vec<EnumItem>>() {
            Ok(x) => x,
            Err(e) => {
                return Err(e);
            },
        };
        proof {
            <Vec<EnumItem> as SquashObject>::lemma_decode_len(c10.readable());
            lemma_popped(c10, <Vec<EnumItem> as SquashObject>::spec_decode(c10.readable()).unwrap().1);
        }
        let ghost c9 = cursor@;
        let sales_type_filter = match cursor.pop::<EnumItem>() {
            Ok(x) => x,
            Err(e) => {
                return Err(e);
            },
        };
        proof {
            <EnumItem as SquashObject>::lemma_decode_len(c9.readable());
            lemma_popped(c9, <EnumItem as SquashObject>::spec_decode(c9.readable()).unwrap().1);
        }
        let ghost c8 = cursor@;
        let category_filter = match cursor.pop::<EnumItem>() {
            Ok(x) => x,
            Err(e) => {
                return Err(e);
            },
        };
        proof {
            <EnumItem as SquashObject>::lemma_decode_len(c8.readable());
            lemma_popped(c8, <EnumItem as SquashObject>::spec_decode(c8.readable()).unwrap().1);
        }
        let ghost c7 = cursor@;
        let sort_aggregration = match cursor.pop::<EnumItem>() {
            Ok(x) => x,
            Err(e) => {
                return Err(e);
            },
        };
        proof {
            <EnumItem as SquashObject>::lemma_decode_len(c7.readable());
            lemma_popped(c7, <EnumItem as SquashObject>::spec_decode(c7.readable()).unwrap().1);
        }
        let ghost c6 = cursor@;
        let sort_type = match cursor.pop::<EnumItem>() {
            Ok(x) => x,
            Err(e) => {
                return Err(e);
            },
        };
        proof {
            <EnumItem as SquashObject>::lemma_decode_len(c6.readable());
            lemma_popped(c6, <EnumItem as SquashObject>::spec_decode(c6.readable()).unwrap().1);
        }
        let (include_off_sale, limit, min_price, max_price, creator_name, search_keyworld) = match catalogsearchparams_pop_front(cursor) {
            Ok(t) => t,
            Err(e) => {
                return Err(e);
            },
        };
        Ok(CatalogSearchParams { include_off_sale, limit, min_price, max_price, creator_name, search_keyworld, sort_type, sort_aggregration, category_filter, sales_type_filter, asset_types })
    }
}

/// A `CatalogSearchParams` is written field by field: `include_off_sale`, then `limit`, then `min_price`, then `max_price`, then `creator_name`, then `search_keyworld`, then `sort_type`, then `sort_aggregration`, then `category_filter`, then `sales_type_filter`, then `asset_types`, each as its own type
/// writes it, one after another.
pub proof fn lemma_catalog_search_params_layout(r: CatalogSearchParams)
    ensures
        CatalogSearchParams::spec_encode(r.deep_view()) == (match (<bool as SquashObject>::spec_encode(r.include_off_sale.deep_view()), <u8 as SquashObject>::spec_encode(r.limit.deep_view()), <u32 as SquashObject>::spec_encode(r.min_price.deep_view()), <u32 as SquashObject>::spec_encode(r.max_price.deep_view()), <String as SquashObject>::spec_encode(r.creator_name.deep_view()), <String as SquashObject>::spec_encode(r.search_keyworld.deep_view()), <EnumItem as SquashObject>::spec_encode(r.sort_type.deep_view()), <EnumItem as SquashObject>::spec_encode(r.sort_aggregration.deep_view()), <EnumItem as SquashObject>::spec_encode(r.category_filter.deep_view()), <EnumItem as SquashObject>::spec_encode(r.sales_type_filter.deep_view()), <Vec<EnumItem> as SquashObject>::spec_encode(r.asset_types.deep_view())) {
            (Some(e0), Some(e1), Some(e2), Some(e3), Some(e4), Some(e5), Some(e6), Some(e7), Some(e8), Some(e9), Some(e10)) => Some(e0 + e1 + e2 + e3 + e4 + e5 + e6 + e7 + e8 + e9 + e10),
            _ => None,
        }),
{
}

} // verus!
