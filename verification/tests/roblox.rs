use squash::{deserialize, serialize};
use squash::{
    Axes, BoolTuple3, BoolTuple8, CatalogSearchParams, Cframe, CframeRotSegments, Color3, ColorSequence,
    ColorSequenceKeypoint, DateTime, EnumItem, Faces, Font, NumberRange, Region3int16, Udim, Udim2, Vector2,
    Vector3, Vector3int16, Vlq,
};

#[test]
fn color3_pushes_blue_green_red() {
    let c = Color3 { b: 1, g: 2, r: 3 };
    assert_eq!(serialize(c).unwrap(), vec![1, 2, 3]);
    assert_eq!(deserialize::<Color3>(vec![1, 2, 3]).unwrap(), c);
}

#[test]
fn vector2_pushes_x_then_y() {
    let v = Vector2::new(1u8, 2u8);
    assert_eq!(serialize(v).unwrap(), vec![1, 2]);
    assert_eq!(deserialize::<Vector2<u8>>(vec![1, 2]).unwrap(), v);
}

#[test]
fn number_range_pushes_max_then_min() {
    let r = NumberRange { min: 1u8, max: 2u8 };
    assert_eq!(serialize(r).unwrap(), vec![2, 1]);
    assert_eq!(deserialize::<NumberRange<u8>>(vec![2, 1]).unwrap(), r);
}

#[test]
fn nested_records_round_trip() {
    let u = Udim2 { y: Udim { offset: -3i16, scale: 4i16 }, x: Udim { offset: 5i16, scale: -6i16 } };
    assert_eq!(deserialize::<Udim2<i16>>(serialize(u).unwrap()).unwrap(), u);
    let r = Region3int16 { min: Vector3int16 { x: 1, y: 2, z: 3 }, max: Vector3int16 { x: -1, y: -2, z: -3 } };
    assert_eq!(deserialize::<Region3int16>(serialize(r).unwrap()).unwrap(), r);
    let k = ColorSequenceKeypoint { value: Color3 { b: 9, g: 8, r: 7 }, time: 6 };
    assert_eq!(serialize(k).unwrap(), vec![9, 8, 7, 6]);
    assert_eq!(deserialize::<ColorSequenceKeypoint>(vec![9, 8, 7, 6]).unwrap(), k);
}

#[test]
fn sequences_round_trip_only_when_empty() {
    let s = ColorSequence(Vec::new());
    assert_eq!(serialize(s.clone()).unwrap(), vec![0]);
    assert_eq!(deserialize::<ColorSequence>(vec![0]).unwrap(), s);
}

#[test]
fn axes_exchange_bottom_and_front() {
    let a = Axes { bottom: true, ..Axes::default() };
    assert_eq!(u16::from(a), 2);
    assert_eq!(serialize(a).unwrap(), vec![2, 0]);
    let back = deserialize::<Axes>(vec![2, 0]).unwrap();
    assert_eq!(back, Axes { front: true, ..Axes::default() });
    let b = Axes { x: true, z: true, top: true, ..Axes::default() };
    assert_eq!(u16::from(b), 256 + 1024 + 32);
    assert_eq!(deserialize::<Axes>(serialize(b).unwrap()).unwrap(), b);
}

#[test]
fn faces_round_trip() {
    let f = Faces { back: true, left: true, top: true, ..Faces::default() };
    assert_eq!(u8::from(f), 1 + 8 + 32);
    assert_eq!(Faces::from(0xffu8), Faces { back: true, bottom: true, front: true, left: true, right: true, top: true });
    assert_eq!(deserialize::<Faces>(serialize(f).unwrap()).unwrap(), f);
}

#[test]
fn bool_tuples_pack_into_a_byte() {
    assert_eq!(serialize(BoolTuple3(true, false, true)).unwrap(), vec![5]);
    assert_eq!(deserialize::<BoolTuple3>(vec![5]).unwrap(), BoolTuple3(true, false, true));
    let t = BoolTuple8(false, true, false, true, false, true, false, true);
    assert_eq!(serialize(t).unwrap(), vec![0xaa]);
    assert_eq!(deserialize::<BoolTuple8>(vec![0xaa]).unwrap(), t);
}

#[test]
fn cframe_special_ids() {
    let c = Cframe::<u8> { rotation: CframeRotSegments::new(1608, 0, 0), position: Vector3 { x: 0, y: 0, z: 0 } };
    assert_eq!(c.special_id(), Some(2));
    let dup = Cframe::<u8> { rotation: CframeRotSegments::new(-1239, -1239, 1238), position: Vector3 { x: 1, y: 2, z: 3 } };
    assert_eq!(dup.special_id(), Some(8));
    let none = Cframe::<u8> { rotation: CframeRotSegments::new(1, 2, 3), position: Vector3 { x: 0, y: 0, z: 0 } };
    assert_eq!(none.special_id(), None);
    let f = Cframe::<u8>::from_special_id(23).unwrap();
    assert_eq!(f.rotation, CframeRotSegments::new(0, 1608, 0));
    assert_eq!(f.position, Vector3 { x: 0, y: 0, z: 0 });
    assert!(Cframe::<u8>::from_special_id(26).is_none());
    assert!(CframeRotSegments::from_special_id(200).is_none());
}

#[test]
fn cframe_rotation_pushes_x_y_z() {
    assert_eq!(serialize(CframeRotSegments::new(1, 2, 3)).unwrap(), vec![1, 0, 2, 0, 3, 0]);
    let c = Cframe::<i16> { rotation: CframeRotSegments::new(-1, 0, 1), position: Vector3 { x: 4, y: 5, z: 6 } };
    assert_eq!(deserialize::<Cframe<i16>>(serialize(c).unwrap()).unwrap(), c);
}

#[test]
fn enum_items_and_dates() {
    assert_eq!(serialize(EnumItem(Vlq(5))).unwrap(), vec![5]);
    let d = DateTime(squash::u48::new(1).unwrap());
    assert_eq!(serialize(d).unwrap(), vec![1, 0, 0, 0, 0, 0]);
    assert_eq!(deserialize::<DateTime>(vec![1, 0, 0, 0, 0, 0]).unwrap(), d);
}

#[test]
fn font_and_catalog_params_round_trip() {
    let f = Font { family: "A".to_string(), bold: true, weight: EnumItem(Vlq(1)), style: EnumItem(Vlq(2)) };
    assert_eq!(serialize(f.clone()).unwrap(), vec![b'A', 1, 1, 1, 2]);
    assert_eq!(deserialize::<Font>(vec![b'A', 1, 1, 1, 2]).unwrap(), f);
    let p = CatalogSearchParams { limit: 10, creator_name: "me".to_string(), max_price: 99, ..Default::default() };
    assert_eq!(deserialize::<CatalogSearchParams>(serialize(p.clone()).unwrap()).unwrap(), p);
}
