use skiplist::to_id::ToId;
use skiplist::ids::IntoIdentifierIterator;
use skiplist::from_id::FromId;

#[test]
fn to_id_new() {
    let tid = ToId::new("tid");
    assert_eq!(tid.to_string(), "tid".to_string());
}

#[test]
fn to_id_to_debug() {
    let tid = ToId::from(10_u32);
    assert_eq!(tid.to_debug(), "tid=[10]");
}

#[test]
fn to_id_to_display() {
    let tid = ToId::from("tid");
    assert_eq!(tid.to_string(), "tid");
}

#[test]
fn to_id_from_default() {
    let tid = ToId::<u32>::default();
    assert_eq!(tid.as_ref(), &0);
}

#[test]
fn to_id_eq() {
    let tid1 = ToId::from("tid");
    let tid2 = ToId::from("tid");
    assert_eq!(tid1, tid2);
}

#[test]
fn from_fid() {
    let fid = FromId::from("fid");
    let tid = ToId::<&str>::from(fid);
    assert_eq!(tid.0, "fid");
}

#[test]
fn to_id_iter_ids_u32() {
    let id = ToId::from(10_u32);
    let mut iter = id.into_ids_iterator(|tid| (tid.0 + 1).into());
    assert_eq!(iter.next(), Some(10.into()));
    assert_eq!(iter.next(), Some(11.into()));
}

#[test]
fn to_id_iter_ids_str() {
    let id = ToId::from("a");
    let mut iter = id.into_ids_iterator(|tid| tid.0.into());
    assert_eq!(iter.next(), Some("a".into()));
    assert_eq!(iter.next(), Some("a".into()));
}

#[test]
fn to_id_ne() {
    assert_ne!(ToId::from("a"), ToId::from("b"));
    assert_eq!(ToId::from(7_u8).clone(), ToId::new(7_u8));
}

#[test]
fn to_id_to_debug_of_text() {
    assert_eq!(ToId::new("a").to_debug(), "tid=[\"a\"]");
}
