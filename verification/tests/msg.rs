use skiplist::from_id::FromId;
use skiplist::msg::Message;
use skiplist::to_id::ToId;

#[test]
fn message_keeps_both_ends() {
    let msg = Message::<u32>::new(1_u32, 2_u32);
    assert_eq!(*msg.fid(), FromId::new(1));
    assert_eq!(*msg.tid(), ToId::new(2));
}

#[test]
fn message_from_identifiers() {
    let msg = Message::<&str>::new(FromId::new("a"), ToId::new("b"));
    assert_eq!(msg.fid().0, "a");
    assert_eq!(msg.tid().0, "b");
}

#[test]
fn message_swaps_ends_through_conversion() {
    let msg = Message::<&str>::new(ToId::new("b"), FromId::new("a"));
    assert_eq!(msg.fid().0, "b");
    assert_eq!(msg.tid().0, "a");
}
