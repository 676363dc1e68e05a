use noir_compute::element::{timestamp_max, StreamElement};

#[test]
fn element_take_keeps_variant() {
    assert_eq!(StreamElement::Item(5).take(), StreamElement::Item(()));
    assert_eq!(StreamElement::Timestamped(5, 2).take(), StreamElement::Item(()));
    assert_eq!(
        StreamElement::<u8>::Watermark(7).take(),
        StreamElement::Watermark(7)
    );
    assert_eq!(StreamElement::<u8>::Terminate.take(), StreamElement::Terminate);
}

#[test]
fn element_map_changes_payload_only() {
    assert_eq!(StreamElement::Item(3).map(|x: i32| x * 2), StreamElement::Item(6));
    assert_eq!(
        StreamElement::Timestamped(3, 9).map(|x: i32| x + 1),
        StreamElement::Timestamped(4, 9)
    );
    assert_eq!(
        StreamElement::<i32>::FlushAndRestart.map(|x: i32| x + 1),
        StreamElement::FlushAndRestart
    );
}

#[test]
fn element_variant_names() {
    assert_eq!(StreamElement::Item(1).variant(), "Item");
    assert_eq!(StreamElement::Timestamped(1, 1).variant(), "Timestamped");
    assert_eq!(StreamElement::<u8>::Watermark(1).variant(), "Watermark");
    assert_eq!(StreamElement::<u8>::FlushBatch.variant(), "FlushBatch");
    assert_eq!(StreamElement::<u8>::Terminate.variant(), "Terminate");
    assert_eq!(StreamElement::<u8>::FlushAndRestart.variant(), "FlushAndRestart");
}

#[test]
fn element_remove_key() {
    assert_eq!(
        StreamElement::Item(("k", 1)).remove_key(),
        (Some("k"), StreamElement::Item(1))
    );
    assert_eq!(
        StreamElement::Timestamped(("k", 1), 4).remove_key(),
        (Some("k"), StreamElement::Timestamped(1, 4))
    );
    assert_eq!(
        StreamElement::<(&str, i32)>::Watermark(2).remove_key(),
        (None, StreamElement::Watermark(2))
    );
}

#[test]
fn largest_timestamp() {
    assert_eq!(timestamp_max(), i64::MAX);
}
