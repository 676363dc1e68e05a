use noir_compute::binary::{BinaryElement, BinaryStartReceiver};
use noir_compute::element::StreamElement;
use noir_compute::binary::BinaryElement::{Left, LeftEnd, Right, RightEnd};
use noir_compute::element::StreamElement::{FlushAndRestart, Item, Terminate};
use noir_compute::network::{Coord, NetworkMessage, RecvTimeoutError};

type El = StreamElement<BinaryElement<i32, i32>>;

fn coord(block_id: u64) -> Coord {
    Coord {
        block_id,
        replica_id: 0,
    }
}

fn drain(receiver: &mut BinaryStartReceiver<i32, i32>, batches: usize) -> Vec<El> {
    let mut out = Vec::new();
    for _ in 0..batches {
        let message = receiver.recv().expect("a batch is ready");
        out.extend(message.batch);
    }
    out
}

#[test]
fn binary_merge_with_cache() {
    let mut receiver = BinaryStartReceiver::<i32, i32>::new(1, 2, true, false);
    receiver.setup(1, 1);
    let left = vec![
        StreamElement::Item(1),
        StreamElement::Item(2),
        StreamElement::FlushAndRestart,
        StreamElement::Terminate,
    ];
    assert!(receiver
        .deliver_left(NetworkMessage::new_batch(left, coord(1)))
        .is_ok());
    for batch in [
        vec![StreamElement::Item(10), StreamElement::FlushAndRestart],
        vec![StreamElement::Item(20), StreamElement::FlushAndRestart],
        vec![StreamElement::Terminate],
    ] {
        assert!(receiver
            .deliver_right(NetworkMessage::new_batch(batch, coord(2)))
            .is_ok());
    }

    let expected: Vec<El> = vec![
        Item(Left(1)),
        Item(Left(2)),
        Item(LeftEnd),
        FlushAndRestart,
        Item(Right(10)),
        Item(RightEnd),
        FlushAndRestart,
        Item(Right(20)),
        Item(RightEnd),
        FlushAndRestart,
        Item(Left(1)),
        Item(Left(2)),
        Item(LeftEnd),
        FlushAndRestart,
        Terminate,
        Terminate,
    ];
    assert_eq!(drain(&mut receiver, 6), expected);
    assert_eq!(drain(&mut receiver, 1), vec![Terminate]);
}

#[test]
fn two_iteration_cache_replay() {
    let mut receiver = BinaryStartReceiver::<char, char>::new(1, 2, true, false);
    receiver.setup(1, 1);
    let left = vec![
        StreamElement::Item('a'),
        StreamElement::Item('b'),
        StreamElement::FlushAndRestart,
        StreamElement::Terminate,
    ];
    assert!(receiver
        .deliver_left(NetworkMessage::new_batch(left, coord(1)))
        .is_ok());
    for batch in [
        vec![StreamElement::Item('x'), StreamElement::FlushAndRestart],
        vec![StreamElement::Item('y'), StreamElement::FlushAndRestart],
        vec![StreamElement::Terminate],
    ] {
        assert!(receiver
            .deliver_right(NetworkMessage::new_batch(batch, coord(2)))
            .is_ok());
    }
    let mut out = Vec::new();
    for _ in 0..4 {
        out.extend(receiver.recv().unwrap().batch);
    }
    let expected: Vec<StreamElement<BinaryElement<char, char>>> = vec![
        Item(Left('a')),
        Item(Left('b')),
        Item(LeftEnd),
        FlushAndRestart,
        Item(Right('x')),
        Item(RightEnd),
        FlushAndRestart,
        Item(Right('y')),
        Item(RightEnd),
        FlushAndRestart,
        Item(Left('a')),
        Item(Left('b')),
        Item(LeftEnd),
        FlushAndRestart,
    ];
    assert_eq!(out, expected);
}

#[test]
fn binary_without_cache_counts_every_replica() {
    let mut receiver = BinaryStartReceiver::<i32, i32>::new(1, 2, false, false);
    receiver.setup(2, 1);
    let first = vec![StreamElement::Item(1), StreamElement::FlushAndRestart];
    let second = vec![StreamElement::Item(2), StreamElement::FlushAndRestart];
    assert!(receiver
        .deliver_left(NetworkMessage::new_batch(first, coord(1)))
        .is_ok());
    let out = receiver.recv().unwrap().batch;
    assert_eq!(
        out,
        vec![
            StreamElement::Item(BinaryElement::Left(1)),
            StreamElement::FlushAndRestart
        ]
    );
    assert!(receiver
        .deliver_left(NetworkMessage::new_batch(second, coord(1)))
        .is_ok());
    let out = receiver.recv().unwrap().batch;
    assert_eq!(
        out,
        vec![
            StreamElement::Item(BinaryElement::Left(2)),
            StreamElement::Item(BinaryElement::LeftEnd),
            StreamElement::FlushAndRestart
        ]
    );
    assert_eq!(receiver.recv().unwrap_err(), RecvTimeoutError::Timeout);
}

#[test]
fn binary_cached_replicas() {
    let mut receiver = BinaryStartReceiver::<i32, i32>::new(1, 2, false, true);
    receiver.setup(2, 3);
    assert_eq!(receiver.cached_replicas(), 3);
    let mut plain = BinaryStartReceiver::<i32, i32>::new(1, 2, false, false);
    plain.setup(2, 3);
    assert_eq!(plain.cached_replicas(), 0);
}

#[test]
fn cache_waits_for_the_driving_side() {
    let mut receiver = BinaryStartReceiver::<i32, i32>::new(1, 2, true, false);
    receiver.setup(1, 1);
    let left = vec![Item(1), FlushAndRestart, Terminate];
    assert!(receiver.deliver_left(NetworkMessage::new_batch(left, coord(1))).is_ok());
    assert!(receiver
        .deliver_right(NetworkMessage::new_batch(vec![Item(10), FlushAndRestart], coord(2)))
        .is_ok());
    assert_eq!(drain(&mut receiver, 2).len(), 6);
    // A new pass begins, but the right side has sent nothing yet.
    assert_eq!(receiver.recv().unwrap_err(), RecvTimeoutError::Timeout);
    assert_eq!(receiver.recv().unwrap_err(), RecvTimeoutError::Timeout);
    assert!(receiver
        .deliver_right(NetworkMessage::new_batch(vec![Item(20), FlushAndRestart], coord(2)))
        .is_ok());
    assert_eq!(
        drain(&mut receiver, 2),
        vec![
            Item(Right(20)),
            Item(RightEnd),
            FlushAndRestart,
            Item(Left(1)),
            Item(LeftEnd),
            FlushAndRestart
        ]
    );
}

#[test]
fn delivery_fails_only_when_full() {
    let mut receiver = BinaryStartReceiver::<i32, i32>::new(1, 2, false, false);
    receiver.setup(1, 1);
    for _ in 0..noir_compute::network::CHANNEL_CAPACITY {
        assert!(receiver
            .deliver_left(NetworkMessage::new_batch(vec![Item(1)], coord(1)))
            .is_ok());
    }
    assert!(receiver
        .deliver_left(NetworkMessage::new_batch(vec![Item(2)], coord(1)))
        .is_err());
    assert!(receiver
        .deliver_right(NetworkMessage::new_batch(vec![Item(3)], coord(2)))
        .is_ok());
}
