use noir_compute::network::{
    Coord, FairSelect, NetworkMessage, NetworkReceiver, ReceiverEndpoint, RecvTimeoutError,
    SelectResult, CHANNEL_CAPACITY,
};
use std::time::Duration;

fn endpoint(block_id: u64) -> ReceiverEndpoint {
    ReceiverEndpoint {
        coord: Coord {
            block_id,
            replica_id: 0,
        },
        prev_block_id: 0,
    }
}

#[test]
fn sender_is_handed_out_once() {
    let mut receiver = NetworkReceiver::<u32>::new(endpoint(3));
    let sender = receiver.sender().expect("first call gets the sender");
    assert_eq!(sender.receiver_endpoint, endpoint(3));
    assert!(receiver.sender().is_none());
}

#[test]
fn receiver_is_fifo_and_bounded() {
    let mut receiver = NetworkReceiver::<usize>::new(endpoint(1));
    for i in 0..CHANNEL_CAPACITY {
        assert_eq!(receiver.deliver(i), Ok(()));
    }
    assert_eq!(receiver.deliver(99), Err(99));
    for i in 0..CHANNEL_CAPACITY {
        assert_eq!(receiver.recv(), Ok(i));
    }
    assert_eq!(
        receiver.recv_timeout(Duration::from_millis(5)),
        Err(RecvTimeoutError::Timeout)
    );
}

#[test]
fn closed_receiver_drains_then_disconnects() {
    let mut receiver = NetworkReceiver::<u8>::new(endpoint(1));
    assert_eq!(receiver.deliver(7), Ok(()));
    receiver.close();
    assert_eq!(receiver.deliver(8), Err(8));
    assert_eq!(receiver.recv(), Ok(7));
    assert_eq!(receiver.recv(), Err(RecvTimeoutError::Disconnected));
}

#[test]
fn select_alternates_between_ready_sides() {
    let mut a = NetworkReceiver::<u8>::new(endpoint(1));
    let mut b = NetworkReceiver::<char>::new(endpoint(2));
    for i in 0..3 {
        a.deliver(i).unwrap();
    }
    b.deliver('x').unwrap();
    assert_eq!(a.select(&mut b), Ok(SelectResult::A(0)));
    assert_eq!(a.select(&mut b), Ok(SelectResult::B('x')));
    assert_eq!(
        a.select_timeout(&mut b, Duration::from_millis(1)),
        Ok(SelectResult::A(1))
    );
    assert_eq!(a.select(&mut b), Ok(SelectResult::A(2)));
    assert_eq!(a.select(&mut b), Err(RecvTimeoutError::Timeout));
    a.close();
    b.close();
    assert_eq!(a.select(&mut b), Err(RecvTimeoutError::Disconnected));
}

#[test]
fn select_any_looks_round_from_start() {
    let mut receivers: Vec<NetworkReceiver<u32>> =
        (0..3).map(|i| NetworkReceiver::new(endpoint(i))).collect();
    receivers[0].deliver(10).unwrap();
    receivers[2].deliver(30).unwrap();
    let r = NetworkReceiver::select_any(&mut receivers, 1).unwrap();
    assert_eq!((r.index, r.value), (2, 30));
    let r = NetworkReceiver::select_any_timeout(&mut receivers, 4, Duration::from_millis(1)).unwrap();
    assert_eq!((r.index, r.value), (0, 10));
    assert!(matches!(
        NetworkReceiver::select_any(&mut receivers, 0),
        Err(RecvTimeoutError::Timeout)
    ));
    let mut none: Vec<NetworkReceiver<u32>> = Vec::new();
    assert!(matches!(
        NetworkReceiver::select_any(&mut none, 0),
        Err(RecvTimeoutError::Disconnected)
    ));
}

#[test]
fn select_fairness() {
    let mut receivers: Vec<NetworkReceiver<u32>> =
        (0..2).map(|i| NetworkReceiver::new(endpoint(i))).collect();
    let mut produced = [0u32; 2];
    let mut won = [0u32; 2];
    let mut selector = FairSelect::new();
    loop {
        for side in 0..2 {
            while produced[side] < 10_000 && receivers[side].num_buffered() < CHANNEL_CAPACITY {
                receivers[side].deliver(produced[side]).unwrap();
                produced[side] += 1;
            }
        }
        match selector.select_any(&mut receivers) {
            Ok(r) => won[r.index] += 1,
            Err(_) => break,
        }
    }
    assert_eq!(won[0] + won[1], 20_000);
    assert!(won[0] >= 2_000 && won[1] >= 2_000);
}

#[test]
fn message_reports_sender_and_size() {
    let sender = Coord {
        block_id: 4,
        replica_id: 2,
    };
    let message = NetworkMessage::<u8>::new_batch(Vec::new(), sender);
    assert_eq!(message.sender(), sender);
    assert_eq!(message.num_items(), 0);
}

#[test]
fn fair_select_goes_round_the_ring() {
    let mut receivers: Vec<NetworkReceiver<u32>> =
        (0..3).map(|i| NetworkReceiver::new(endpoint(i))).collect();
    for r in receivers.iter_mut() {
        for v in 0..2 {
            r.deliver(v).unwrap();
        }
    }
    let mut selector = FairSelect::new();
    let order: Vec<usize> = (0..6)
        .map(|_| selector.select_any(&mut receivers).unwrap().index)
        .collect();
    assert_eq!(order, vec![0, 1, 2, 0, 1, 2]);
    assert!(matches!(
        selector.select_any(&mut receivers),
        Err(RecvTimeoutError::Timeout)
    ));
}
