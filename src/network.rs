use std::collections::VecDeque;
use std::time::Duration;
use vstd::prelude::*;

use crate::element::StreamElement;

verus! {

/// Integer type of block, host and replica identifiers.
pub type CoordUInt = u64;

/// Identifier of a block of the job.
pub type BlockId = CoordUInt;

/// How many messages a receiver buffers before senders are refused.
pub const CHANNEL_CAPACITY: usize = 10;

/// One replica of one block: unique within a job.
#[derive(Debug, Clone, Copy, PartialEq, Eq, Hash)]
pub struct Coord {
    pub block_id: BlockId,
    pub replica_id: CoordUInt,
}

/// One directed edge: the replica that receives and the block that sends to it.
#[derive(Debug, Clone, Copy, PartialEq, Eq, Hash)]
pub struct ReceiverEndpoint {
    pub coord: Coord,
    pub prev_block_id: BlockId,
}

/// A batch of stream elements with the replica that sent it.
#[derive(Debug, Clone)]
pub struct NetworkMessage<T> {
    pub batch: Vec<StreamElement<T>>,
    pub sender: Coord,
}

impl<T> NetworkMessage<T> {
    /// A message carrying `batch`, sent by `sender`.
    pub fn new_batch(batch: Vec<StreamElement<T>>, sender: Coord) -> (r: Self)
        ensures
            r.batch@ == batch@,
            r.sender == sender,
    {
        NetworkMessage { batch, sender }
    }

    /// The replica that sent this message.
    pub fn sender(&self) -> (r: Coord)
        ensures
            r == self.sender,
    {
        self.sender
    }

    /// The number of elements in the batch.
    pub fn num_items(&self) -> (r: usize)
        ensures
            r == self.batch@.len(),
    {
        self.batch.len()
    }
}

/// Why a receive gave no message.
#[derive(Debug, Clone, Copy, PartialEq, Eq)]
pub enum RecvTimeoutError {
    /// Nothing is buffered, but senders may still deliver.
    Timeout,
    /// Nothing is buffered and every sender is gone.
    Disconnected,
}

/// The side of a two-way select that delivered, with its message.
#[derive(Debug, Clone, PartialEq, Eq)]
pub enum SelectResult<In1, In2> {
    A(In1),
    B(In2),
}

/// The receiver that delivered in a select over many, with its message.
#[derive(Debug, Clone, PartialEq, Eq)]
pub struct SelectAnyResult<In> {
    pub index: usize,
    pub value: In,
}

/// The position `d` steps after `s` on a ring of `n` positions, for `s, d < n`.
pub open spec fn ring_step(s: int, d: int, n: int) -> int {
    if s + d < n {
        s + d
    } else {
        s + d - n
    }
}

/// `b` is `a` with its oldest message taken.
pub open spec fn popped<In>(a: NetworkReceiver<In>, b: NetworkReceiver<In>) -> bool {
    &&& a.queue().len() > 0
    &&& b.queue() == a.queue().drop_first()
    &&& b.is_connected() == a.is_connected()
    &&& b.sender_given() == a.sender_given()
    &&& b.endpoint() == a.endpoint()
    &&& a.wf() ==> b.wf()
}

/// `b` is `a` with the tie of its next two-way select given to the other side.
pub open spec fn turned<In>(a: NetworkReceiver<In>, b: NetworkReceiver<In>) -> bool {
    &&& b.queue() == a.queue()
    &&& b.is_connected() == a.is_connected()
    &&& b.sender_given() == a.sender_given()
    &&& b.endpoint() == a.endpoint()
    &&& b.turn() == !a.turn()
    &&& a.wf() ==> b.wf()
}

/// The handle through which messages reach a receiver's endpoint.
#[derive(Debug, Clone, Copy, PartialEq, Eq)]
pub struct NetworkSender {
    pub receiver_endpoint: ReceiverEndpoint,
}

/// The receiving end of a connection between two replicas: a bounded FIFO.
///
/// Messages are buffered in arrival order, at most `CHANNEL_CAPACITY` of them.
/// The receiver hands out its sender once. Waiting cannot make a message
/// arrive, so a receive on an empty buffer answers at once: `Disconnected`
/// when the senders are gone, else `Timeout`.
pub struct NetworkReceiver<In> {
    pub receiver_endpoint: ReceiverEndpoint,
    buffer: VecDeque<In>,
    sender_given: bool,
    connected: bool,
    turn: bool,
}

impl<In> NetworkReceiver<In> {
    /// The endpoint this receiver serves.
    pub closed spec fn endpoint(&self) -> ReceiverEndpoint {
        self.receiver_endpoint
    }

    /// The buffered messages, oldest first.
    pub closed spec fn queue(&self) -> Seq<In> {
        self.buffer@
    }

    /// Whether senders may still deliver.
    pub closed spec fn is_connected(&self) -> bool {
        self.connected
    }

    /// Whether the sender has been handed out.
    pub closed spec fn sender_given(&self) -> bool {
        self.sender_given
    }

    /// Whether the next tie of a two-way select goes to the other receiver.
    pub closed spec fn turn(&self) -> bool {
        self.turn
    }

    /// The state invariant.
    pub closed spec fn wf(&self) -> bool {
        self.buffer@.len() <= CHANNEL_CAPACITY
    }

    /// A receiver for `receiver_endpoint`, empty and connected.
    pub fn new(receiver_endpoint: ReceiverEndpoint) -> (r: Self)
        ensures
            r.wf(),
            r.endpoint() == receiver_endpoint,
            r.queue().len() == 0,
            r.is_connected(),
            !r.sender_given(),
            !r.turn(),
    {
        NetworkReceiver {
            receiver_endpoint,
            buffer: VecDeque::new(),
            sender_given: false,
            connected: true,
            turn: false,
        }
    }

    /// The sender of this receiver; only the first call gets it.
    pub fn sender(&mut self) -> (r: Option<NetworkSender>)
        ensures
            r == if old(self).sender_given() {
                None
            } else {
                Some(NetworkSender { receiver_endpoint: old(self).endpoint() })
            },
            final(self).sender_given(),
            final(self).queue() == old(self).queue(),
            final(self).is_connected() == old(self).is_connected(),
            final(self).turn() == old(self).turn(),
            final(self).endpoint() == old(self).endpoint(),
            old(self).wf() ==> final(self).wf(),
    {
        if self.sender_given {
            None
        } else {
            self.sender_given = true;
            Some(NetworkSender { receiver_endpoint: self.receiver_endpoint })
        }
    }

    /// Delivers `message` at the back of the buffer; a full buffer or a closed
    /// connection hands it back.
    pub fn deliver(&mut self, message: In) -> (r: Result<(), In>)
        requires
            old(self).wf(),
        ensures
            final(self).wf(),
            old(self).is_connected() && old(self).queue().len() < CHANNEL_CAPACITY ==> r is Ok
                && final(self).queue() == old(self).queue().push(message),
            !(old(self).is_connected() && old(self).queue().len() < CHANNEL_CAPACITY) ==> r
                == Err::<(), In>(message) && final(self).queue() == old(self).queue(),
            final(self).is_connected() == old(self).is_connected(),
            final(self).sender_given() == old(self).sender_given(),
            final(self).turn() == old(self).turn(),
            final(self).endpoint() == old(self).endpoint(),
    {
        if self.connected && self.buffer.len() < CHANNEL_CAPACITY {
            self.buffer.push_back(message);
            Ok(())
        } else {
            Err(message)
        }
    }

    /// Drops the senders: once the buffer is drained, receives see `Disconnected`.
    pub fn close(&mut self)
        ensures
            !final(self).is_connected(),
            final(self).queue() == old(self).queue(),
            final(self).sender_given() == old(self).sender_given(),
            final(self).turn() == old(self).turn(),
            final(self).endpoint() == old(self).endpoint(),
            old(self).wf() ==> final(self).wf(),
    {
        self.connected = false;
    }

    /// Takes the oldest buffered message.
    pub fn recv(&mut self) -> (r: Result<In, RecvTimeoutError>)
        ensures
            old(self).queue().len() > 0 ==> r == Ok::<In, RecvTimeoutError>(old(self).queue()[0])
                && final(self).queue() == old(self).queue().drop_first(),
            old(self).queue().len() == 0 ==> *final(self) == *old(self) && r == Err::<
                In,
                RecvTimeoutError,
            >(
                if old(self).is_connected() {
                    RecvTimeoutError::Timeout
                } else {
                    RecvTimeoutError::Disconnected
                },
            ),
            final(self).is_connected() == old(self).is_connected(),
            final(self).sender_given() == old(self).sender_given(),
            final(self).turn() == old(self).turn(),
            final(self).endpoint() == old(self).endpoint(),
            old(self).wf() ==> final(self).wf(),
    {
        if self.buffer.len() == 0 {
            if self.connected {
                Err(RecvTimeoutError::Timeout)
            } else {
                Err(RecvTimeoutError::Disconnected)
            }
        } else {
            Ok(self.buffer.pop_front().unwrap())
        }
    }

    /// How many messages are buffered.
    pub fn num_buffered(&self) -> (r: usize)
        ensures
            r == self.queue().len(),
    {
        self.buffer.len()
    }

    /// Whether senders may still deliver.
    pub fn connected(&self) -> (r: bool)
        ensures
            r == self.is_connected(),
    {
        self.connected
    }

    /// Like `recv`: the wait for `timeout` cannot bring a message.
    pub fn recv_timeout(&mut self, timeout: Duration) -> (r: Result<In, RecvTimeoutError>)
        ensures
            old(self).queue().len() > 0 ==> r == Ok::<In, RecvTimeoutError>(old(self).queue()[0])
                && final(self).queue() == old(self).queue().drop_first(),
            old(self).queue().len() == 0 ==> *final(self) == *old(self) && r == Err::<
                In,
                RecvTimeoutError,
            >(
                if old(self).is_connected() {
                    RecvTimeoutError::Timeout
                } else {
                    RecvTimeoutError::Disconnected
                },
            ),
            final(self).is_connected() == old(self).is_connected(),
            final(self).sender_given() == old(self).sender_given(),
            final(self).turn() == old(self).turn(),
            final(self).endpoint() == old(self).endpoint(),
            old(self).wf() ==> final(self).wf(),
    {
        self.recv()
    }

    /// Takes the oldest message of this receiver or of `other`, whichever has
    /// one. When both have one, the choice alternates from call to call, so
    /// neither side is starved: the first tie goes to this receiver.
    pub fn select<In2>(&mut self, other: &mut NetworkReceiver<In2>) -> (r: Result<
        SelectResult<In, In2>,
        RecvTimeoutError,
    >)
        ensures
            ({
                let a = old(self).queue();
                let b = old(other).queue();
                let take_a = a.len() > 0 && (b.len() == 0 || !old(self).turn());
                let take_b = b.len() > 0 && (a.len() == 0 || old(self).turn());
                &&& take_a ==> r == Ok::<SelectResult<In, In2>, RecvTimeoutError>(
                    SelectResult::A(a[0]),
                ) && final(self).queue() == a.drop_first() && final(other).queue() == b
                &&& take_b ==> r == Ok::<SelectResult<In, In2>, RecvTimeoutError>(
                    SelectResult::B(b[0]),
                ) && final(other).queue() == b.drop_first() && final(self).queue() == a
                &&& a.len() == 0 && b.len() == 0 ==> final(self).queue() == a && final(other).queue() == b && r == Err::<SelectResult<In, In2>, RecvTimeoutError>(
                    if old(self).is_connected() || old(other).is_connected() {
                        RecvTimeoutError::Timeout
                    } else {
                        RecvTimeoutError::Disconnected
                    },
                )
                &&& final(self).turn() == if a.len() > 0 && b.len() > 0 {
                    !old(self).turn()
                } else {
                    old(self).turn()
                }
                &&& take_a ==> *final(other) == *old(other)
                &&& b.len() == 0 ==> *final(other) == *old(other)
                &&& a.len() == 0 ==> *final(self) == *old(self)
            }),
            final(self).is_connected() == old(self).is_connected(),
            final(other).is_connected() == old(other).is_connected(),
            final(self).sender_given() == old(self).sender_given(),
            final(other).sender_given() == old(other).sender_given(),
            final(other).turn() == old(other).turn(),
            final(self).endpoint() == old(self).endpoint(),
            final(other).endpoint() == old(other).endpoint(),
            old(self).wf() ==> final(self).wf(),
            old(other).wf() ==> final(other).wf(),
    {
        let a_ready = self.buffer.len() > 0;
        let b_ready = other.buffer.len() > 0;
        if a_ready && b_ready {
            let pick_b = self.turn;
            self.turn = !self.turn;
            if pick_b {
                match other.recv() {
                    Ok(m) => Ok(SelectResult::B(m)),
                    Err(e) => Err(e),
                }
            } else {
                match self.recv() {
                    Ok(m) => Ok(SelectResult::A(m)),
                    Err(e) => Err(e),
                }
            }
        } else if a_ready {
            match self.recv() {
                Ok(m) => Ok(SelectResult::A(m)),
                Err(e) => Err(e),
            }
        } else if b_ready {
            match other.recv() {
                Ok(m) => Ok(SelectResult::B(m)),
                Err(e) => Err(e),
            }
        } else if self.connected || other.connected {
            Err(RecvTimeoutError::Timeout)
        } else {
            Err(RecvTimeoutError::Disconnected)
        }
    }

    /// Like `select`: the wait for `timeout` cannot bring a message.
    pub fn select_timeout<In2>(
        &mut self,
        other: &mut NetworkReceiver<In2>,
        timeout: Duration,
    ) -> (r: Result<SelectResult<In, In2>, RecvTimeoutError>)
        ensures
            ({
                let a = old(self).queue();
                let b = old(other).queue();
                let take_a = a.len() > 0 && (b.len() == 0 || !old(self).turn());
                let take_b = b.len() > 0 && (a.len() == 0 || old(self).turn());
                &&& take_a ==> r == Ok::<SelectResult<In, In2>, RecvTimeoutError>(
                    SelectResult::A(a[0]),
                ) && final(self).queue() == a.drop_first() && final(other).queue() == b
                &&& take_b ==> r == Ok::<SelectResult<In, In2>, RecvTimeoutError>(
                    SelectResult::B(b[0]),
                ) && final(other).queue() == b.drop_first() && final(self).queue() == a
                &&& a.len() == 0 && b.len() == 0 ==> final(self).queue() == a && final(other).queue() == b && r == Err::<SelectResult<In, In2>, RecvTimeoutError>(
                    if old(self).is_connected() || old(other).is_connected() {
                        RecvTimeoutError::Timeout
                    } else {
                        RecvTimeoutError::Disconnected
                    },
                )
                &&& final(self).turn() == if a.len() > 0 && b.len() > 0 {
                    !old(self).turn()
                } else {
                    old(self).turn()
                }
                &&& take_a ==> *final(other) == *old(other)
                &&& b.len() == 0 ==> *final(other) == *old(other)
                &&& a.len() == 0 ==> *final(self) == *old(self)
            }),
            final(self).is_connected() == old(self).is_connected(),
            final(other).is_connected() == old(other).is_connected(),
            final(self).sender_given() == old(self).sender_given(),
            final(other).sender_given() == old(other).sender_given(),
            final(other).turn() == old(other).turn(),
            final(self).endpoint() == old(self).endpoint(),
            final(other).endpoint() == old(other).endpoint(),
            old(self).wf() ==> final(self).wf(),
            old(other).wf() ==> final(other).wf(),
    {
        self.select(other)
    }

    /// Takes the oldest message of the first receiver that has one, looking
    /// round the ring from position `start % receivers.len()`. Callers rotate
    /// `start` so that no receiver is starved.
    pub fn select_any(receivers: &mut Vec<NetworkReceiver<In>>, start: usize) -> (r: Result<
        SelectAnyResult<In>,
        RecvTimeoutError,
    >)
        ensures
            final(receivers).len() == old(receivers).len(),
            r matches Ok(res) ==> {
                let n = old(receivers).len() as int;
                let s = start as int % n;
                let i = res.index as int;
                let q = old(receivers)[i].queue();
                &&& 0 <= i < n
                &&& q.len() > 0
                &&& res.value == q[0]
                &&& final(receivers)[i].queue() == q.drop_first()
                &&& final(receivers)[i].is_connected() == old(receivers)[i].is_connected()
                &&& final(receivers)[i].sender_given() == old(receivers)[i].sender_given()
                &&& final(receivers)[i].turn() == old(receivers)[i].turn()
                &&& final(receivers)[i].endpoint() == old(receivers)[i].endpoint()
                &&& old(receivers)[i].wf() ==> final(receivers)[i].wf()
                &&& forall|j: int| 0 <= j < n && j != i ==> final(receivers)[j] == old(receivers)[j]
                &&& forall|d: int|
                    0 <= d < n && ring_step(s, d, n) == i ==> forall|e: int|
                        0 <= e < d ==> old(receivers)[ring_step(s, e, n)].queue().len() == 0
            },
            r is Err ==> final(receivers)@ == old(receivers)@ && forall|j: int|
                0 <= j < old(receivers).len() ==> (#[trigger] old(receivers)[j]).queue().len()
                    == 0,
            r == Err::<SelectAnyResult<In>, RecvTimeoutError>(RecvTimeoutError::Timeout)
                <==> (exists|j: int|
                0 <= j < old(receivers).len() && (#[trigger] old(receivers)[j]).is_connected())
                && forall|j: int|
                0 <= j < old(receivers).len() ==> (#[trigger] old(receivers)[j]).queue().len()
                    == 0,
    {
        let n = receivers.len();
        if n == 0 {
            return Err(RecvTimeoutError::Disconnected);
        }
        let s = start % n;
        let mut idx: usize = s;
        let mut d: usize = 0;
        while d < n
            invariant
                n == receivers.len(),
                s == start as int % n as int,
                0 <= s < n,
                d <= n,
                idx == ring_step(s as int, d as int, n as int),
                d < n ==> idx < n,
                receivers@ == old(receivers)@,
                forall|e: int|
                    0 <= e < d ==> old(receivers)[ring_step(s as int, e, n as int)].queue().len()
                        == 0,
            decreases n - d,
        {
            if receivers[idx].num_buffered() > 0 {
                let value = receivers[idx].recv().unwrap();
                proof {
                    assert forall|dd: int|
                        0 <= dd < n && ring_step(s as int, dd, n as int) == idx implies forall|e: int|
                        0 <= e < dd ==> old(receivers)[ring_step(
                            s as int,
                            e,
                            n as int,
                        )].queue().len() == 0 by {
                        assert(dd == d);
                    }
                }
                return Ok(SelectAnyResult { index: idx, value });
            }
            d = d + 1;
            idx = if idx + 1 == n {
                0
            } else {
                idx + 1
            };
        }
        proof {
            assert forall|j: int| 0 <= j < n implies (#[trigger] old(receivers)[j]).queue().len()
                == 0 by {
                let e = if j >= s {
                    j - s
                } else {
                    j + n - s
                };
                assert(ring_step(s as int, e, n as int) == j);
            }
        }
        let mut k: usize = 0;
        while k < n
            invariant
                n == receivers.len(),
                k <= n,
                receivers@ == old(receivers)@,
                forall|j: int| 0 <= j < k ==> !(#[trigger] receivers[j]).is_connected(),
                forall|j: int| 0 <= j < n ==> (#[trigger] old(receivers)[j]).queue().len() == 0,
            decreases n - k,
        {
            if receivers[k].connected() {
                return Err(RecvTimeoutError::Timeout);
            }
            k = k + 1;
        }
        Err(RecvTimeoutError::Disconnected)
    }

    /// Like `select_any`: the wait for `timeout` cannot bring a message.
    pub fn select_any_timeout(
        receivers: &mut Vec<NetworkReceiver<In>>,
        start: usize,
        timeout: Duration,
    ) -> (r: Result<SelectAnyResult<In>, RecvTimeoutError>)
        ensures
            final(receivers).len() == old(receivers).len(),
            r matches Ok(res) ==> {
                let n = old(receivers).len() as int;
                let s = start as int % n;
                let i = res.index as int;
                let q = old(receivers)[i].queue();
                &&& 0 <= i < n
                &&& q.len() > 0
                &&& res.value == q[0]
                &&& final(receivers)[i].queue() == q.drop_first()
                &&& final(receivers)[i].is_connected() == old(receivers)[i].is_connected()
                &&& final(receivers)[i].sender_given() == old(receivers)[i].sender_given()
                &&& final(receivers)[i].turn() == old(receivers)[i].turn()
                &&& final(receivers)[i].endpoint() == old(receivers)[i].endpoint()
                &&& old(receivers)[i].wf() ==> final(receivers)[i].wf()
                &&& forall|j: int| 0 <= j < n && j != i ==> final(receivers)[j] == old(receivers)[j]
                &&& forall|d: int|
                    0 <= d < n && ring_step(s, d, n) == i ==> forall|e: int|
                        0 <= e < d ==> old(receivers)[ring_step(s, e, n)].queue().len() == 0
            },
            r is Err ==> final(receivers)@ == old(receivers)@ && forall|j: int|
                0 <= j < old(receivers).len() ==> (#[trigger] old(receivers)[j]).queue().len()
                    == 0,
            r == Err::<SelectAnyResult<In>, RecvTimeoutError>(RecvTimeoutError::Timeout)
                <==> (exists|j: int|
                0 <= j < old(receivers).len() && (#[trigger] old(receivers)[j]).is_connected())
                && forall|j: int|
                0 <= j < old(receivers).len() ==> (#[trigger] old(receivers)[j]).queue().len()
                    == 0,
    {
        NetworkReceiver::select_any(receivers, start)
    }
}

/// A select over many receivers that is fair by itself: each call starts
/// looking just after the receiver that won the previous one, so a receiver
/// that stays ready wins within `n` calls.
pub struct FairSelect {
    next: usize,
}

impl FairSelect {
    /// Where the next call starts looking.
    pub closed spec fn next_start(&self) -> nat {
        self.next as nat
    }

    /// A selector that starts with the first receiver.
    pub fn new() -> (r: Self)
        ensures
            r.next_start() == 0,
    {
        FairSelect { next: 0 }
    }

    /// Takes the oldest message of the first ready receiver from `next_start()`
    /// round the ring, and moves the start past the winner.
    pub fn select_any<In>(&mut self, receivers: &mut Vec<NetworkReceiver<In>>) -> (r: Result<
        SelectAnyResult<In>,
        RecvTimeoutError,
    >)
        ensures
            final(receivers).len() == old(receivers).len(),
            r matches Ok(res) ==> {
                let n = old(receivers).len() as int;
                let s = old(self).next_start() as int % n;
                let i = res.index as int;
                let q = old(receivers)[i].queue();
                &&& 0 <= i < n
                &&& q.len() > 0
                &&& res.value == q[0]
                &&& final(receivers)[i].queue() == q.drop_first()
                &&& final(receivers)[i].is_connected() == old(receivers)[i].is_connected()
                &&& old(receivers)[i].wf() ==> final(receivers)[i].wf()
                &&& forall|j: int| 0 <= j < n && j != i ==> final(receivers)[j] == old(receivers)[j]
                &&& old(receivers)[s].queue().len() > 0 ==> i == s
                &&& forall|d: int|
                    0 <= d < n && ring_step(s, d, n) == i ==> forall|e: int|
                        0 <= e < d ==> old(receivers)[ring_step(s, e, n)].queue().len() == 0
                &&& final(self).next_start() == if i + 1 == n {
                    0
                } else {
                    i + 1
                }
            },
            r is Err ==> final(receivers)@ == old(receivers)@ && *final(self) == *old(self)
                && forall|j: int|
                0 <= j < old(receivers).len() ==> (#[trigger] old(receivers)[j]).queue().len()
                    == 0,
            r == Err::<SelectAnyResult<In>, RecvTimeoutError>(RecvTimeoutError::Timeout)
                <==> (exists|j: int|
                0 <= j < old(receivers).len() && (#[trigger] old(receivers)[j]).is_connected())
                && forall|j: int|
                0 <= j < old(receivers).len() ==> (#[trigger] old(receivers)[j]).queue().len()
                    == 0,
    {
        let r = NetworkReceiver::select_any(receivers, self.next);
        if let Ok(res) = &r {
            proof {
                let n = old(receivers).len() as int;
                let s = self.next as int % n;
                let i = res.index as int;
                let d = if i >= s {
                    i - s
                } else {
                    i + n - s
                };
                assert(ring_step(s, d, n) == i);
                assert(ring_step(s, 0, n) == s);
            }
            self.next = if res.index + 1 == receivers.len() {
                0
            } else {
                res.index + 1
            };
        }
        r
    }
}

} // verus!
