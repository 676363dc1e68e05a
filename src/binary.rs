use vstd::pervasive::cloned;
use std::time::Duration;
use vstd::prelude::*;

use crate::element::{well_formed, StreamElement};
use crate::network::{
    popped, turned, BlockId, Coord, NetworkMessage, NetworkReceiver, ReceiverEndpoint, RecvTimeoutError,
    SelectResult,
};

verus! {

/// An element of one of two merged streams, or the mark that one of them ended a pass.
#[derive(Clone, Debug, PartialEq, Eq)]
pub enum BinaryElement<OutL, OutR> {
    /// An element of the left stream.
    Left(OutL),
    /// An element of the right stream.
    Right(OutR),
    /// The left stream has ended its pass.
    LeftEnd,
    /// The right stream has ended its pass.
    RightEnd,
}

/// What a side emits for one element `e` while `missing` of its upstream
/// replicas have still to end the pass: the payload wrapped by `w`, the `end`
/// mark before the `FlushAndRestart` that completes the pass, and nothing for
/// `Terminate` on a cached side.
pub open spec fn element_output<Out, T>(
    e: StreamElement<Out>,
    missing: nat,
    cached: bool,
    w: spec_fn(Out) -> T,
    end: T,
) -> Seq<StreamElement<T>> {
    match e {
        StreamElement::Item(x) => seq![StreamElement::Item(w(x))],
        StreamElement::Timestamped(x, t) => seq![StreamElement::Timestamped(w(x), t)],
        StreamElement::Watermark(t) => seq![StreamElement::Watermark(t)],
        StreamElement::FlushBatch => seq![StreamElement::FlushBatch],
        StreamElement::FlushAndRestart => if missing == 1 {
            seq![StreamElement::Item(end), StreamElement::FlushAndRestart]
        } else {
            seq![StreamElement::FlushAndRestart]
        },
        StreamElement::Terminate => if cached {
            Seq::empty()
        } else {
            seq![StreamElement::Terminate]
        },
    }
}

/// The count of awaited ends after element `e`: one less for an end of the
/// counted kind (`Terminate` when `terminate` holds, else `FlushAndRestart`),
/// stopping at zero.
pub open spec fn missing_step<Out>(e: StreamElement<Out>, missing: nat, terminate: bool) -> nat {
    let counts = if terminate {
        e is Terminate
    } else {
        e is FlushAndRestart
    };
    if counts && missing > 0 {
        (missing - 1) as nat
    } else {
        missing
    }
}

/// What a side emits for `batch`, element after element.
pub open spec fn wrapped_batch<Out, T>(
    batch: Seq<StreamElement<Out>>,
    missing: nat,
    cached: bool,
    w: spec_fn(Out) -> T,
    end: T,
) -> Seq<StreamElement<T>>
    decreases batch.len(),
{
    if batch.len() == 0 {
        Seq::empty()
    } else {
        element_output(batch[0], missing, cached, w, end) + wrapped_batch(
            batch.drop_first(),
            missing_step(batch[0], missing, false),
            cached,
            w,
            end,
        )
    }
}

/// On a side that is not cached, what comes out for a well-formed channel is
/// a well-formed channel: the end marks stand before a `FlushAndRestart`, and
/// `Terminate` stays last and alone.
pub proof fn lemma_wrapped_well_formed<Out, T>(
    s: Seq<StreamElement<Out>>,
    missing: nat,
    w: spec_fn(Out) -> T,
    end: T,
)
    requires
        well_formed(s),
    ensures
        well_formed(wrapped_batch(s, missing, false, w, end)),
    decreases s.len(),
{
    let rest = s.drop_first();
    let m2 = missing_step(s[0], missing, false);
    let head = element_output(s[0], missing, false, w, end);
    let out = wrapped_batch(s, missing, false, w, end);
    assert(!(s[0] is Terminate));
    assert(forall|i: int| 0 <= i < head.len() ==> !(#[trigger] head[i] is Terminate));
    if s.len() == 2 {
        let last = rest.drop_first();
        assert(last.len() == 0);
        assert(wrapped_batch(last, missing_step(rest[0], m2, false), false, w, end) =~= Seq::empty());
        assert(wrapped_batch(rest, m2, false, w, end) =~= seq![StreamElement::<T>::Terminate]);
        assert(out == head + seq![StreamElement::<T>::Terminate]);
        assert(head.last() is FlushAndRestart);
    } else {
        assert(well_formed(rest)) by {
            assert forall|i: int| 0 <= i < rest.len() - 1 implies !(#[trigger] rest[i] is Terminate) by {
                assert(rest[i] == s[i + 1]);
            }
        }
        lemma_wrapped_well_formed(rest, m2, w, end);
        let tail = wrapped_batch(rest, m2, false, w, end);
        assert(out == head + tail);
        assert forall|i: int| 0 <= i < out.len() - 1 implies !(#[trigger] out[i] is Terminate) by {
            if i >= head.len() {
                assert(out[i] == tail[i - head.len()]);
            }
        }
        assert(out[out.len() - 2] == tail[tail.len() - 2]);
    }
}

/// The count of awaited ends after all of `batch`.
pub open spec fn missing_after<Out>(batch: Seq<StreamElement<Out>>, missing: nat, terminate: bool) -> nat
    decreases batch.len(),
{
    if batch.len() == 0 {
        missing
    } else {
        missing_after(batch.drop_first(), missing_step(batch[0], missing, terminate), terminate)
    }
}

/// The wrapping of the left side.
pub open spec fn wrap_left<OutL, OutR>(x: OutL) -> BinaryElement<OutL, OutR> {
    BinaryElement::Left(x)
}

/// The wrapping of the right side.
pub open spec fn wrap_right<OutL, OutR>(x: OutR) -> BinaryElement<OutL, OutR> {
    BinaryElement::Right(x)
}

/// The left wrapping as a function value.
pub open spec fn left_wrapper<OutL, OutR>() -> spec_fn(OutL) -> BinaryElement<OutL, OutR> {
    |x: OutL| wrap_left::<OutL, OutR>(x)
}

/// The right wrapping as a function value.
pub open spec fn right_wrapper<OutL, OutR>() -> spec_fn(OutR) -> BinaryElement<OutL, OutR> {
    |x: OutR| wrap_right::<OutL, OutR>(x)
}

fn make_left<OutL, OutR>(x: OutL) -> (y: BinaryElement<OutL, OutR>)
    ensures
        y == wrap_left::<OutL, OutR>(x),
{
    BinaryElement::Left(x)
}

fn make_right<OutL, OutR>(x: OutR) -> (y: BinaryElement<OutL, OutR>)
    ensures
        y == wrap_right::<OutL, OutR>(x),
{
    BinaryElement::Right(x)
}

/// One of the two inputs of a binary receiver.
#[verifier::reject_recursive_types(Out)]
#[verifier::reject_recursive_types(OutL)]
#[verifier::reject_recursive_types(OutR)]
pub struct SideReceiver<Out, OutL, OutR> {
    /// Where the batches of this side's upstream replicas arrive.
    pub receiver: NetworkReceiver<NetworkMessage<Out>>,
    /// How many upstream replicas feed this side.
    pub instances: usize,
    /// How many of them have not yet ended the current pass.
    pub missing_flush_and_restart: usize,
    /// How many of them have not yet terminated.
    pub missing_terminate: usize,
    /// Whether the batches of the first pass are replayed on later passes.
    pub cached: bool,
    /// The batches of the first pass, as emitted.
    pub cache: Vec<NetworkMessage<BinaryElement<OutL, OutR>>>,
    /// Whether the first pass has been captured whole.
    pub cache_full: bool,
    /// The next cached batch to replay.
    pub cache_pointer: usize,
}

impl<Out, OutL: Clone, OutR: Clone> SideReceiver<Out, OutL, OutR> {
    pub open spec fn wf(&self) -> bool {
        &&& self.receiver.wf()
        &&& self.missing_flush_and_restart <= self.instances
        &&& self.missing_terminate <= self.instances
        &&& self.cache_pointer <= self.cache@.len()
        &&& !self.cached ==> self.cache@.len() == 0 && !self.cache_full
    }

    fn new(previous_block_id: BlockId, cached: bool) -> (r: Self)
        ensures
            r.wf(),
            r.instances == 0,
            r.missing_flush_and_restart == 0,
            r.missing_terminate == 0,
            r.cached == cached,
            r.cache@.len() == 0,
            !r.cache_full,
            r.receiver.queue().len() == 0,
            r.receiver.is_connected(),
            r.receiver.endpoint().prev_block_id == previous_block_id,
    {
        SideReceiver {
            receiver: NetworkReceiver::new(
                ReceiverEndpoint {
                    coord: Coord { block_id: 0, replica_id: 0 },
                    prev_block_id: previous_block_id,
                },
            ),
            instances: 0,
            missing_flush_and_restart: 0,
            missing_terminate: 0,
            cached,
            cache: Vec::new(),
            cache_full: false,
            cache_pointer: 0,
        }
    }

    fn setup(&mut self, instances: usize)
        requires
            old(self).wf(),
        ensures
            final(self).wf(),
            *final(self) == (SideReceiver {
                instances,
                missing_flush_and_restart: instances,
                missing_terminate: instances,
                ..*old(self)
            }),
    {
        self.instances = instances;
        self.missing_flush_and_restart = instances;
        self.missing_terminate = instances;
    }

    fn recv(&mut self) -> (r: Result<NetworkMessage<Out>, RecvTimeoutError>)
        requires
            old(self).wf(),
        ensures
            *final(self) == (SideReceiver { receiver: final(self).receiver, ..*old(self) }),
            final(self).wf(),
            old(self).receiver.queue().len() > 0 ==> r == Ok::<
                NetworkMessage<Out>,
                RecvTimeoutError,
            >(old(self).receiver.queue()[0]) && final(self).receiver.queue() == old(
                self,
            ).receiver.queue().drop_first(),
            old(self).receiver.queue().len() == 0 ==> r == Err::<
                NetworkMessage<Out>,
                RecvTimeoutError,
            >(
                if old(self).receiver.is_connected() {
                    RecvTimeoutError::Timeout
                } else {
                    RecvTimeoutError::Disconnected
                },
            ) && *final(self) == *old(self),
            final(self).receiver.is_connected() == old(self).receiver.is_connected(),
            final(self).receiver.turn() == old(self).receiver.turn(),
            old(self).receiver.queue().len() > 0 ==> popped(old(self).receiver, final(self).receiver),
    {
        self.receiver.recv()
    }

    fn reset(&mut self)
        requires
            old(self).wf(),
        ensures
            final(self).wf(),
            *final(self) == (SideReceiver {
                missing_flush_and_restart: old(self).instances,
                cache_full: old(self).cached || old(self).cache_full,
                cache_pointer: if old(self).cached {
                    0
                } else {
                    old(self).cache_pointer
                },
                ..*old(self)
            }),
    {
        self.missing_flush_and_restart = self.instances;
        if self.cached {
            self.cache_full = true;
            self.cache_pointer = 0;
        }
    }

    /// Nothing more comes from this side in this pass.
    fn is_ended(&self) -> (r: bool)
        ensures
            r == self.spec_ended(),
    {
        if self.cached {
            self.is_terminated()
        } else {
            self.missing_flush_and_restart == 0
        }
    }

    pub open spec fn spec_ended(&self) -> bool {
        if self.cached {
            self.missing_terminate == 0
        } else {
            self.missing_flush_and_restart == 0
        }
    }

    /// Nothing more comes from this side ever.
    fn is_terminated(&self) -> (r: bool)
        ensures
            r == (self.missing_terminate == 0),
    {
        self.missing_terminate == 0
    }

    /// Every cached batch has been handed out in this pass.
    fn cache_finished(&self) -> (r: bool)
        ensures
            r == (self.cache_pointer >= self.cache@.len()),
    {
        self.cache_pointer >= self.cache.len()
    }

    /// Hands out a copy of the next cached batch.
    fn next_cached_item(&mut self) -> (r: NetworkMessage<BinaryElement<OutL, OutR>>)
        requires
            old(self).wf(),
            old(self).cache_pointer < old(self).cache@.len(),
        ensures
            final(self).wf(),
            *final(self) == (SideReceiver {
                cache_pointer: (old(self).cache_pointer + 1) as usize,
                missing_flush_and_restart: if old(self).cache_pointer + 1 >= old(
                    self,
                ).cache@.len() {
                    0
                } else {
                    old(self).missing_flush_and_restart
                },
                ..*old(self)
            }),
            copied_message(old(self).cache@[old(self).cache_pointer as int], r),
    {
        proof {
            assert(self.cache@.len() == self.cache.len());
        }
        self.cache_pointer = self.cache_pointer + 1;
        if self.cache_finished() {
            self.missing_flush_and_restart = 0;
        }
        copy_message(&self.cache[self.cache_pointer - 1])
    }
}

/// `r` holds a clone of each element of `m`, in order, from the same sender.
pub open spec fn copied_message<T: Clone>(m: NetworkMessage<T>, r: NetworkMessage<T>) -> bool {
    &&& r.sender == m.sender
    &&& r.batch@.len() == m.batch@.len()
    &&& forall|i: int| 0 <= i < m.batch@.len() ==> cloned(m.batch@[i], #[trigger] r.batch@[i])
}

fn copy_message<T: Clone>(m: &NetworkMessage<T>) -> (r: NetworkMessage<T>)
    ensures
        copied_message(*m, r),
{
    NetworkMessage { batch: m.batch.clone(), sender: m.sender }
}

/// `s` with the counters of a new pass and, on a cached side, the cache
/// marked complete and rewound.
pub open spec fn side_reset<Out, OutL, OutR>(s: SideReceiver<Out, OutL, OutR>) -> SideReceiver<
    Out,
    OutL,
    OutR,
> {
    SideReceiver {
        missing_flush_and_restart: s.instances,
        cache_full: s.cached || s.cache_full,
        cache_pointer: if s.cached {
            0
        } else {
            s.cache_pointer
        },
        ..s
    }
}

/// `b` is side `a` after the batch `m` went through it and came out as `out`;
/// the receiver itself is left aside.
pub open spec fn side_processed<Out, OutL: Clone, OutR: Clone>(
    a: SideReceiver<Out, OutL, OutR>,
    b: SideReceiver<Out, OutL, OutR>,
    m: NetworkMessage<Out>,
    out: NetworkMessage<BinaryElement<OutL, OutR>>,
    w: spec_fn(Out) -> BinaryElement<OutL, OutR>,
    end: BinaryElement<OutL, OutR>,
) -> bool {
    &&& out.sender == m.sender
    &&& out.batch@ == wrapped_batch(m.batch@, a.missing_flush_and_restart as nat, a.cached, w, end)
    &&& b.missing_flush_and_restart == missing_after(
        m.batch@,
        a.missing_flush_and_restart as nat,
        false,
    )
    &&& b.missing_terminate == missing_after(m.batch@, a.missing_terminate as nat, true)
    &&& b.instances == a.instances
    &&& b.cached == a.cached
    &&& b.cache_full == a.cache_full
    &&& a.cached ==> {
        &&& b.cache@.len() == a.cache@.len() + 1
        &&& b.cache@.drop_last() == a.cache@
        &&& copied_message(out, b.cache@.last())
        &&& b.cache_pointer == b.cache@.len()
    }
    &&& !a.cached ==> b.cache@ == a.cache@ && b.cache_pointer == a.cache_pointer
}

/// `b` is side `a` after handing out its next cached batch as `out`.
pub open spec fn side_replayed<Out, OutL: Clone, OutR: Clone>(
    a: SideReceiver<Out, OutL, OutR>,
    b: SideReceiver<Out, OutL, OutR>,
    out: NetworkMessage<BinaryElement<OutL, OutR>>,
) -> bool {
    &&& a.cache_pointer < a.cache@.len()
    &&& b == SideReceiver {
        cache_pointer: (a.cache_pointer + 1) as usize,
        missing_flush_and_restart: if a.cache_pointer + 1 >= a.cache@.len() {
            0
        } else {
            a.missing_flush_and_restart
        },
        ..a
    }
    &&& copied_message(a.cache@[a.cache_pointer as int], out)
}

/// The answer of a side whose receiver has nothing buffered.
pub open spec fn empty_answer(connected: bool) -> RecvTimeoutError {
    if connected {
        RecvTimeoutError::Timeout
    } else {
        RecvTimeoutError::Disconnected
    }
}

/// The elements of `v` in reverse order.
fn reversed<T>(v: Vec<T>) -> (r: Vec<T>)
    ensures
        r@ == v@.reverse(),
{
    let mut v = v;
    let ghost all = v@;
    let mut r: Vec<T> = Vec::new();
    while v.len() > 0
        invariant
            all == v@ + r@.reverse(),
        decreases v.len(),
    {
        let x = v.pop().unwrap();
        r.push(x);
        assert(all == v@ + r@.reverse());
    }
    assert(r@.reverse().reverse() =~= r@);
    r
}

/// Merges two upstream blocks, left and right, into one stream of `BinaryElement`.
///
/// At most one side is cached: its batches of the first pass are kept and
/// replayed on every later pass, while the other side drives the passes.
#[verifier::reject_recursive_types(OutL)]
#[verifier::reject_recursive_types(OutR)]
pub struct BinaryStartReceiver<OutL, OutR> {
    /// The left input.
    pub left: SideReceiver<OutL, OutL, OutR>,
    /// The right input.
    pub right: SideReceiver<OutR, OutL, OutR>,
    /// A pass has begun and nothing has been read from the side that drives it.
    pub first_message: bool,
}

impl<OutL: Clone, OutR: Clone> BinaryStartReceiver<OutL, OutR> {
    /// Wraps each element of a batch from one side and counts the ends it holds.
    fn process_side<Out, F: Fn(Out) -> BinaryElement<OutL, OutR>>(
        side: &mut SideReceiver<Out, OutL, OutR>,
        message: NetworkMessage<Out>,
        wrap: F,
        is_left: bool,
        Ghost(w): Ghost<spec_fn(Out) -> BinaryElement<OutL, OutR>>,
    ) -> (r: NetworkMessage<BinaryElement<OutL, OutR>>)
        requires
            old(side).wf(),
            forall|x: Out| #[trigger] wrap.requires((x,)),
            forall|x: Out, y: BinaryElement<OutL, OutR>| wrap.ensures((x,), y) ==> y == w(x),
        ensures
            final(side).wf(),
            r.sender == message.sender,
            r.batch@ == wrapped_batch(
                message.batch@,
                old(side).missing_flush_and_restart as nat,
                old(side).cached,
                w,
                if is_left {
                    BinaryElement::LeftEnd
                } else {
                    BinaryElement::RightEnd
                },
            ),
            final(side).missing_flush_and_restart == missing_after(
                message.batch@,
                old(side).missing_flush_and_restart as nat,
                false,
            ),
            final(side).missing_terminate == missing_after(
                message.batch@,
                old(side).missing_terminate as nat,
                true,
            ),
            final(side).receiver == old(side).receiver,
            final(side).instances == old(side).instances,
            final(side).cached == old(side).cached,
            final(side).cache_full == old(side).cache_full,
            old(side).cached ==> {
                &&& final(side).cache@.len() == old(side).cache@.len() + 1
                &&& final(side).cache@.drop_last() == old(side).cache@
                &&& copied_message(r, final(side).cache@.last())
                &&& final(side).cache_pointer == final(side).cache@.len()
            },
            !old(side).cached ==> final(side).cache@ == old(side).cache@
                && final(side).cache_pointer == old(side).cache_pointer,
    {
        let ghost end = if is_left {
            BinaryElement::<OutL, OutR>::LeftEnd
        } else {
            BinaryElement::<OutL, OutR>::RightEnd
        };
        let ghost all = message.batch@;
        let ghost fr0 = side.missing_flush_and_restart as nat;
        let ghost term0 = side.missing_terminate as nat;
        let sender = message.sender;
        let mut rest = reversed(message.batch);
        let mut data: Vec<StreamElement<BinaryElement<OutL, OutR>>> = Vec::new();
        proof {
            assert(rest@.reverse() =~= all);
            assert(data@ + wrapped_batch(all, fr0, side.cached, w, end) =~= wrapped_batch(
                all,
                fr0,
                side.cached,
                w,
                end,
            ));
        }
        while rest.len() > 0
            invariant
                end == if is_left {
                    BinaryElement::<OutL, OutR>::LeftEnd
                } else {
                    BinaryElement::<OutL, OutR>::RightEnd
                },
                side.wf(),
                side.receiver == old(side).receiver,
                side.instances == old(side).instances,
                side.cached == old(side).cached,
                side.cache_full == old(side).cache_full,
                side.cache@ == old(side).cache@,
                side.cache_pointer == old(side).cache_pointer,
                forall|x: Out| #[trigger] wrap.requires((x,)),
                forall|x: Out, y: BinaryElement<OutL, OutR>| wrap.ensures((x,), y) ==> y == w(x),
                data@ + wrapped_batch(
                    rest@.reverse(),
                    side.missing_flush_and_restart as nat,
                    side.cached,
                    w,
                    end,
                ) == wrapped_batch(all, fr0, side.cached, w, end),
                missing_after(rest@.reverse(), side.missing_flush_and_restart as nat, false)
                    == missing_after(all, fr0, false),
                missing_after(rest@.reverse(), side.missing_terminate as nat, true)
                    == missing_after(all, term0, true),
            decreases rest.len(),
        {
            let ghost before = rest@.reverse();
            let ghost fr = side.missing_flush_and_restart as nat;
            let ghost data0 = data@;
            let item = rest.pop().unwrap();
            let ghost gitem = item;
            proof {
                assert(before[0] == item);
                assert(rest@.reverse() =~= before.drop_first());
            }
            let ghost mut head: Seq<StreamElement<BinaryElement<OutL, OutR>>> = Seq::empty();
            match item {
                StreamElement::Item(x) => {
                    let y = wrap(x);
                    data.push(StreamElement::Item(y));
                    proof {
                        head = seq![StreamElement::Item(y)];
                        assert(data@ =~= data0 + head);
                    }
                },
                StreamElement::Timestamped(x, t) => {
                    let y = wrap(x);
                    data.push(StreamElement::Timestamped(y, t));
                    proof {
                        head = seq![StreamElement::Timestamped(y, t)];
                        assert(data@ =~= data0 + head);
                    }
                },
                StreamElement::Watermark(t) => {
                    data.push(StreamElement::Watermark(t));
                    proof {
                        head = seq![StreamElement::Watermark(t)];
                        assert(data@ =~= data0 + head);
                    }
                },
                StreamElement::FlushBatch => {
                    data.push(StreamElement::FlushBatch);
                    proof {
                        head = seq![StreamElement::FlushBatch];
                        assert(data@ =~= data0 + head);
                    }
                },
                StreamElement::FlushAndRestart => {
                    proof {
                        assert(data@ =~= data0 + head);
                    }
                    if side.missing_flush_and_restart > 0 {
                        side.missing_flush_and_restart = side.missing_flush_and_restart - 1;
                        if side.missing_flush_and_restart == 0 {
                            let mark = if is_left {
                                BinaryElement::LeftEnd
                            } else {
                                BinaryElement::RightEnd
                            };
                            data.push(StreamElement::Item(mark));
                            proof {
                                head = seq![StreamElement::Item(end)];
                                assert(data@ =~= data0 + head);
                            }
                        }
                    }
                    data.push(StreamElement::FlushAndRestart);
                    proof {
                        head = head.push(StreamElement::FlushAndRestart);
                        assert(data@ =~= data0 + head);
                    }
                },
                StreamElement::Terminate => {
                    if side.missing_terminate > 0 {
                        side.missing_terminate = side.missing_terminate - 1;
                    }
                    proof {
                        assert(data@ =~= data0 + head);
                    }
                    if !side.cached {
                        data.push(StreamElement::Terminate);
                        proof {
                            head = seq![StreamElement::Terminate];
                            assert(data@ =~= data0 + head);
                        }
                    }
                },
            }
            proof {
                let tail = wrapped_batch(
                    rest@.reverse(),
                    side.missing_flush_and_restart as nat,
                    side.cached,
                    w,
                    end,
                );
                assert(head == element_output(gitem, fr, side.cached, w, end));
                assert(data@ =~= data0 + head);
                assert(wrapped_batch(before, fr, side.cached, w, end) =~= head + tail);
                assert(data@ + tail =~= data0 + wrapped_batch(before, fr, side.cached, w, end));
            }
        }
        proof {
            assert(rest@.reverse() =~= Seq::<StreamElement<Out>>::empty());
            assert(data@ + Seq::<StreamElement<BinaryElement<OutL, OutR>>>::empty() =~= data@);
        }
        let message = NetworkMessage::new_batch(data, sender);
        if side.cached {
            let copy = copy_message(&message);
            side.cache.push(copy);
            side.cache_pointer = side.cache.len();
            proof {
                assert(side.cache@.drop_last() =~= old(side).cache@);
            }
        }
        message
    }

    /// The state invariant.
    pub open spec fn wf(&self) -> bool {
        &&& self.left.wf()
        &&& self.right.wf()
        &&& !(self.left.cached && self.right.cached)
    }

    /// How many `Terminate` the receiver emits on behalf of the cached side once
    /// both sides have terminated; zero when that is not the case.
    pub open spec fn pending_terminates(&self) -> nat {
        if self.left.missing_terminate == 0 && self.right.missing_terminate == 0 {
            if self.left.cached {
                self.left.instances as nat
            } else if self.right.cached {
                self.right.instances as nat
            } else {
                0
            }
        } else {
            0
        }
    }

    /// Both sides are done with the pass and no cached batch is left to hand out.
    pub open spec fn pass_over(&self) -> bool {
        &&& self.left.spec_ended()
        &&& self.right.spec_ended()
        &&& self.left.cache_pointer >= self.left.cache@.len()
        &&& self.right.cache_pointer >= self.right.cache@.len()
    }

    /// The state once a finished pass has been closed: counters reset, caches
    /// rewound, and the next pass waiting for its first message.
    pub open spec fn prepared(&self) -> Self {
        if self.pass_over() {
            BinaryStartReceiver {
                left: side_reset(self.left),
                right: side_reset(self.right),
                first_message: true,
            }
        } else {
            *self
        }
    }

    /// `next` and `r` are state and answer after a batch was pulled from the left.
    pub open spec fn pulled_left(
        &self,
        next: Self,
        r: Result<NetworkMessage<BinaryElement<OutL, OutR>>, RecvTimeoutError>,
    ) -> bool {
        let q = self.left.receiver.queue();
        if q.len() > 0 {
            &&& r is Ok
            &&& popped(self.left.receiver, next.left.receiver)
            &&& next.left.receiver.turn() == self.left.receiver.turn()
            &&& side_processed(
                self.left,
                next.left,
                q[0],
                r->Ok_0,
                left_wrapper::<OutL, OutR>(),
                BinaryElement::LeftEnd,
            )
            &&& next.right == self.right
            &&& next.first_message == self.first_message
        } else {
            &&& r == Err::<NetworkMessage<BinaryElement<OutL, OutR>>, RecvTimeoutError>(
                empty_answer(self.left.receiver.is_connected()),
            )
            &&& next == *self
        }
    }

    /// `next` and `r` are state and answer after a batch was pulled from the right.
    pub open spec fn pulled_right(
        &self,
        next: Self,
        r: Result<NetworkMessage<BinaryElement<OutL, OutR>>, RecvTimeoutError>,
    ) -> bool {
        let q = self.right.receiver.queue();
        if q.len() > 0 {
            &&& r is Ok
            &&& popped(self.right.receiver, next.right.receiver)
            &&& next.right.receiver.turn() == self.right.receiver.turn()
            &&& side_processed(
                self.right,
                next.right,
                q[0],
                r->Ok_0,
                right_wrapper::<OutL, OutR>(),
                BinaryElement::RightEnd,
            )
            &&& next.left == self.left
            &&& next.first_message == self.first_message
        } else {
            &&& r == Err::<NetworkMessage<BinaryElement<OutL, OutR>>, RecvTimeoutError>(
                empty_answer(self.right.receiver.is_connected()),
            )
            &&& next == *self
        }
    }

    /// `next` and `r` are state and answer after a select over both receivers:
    /// the side with a batch delivers; when both have one, the left receiver's
    /// turn decides, and passes to the other side.
    pub open spec fn selected(
        &self,
        next: Self,
        r: Result<NetworkMessage<BinaryElement<OutL, OutR>>, RecvTimeoutError>,
    ) -> bool {
        let a = self.left.receiver.queue();
        let b = self.right.receiver.queue();
        let turn = self.left.receiver.turn();
        if a.len() > 0 && (b.len() == 0 || !turn) {
            &&& r is Ok
            &&& popped(self.left.receiver, next.left.receiver)
            &&& next.left.receiver.turn() == if b.len() > 0 {
                !turn
            } else {
                turn
            }
            &&& side_processed(
                self.left,
                next.left,
                a[0],
                r->Ok_0,
                left_wrapper::<OutL, OutR>(),
                BinaryElement::LeftEnd,
            )
            &&& next.right == self.right
            &&& next.first_message == self.first_message
        } else if b.len() > 0 {
            &&& r is Ok
            &&& popped(self.right.receiver, next.right.receiver)
            &&& next.right.receiver.turn() == self.right.receiver.turn()
            &&& side_processed(
                self.right,
                next.right,
                b[0],
                r->Ok_0,
                right_wrapper::<OutL, OutR>(),
                BinaryElement::RightEnd,
            )
            &&& a.len() > 0 ==> turned(self.left.receiver, next.left.receiver)
            &&& a.len() == 0 ==> next.left.receiver == self.left.receiver
            &&& next.left == SideReceiver { receiver: next.left.receiver, ..self.left }
            &&& next.first_message == self.first_message
        } else {
            &&& r == Err::<NetworkMessage<BinaryElement<OutL, OutR>>, RecvTimeoutError>(
                if self.left.receiver.is_connected() || self.right.receiver.is_connected() {
                    RecvTimeoutError::Timeout
                } else {
                    RecvTimeoutError::Disconnected
                },
            )
            &&& next == *self
        }
    }

    /// One step of the receiver from this state: `next` is the state after it
    /// and `r` its answer. In order: once both sides have terminated, the
    /// `Terminate` of the cached side are emitted; a finished pass is closed;
    /// the first message of a pass with a cached side comes from the other side;
    /// a cached side with batches left replays them; a side that ended its pass
    /// leaves the other to be read; else both are selected over.
    pub open spec fn step(
        &self,
        next: Self,
        r: Result<NetworkMessage<BinaryElement<OutL, OutR>>, RecvTimeoutError>,
    ) -> bool {
        let n = self.pending_terminates();
        if n > 0 {
            &&& next == *self
            &&& r matches Ok(m) && m.batch@ == Seq::new(
                n,
                |i: int| StreamElement::<BinaryElement<OutL, OutR>>::Terminate,
            )
        } else {
            let s = self.prepared();
            if s.first_message && (s.left.cached || s.right.cached) {
                let t = BinaryStartReceiver { first_message: false, ..s };
                if s.left.cached {
                    if s.right.receiver.queue().len() > 0 {
                        t.pulled_right(next, r)
                    } else {
                        s.pulled_right(next, r)
                    }
                } else {
                    if s.left.receiver.queue().len() > 0 {
                        t.pulled_left(next, r)
                    } else {
                        s.pulled_left(next, r)
                    }
                }
            } else if s.left.cached && s.left.cache_full && s.left.cache_pointer
                < s.left.cache@.len() {
                &&& r is Ok
                &&& side_replayed(s.left, next.left, r->Ok_0)
                &&& next.right == s.right
                &&& next.first_message == s.first_message
            } else if s.right.cached && s.right.cache_full && s.right.cache_pointer
                < s.right.cache@.len() {
                &&& r is Ok
                &&& side_replayed(s.right, next.right, r->Ok_0)
                &&& next.left == s.left
                &&& next.first_message == s.first_message
            } else if s.left.spec_ended() {
                s.pulled_right(next, r)
            } else if s.right.spec_ended() {
                s.pulled_left(next, r)
            } else if s.left.missing_terminate == 0 && s.right.missing_terminate == 0 {
                &&& r == Err::<NetworkMessage<BinaryElement<OutL, OutR>>, RecvTimeoutError>(
                    RecvTimeoutError::Disconnected,
                )
                &&& next == s
            } else if s.left.missing_terminate == 0 {
                s.pulled_right(next, r)
            } else if s.right.missing_terminate == 0 {
                s.pulled_left(next, r)
            } else {
                s.selected(next, r)
            }
        }
    }

    /// Receives the next batch from the left side's receiver.
    fn pull_left(&mut self) -> (r: Result<NetworkMessage<BinaryElement<OutL, OutR>>, RecvTimeoutError>)
        requires
            old(self).wf(),
        ensures
            final(self).wf(),
            old(self).pulled_left(*final(self), r),
    {
        match self.left.recv() {
            Ok(m) => Ok(
                Self::process_side(
                    &mut self.left,
                    m,
                    make_left::<OutL, OutR>,
                    true,
                    Ghost(left_wrapper::<OutL, OutR>()),
                ),
            ),
            Err(e) => Err(e),
        }
    }

    /// Receives the next batch from the right side's receiver.
    fn pull_right(&mut self) -> (r: Result<NetworkMessage<BinaryElement<OutL, OutR>>, RecvTimeoutError>)
        requires
            old(self).wf(),
        ensures
            final(self).wf(),
            old(self).pulled_right(*final(self), r),
    {
        match self.right.recv() {
            Ok(m) => Ok(
                Self::process_side(
                    &mut self.right,
                    m,
                    make_right::<OutL, OutR>,
                    false,
                    Ghost(right_wrapper::<OutL, OutR>()),
                ),
            ),
            Err(e) => Err(e),
        }
    }

    /// Picks the side to read by the select policy and takes one batch.
    fn select(&mut self) -> (r: Result<NetworkMessage<BinaryElement<OutL, OutR>>, RecvTimeoutError>)
        requires
            old(self).wf(),
        ensures
            final(self).wf(),
            old(self).step(*final(self), r),
    {
        if self.left.is_terminated() && self.right.is_terminated() {
            let num_terminates = if self.left.cached {
                self.left.instances
            } else if self.right.cached {
                self.right.instances
            } else {
                0
            };
            if num_terminates > 0 {
                let mut batch: Vec<StreamElement<BinaryElement<OutL, OutR>>> = Vec::new();
                let mut i: usize = 0;
                while i < num_terminates
                    invariant
                        i <= num_terminates,
                        batch@ == Seq::new(
                            i as nat,
                            |j: int| StreamElement::<BinaryElement<OutL, OutR>>::Terminate,
                        ),
                    decreases num_terminates - i,
                {
                    batch.push(StreamElement::Terminate);
                    i = i + 1;
                    assert(batch@ =~= Seq::new(
                        i as nat,
                        |j: int| StreamElement::<BinaryElement<OutL, OutR>>::Terminate,
                    ));
                }
                return Ok(NetworkMessage::new_batch(batch, Coord { block_id: 0, replica_id: 0 }));
            }
        }
        if self.left.is_ended() && self.right.is_ended() && self.left.cache_finished()
            && self.right.cache_finished() {
            self.left.reset();
            self.right.reset();
            self.first_message = true;
        }
        if self.first_message && (self.left.cached || self.right.cached) {
            let ready = if self.left.cached {
                self.right.receiver.num_buffered() > 0
            } else {
                self.left.receiver.num_buffered() > 0
            };
            if ready {
                self.first_message = false;
            }
            if self.left.cached {
                self.pull_right()
            } else {
                self.pull_left()
            }
        } else if self.left.cached && self.left.cache_full && !self.left.cache_finished() {
            Ok(self.left.next_cached_item())
        } else if self.right.cached && self.right.cache_full && !self.right.cache_finished() {
            Ok(self.right.next_cached_item())
        } else if self.left.is_ended() {
            self.pull_right()
        } else if self.right.is_ended() {
            self.pull_left()
        } else {
            let left_terminated = self.left.is_terminated();
            let right_terminated = self.right.is_terminated();
            if left_terminated && right_terminated {
                Err(RecvTimeoutError::Disconnected)
            } else if left_terminated {
                self.pull_right()
            } else if right_terminated {
                self.pull_left()
            } else {
                match self.left.receiver.select(&mut self.right.receiver) {
                    Ok(SelectResult::A(m)) => Ok(
                        Self::process_side(
                            &mut self.left,
                            m,
                            make_left::<OutL, OutR>,
                            true,
                            Ghost(left_wrapper::<OutL, OutR>()),
                        ),
                    ),
                    Ok(SelectResult::B(m)) => Ok(
                        Self::process_side(
                            &mut self.right,
                            m,
                            make_right::<OutL, OutR>,
                            false,
                            Ghost(right_wrapper::<OutL, OutR>()),
                        ),
                    ),
                    Err(e) => Err(e),
                }
            }
        }
    }

    /// The batches waiting in the left receiver.
    pub open spec fn left_queue(&self) -> Seq<NetworkMessage<OutL>> {
        self.left.receiver.queue()
    }

    /// The batches waiting in the right receiver.
    pub open spec fn right_queue(&self) -> Seq<NetworkMessage<OutR>> {
        self.right.receiver.queue()
    }

    /// The number of upstream replicas of the left side.
    pub open spec fn left_instances(&self) -> nat {
        self.left.instances as nat
    }

    /// The number of upstream replicas of the right side.
    pub open spec fn right_instances(&self) -> nat {
        self.right.instances as nat
    }

    /// Whether the left side is cached.
    pub open spec fn left_cached(&self) -> bool {
        self.left.cached
    }

    /// Whether the right side is cached.
    pub open spec fn right_cached(&self) -> bool {
        self.right.cached
    }

    /// Whether every upstream replica of both sides has sent `Terminate`.
    pub open spec fn all_terminated(&self) -> bool {
        self.left.missing_terminate == 0 && self.right.missing_terminate == 0
    }

    /// A receiver merging the blocks `left_block_id` and `right_block_id`;
    /// at most one side is cached.
    pub fn new(left_block_id: BlockId, right_block_id: BlockId, left_cache: bool, right_cache: bool) -> (r: Self)
        requires
            !(left_cache && right_cache),
        ensures
            r.wf(),
            r.left_cached() == left_cache,
            r.right_cached() == right_cache,
            r.left_instances() == 0,
            r.right_instances() == 0,
            r.left_queue().len() == 0,
            r.right_queue().len() == 0,
            !r.first_message,
            r.left.cache@.len() == 0 && r.right.cache@.len() == 0,
            !r.left.cache_full && !r.right.cache_full,
            r.left.cache_pointer == 0 && r.right.cache_pointer == 0,
            r.left.missing_flush_and_restart == 0 && r.right.missing_flush_and_restart == 0,
            r.left.missing_terminate == 0 && r.right.missing_terminate == 0,
    {
        BinaryStartReceiver {
            left: SideReceiver::new(left_block_id, left_cache),
            right: SideReceiver::new(right_block_id, right_cache),
            first_message: false,
        }
    }

    /// Records how many upstream replicas each side has; every one of them
    /// ends each pass and finally terminates.
    pub fn setup(&mut self, left_instances: usize, right_instances: usize)
        requires
            old(self).wf(),
        ensures
            final(self).wf(),
            final(self).left_instances() == left_instances,
            final(self).right_instances() == right_instances,
            final(self).left_cached() == old(self).left_cached(),
            final(self).right_cached() == old(self).right_cached(),
            final(self).left_queue() == old(self).left_queue(),
            final(self).right_queue() == old(self).right_queue(),
            left_instances > 0 || right_instances > 0 ==> !final(self).all_terminated(),
            final(self).left == (SideReceiver {
                instances: left_instances,
                missing_flush_and_restart: left_instances,
                missing_terminate: left_instances,
                ..old(self).left
            }),
            final(self).right == (SideReceiver {
                instances: right_instances,
                missing_flush_and_restart: right_instances,
                missing_terminate: right_instances,
                ..old(self).right
            }),
            final(self).first_message == old(self).first_message,
    {
        self.left.setup(left_instances);
        self.right.setup(right_instances);
    }

    /// How many upstream replicas feed the cached side, if there is one.
    pub fn cached_replicas(&self) -> (r: usize)
        requires
            self.wf(),
        ensures
            r == if self.left_cached() {
                self.left_instances()
            } else if self.right_cached() {
                self.right_instances()
            } else {
                0
            },
    {
        if self.left.cached {
            self.left.instances
        } else if self.right.cached {
            self.right.instances
        } else {
            0
        }
    }

    /// Delivers a batch of the left upstream block; a full receiver hands it back.
    pub fn deliver_left(&mut self, message: NetworkMessage<OutL>) -> (r: Result<(), NetworkMessage<OutL>>)
        requires
            old(self).wf(),
        ensures
            final(self).wf(),
            old(self).left_queue().len() < crate::network::CHANNEL_CAPACITY && old(
                self,
            ).left.receiver.is_connected() ==> r is Ok
                && final(self).left_queue() == old(self).left_queue().push(message)
                && final(self).left.receiver.turn() == old(self).left.receiver.turn()
                && final(self).left == (SideReceiver { receiver: final(self).left.receiver, ..old(self).left })
                && final(self).right == old(self).right
                && final(self).first_message == old(self).first_message,
            !(old(self).left_queue().len() < crate::network::CHANNEL_CAPACITY && old(
                self,
            ).left.receiver.is_connected()) ==> r == Err::<
                (),
                NetworkMessage<OutL>,
            >(message) && *final(self) == *old(self),
            final(self).right_queue() == old(self).right_queue(),
            final(self).left_cached() == old(self).left_cached(),
            final(self).right_cached() == old(self).right_cached(),
            final(self).left_instances() == old(self).left_instances(),
            final(self).right_instances() == old(self).right_instances(),
    {
        if self.left.receiver.num_buffered() >= crate::network::CHANNEL_CAPACITY
            || !self.left.receiver.connected() {
            return Err(message);
        }
        self.left.receiver.deliver(message)
    }

    /// Delivers a batch of the right upstream block; a full receiver hands it back.
    pub fn deliver_right(&mut self, message: NetworkMessage<OutR>) -> (r: Result<(), NetworkMessage<OutR>>)
        requires
            old(self).wf(),
        ensures
            final(self).wf(),
            old(self).right_queue().len() < crate::network::CHANNEL_CAPACITY && old(
                self,
            ).right.receiver.is_connected() ==> r is Ok
                && final(self).right_queue() == old(self).right_queue().push(message)
                && final(self).right.receiver.turn() == old(self).right.receiver.turn()
                && final(self).right == (SideReceiver { receiver: final(self).right.receiver, ..old(self).right })
                && final(self).left == old(self).left
                && final(self).first_message == old(self).first_message,
            !(old(self).right_queue().len() < crate::network::CHANNEL_CAPACITY && old(
                self,
            ).right.receiver.is_connected()) ==> r == Err::<
                (),
                NetworkMessage<OutR>,
            >(message) && *final(self) == *old(self),
            final(self).left_queue() == old(self).left_queue(),
            final(self).left_cached() == old(self).left_cached(),
            final(self).right_cached() == old(self).right_cached(),
            final(self).left_instances() == old(self).left_instances(),
            final(self).right_instances() == old(self).right_instances(),
    {
        if self.right.receiver.num_buffered() >= crate::network::CHANNEL_CAPACITY
            || !self.right.receiver.connected() {
            return Err(message);
        }
        self.right.receiver.deliver(message)
    }

    /// The left upstream block's senders are gone: once its buffered batches
    /// are read, the left receiver answers `Disconnected`.
    pub fn close_left(&mut self)
        requires
            old(self).wf(),
        ensures
            final(self).wf(),
            !final(self).left.receiver.is_connected(),
            final(self).left.receiver.queue() == old(self).left.receiver.queue(),
            final(self).left.receiver.turn() == old(self).left.receiver.turn(),
            final(self).left == (SideReceiver { receiver: final(self).left.receiver, ..old(self).left }),
            final(self).right == old(self).right,
            final(self).first_message == old(self).first_message,
    {
        self.left.receiver.close();
    }

    /// The right upstream block's senders are gone: once its buffered batches
    /// are read, the right receiver answers `Disconnected`.
    pub fn close_right(&mut self)
        requires
            old(self).wf(),
        ensures
            final(self).wf(),
            !final(self).right.receiver.is_connected(),
            final(self).right.receiver.queue() == old(self).right.receiver.queue(),
            final(self).right.receiver.turn() == old(self).right.receiver.turn(),
            final(self).right == (SideReceiver { receiver: final(self).right.receiver, ..old(self).right }),
            final(self).left == old(self).left,
            final(self).first_message == old(self).first_message,
    {
        self.right.receiver.close();
    }

    /// Receives the next batch of the merged stream.
    pub fn recv(&mut self) -> (r: Result<NetworkMessage<BinaryElement<OutL, OutR>>, RecvTimeoutError>)
        requires
            old(self).wf(),
        ensures
            final(self).wf(),
            old(self).step(*final(self), r),
            old(self).pending_terminates() > 0 ==> {
                &&& *final(self) == *old(self)
                &&& r matches Ok(m) && m.batch@.len() == old(self).pending_terminates() && forall|
                    i: int,
                | 0 <= i < m.batch@.len() ==> (#[trigger] m.batch@[i]) is Terminate
            },
    {
        self.select()
    }

    /// Like `recv`: the wait for `timeout` cannot bring a batch.
    pub fn recv_timeout(&mut self, timeout: Duration) -> (r: Result<
        NetworkMessage<BinaryElement<OutL, OutR>>,
        RecvTimeoutError,
    >)
        requires
            old(self).wf(),
        ensures
            final(self).wf(),
            old(self).step(*final(self), r),
            old(self).pending_terminates() > 0 ==> {
                &&& *final(self) == *old(self)
                &&& r matches Ok(m) && m.batch@.len() == old(self).pending_terminates() && forall|
                    i: int,
                | 0 <= i < m.batch@.len() ==> (#[trigger] m.batch@[i]) is Terminate
            },
    {
        self.select()
    }
}

} // verus!
