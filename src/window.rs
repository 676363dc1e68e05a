use vstd::pervasive::cloned;
use vstd::prelude::*;

use crate::element::{StreamElement, Timestamp};

verus! {

/// State that absorbs the items of one window and produces its result.
pub trait WindowAccumulator: Clone {
    /// The items absorbed.
    type In;

    /// The result produced.
    type Out;

    /// The state after absorbing one more item.
    fn process(self, item: Self::In) -> Self;

    /// The result of the window, consuming the state.
    fn output(self) -> Self::Out;
}

/// What a window manager emits for a closed window.
#[derive(Clone, Debug, PartialEq, Eq)]
pub enum WindowResult<T> {
    Item(T),
    Timestamped(T, Timestamp),
}

impl<T> WindowResult<T> {
    /// The value of the result, whatever its timestamp.
    pub fn unwrap_item(self) -> (r: T)
        ensures
            self matches WindowResult::Item(x) ==> r == x,
            self matches WindowResult::Timestamped(x, _) ==> r == x,
    {
        match self {
            WindowResult::Item(x) => x,
            WindowResult::Timestamped(x, _) => x,
        }
    }
}

/// The open window: its accumulator and when it last received an item.
struct Slot<A> {
    acc: A,
    last: u64,
}

impl<A> Slot<A> {
    fn new(acc: A, last: u64) -> (r: Self)
        ensures
            r.acc == acc,
            r.last == last,
    {
        Slot { acc, last }
    }
}

/// Builds managers of windows that close after `gap` milliseconds without items.
#[derive(Clone, Debug)]
pub struct ContentDefinedWindow {
    gap: u64,
}

impl ContentDefinedWindow {
    /// The gap of inactivity, in milliseconds, that closes a window.
    pub closed spec fn gap_millis(&self) -> nat {
        self.gap as nat
    }

    /// Windows that close after `gap_millis` milliseconds without items.
    pub fn new(gap_millis: u64) -> (r: Self)
        requires
            gap_millis > 0,
        ensures
            r.gap_millis() == gap_millis,
    {
        ContentDefinedWindow { gap: gap_millis }
    }

    /// A manager with no open window, whose windows start from clones of `accumulator`.
    pub fn build<A: WindowAccumulator>(&self, accumulator: A) -> (r: ContentWindowManager<A>)
        ensures
            r.gap_millis() == self.gap_millis(),
            !r.is_open(),
            r.init_acc() == accumulator,
            r.chain_ok(),
    {
        ContentWindowManager {
            init: accumulator,
            gap: self.gap,
            w: None,
            items: Ghost(Seq::empty()),
            last_closed: Ghost(Seq::empty()),
            start: Ghost(accumulator),
            states: Ghost(Seq::empty()),
        }
    }
}

/// The window of one stream, delimited by gaps of inactivity.
///
/// An item opens a window if none is open and goes into it. A window whose last
/// item came more than the gap ago is closed when the next element arrives: its
/// result comes out first, and the element is then handled against a fresh window.
/// `FlushAndRestart` and `Terminate` close the open window.
pub struct ContentWindowManager<A: WindowAccumulator> {
    init: A,
    gap: u64,
    w: Option<Slot<A>>,
    items: Ghost<Seq<A::In>>,
    last_closed: Ghost<Seq<A::In>>,
    start: Ghost<A>,
    states: Ghost<Seq<A>>,
}

impl<A: WindowAccumulator> ContentWindowManager<A> {
    /// The gap of inactivity, in milliseconds, that closes a window.
    pub closed spec fn gap_millis(&self) -> nat {
        self.gap as nat
    }

    /// Whether a window is open.
    pub closed spec fn is_open(&self) -> bool {
        self.w is Some
    }

    /// When the open window last received an item.
    pub closed spec fn last_seen(&self) -> nat {
        match self.w {
            Some(slot) => slot.last as nat,
            None => 0,
        }
    }

    /// The items absorbed by the open window, in order.
    pub closed spec fn window_items(&self) -> Seq<A::In> {
        self.items@
    }

    /// The accumulator every window starts from a clone of.
    pub closed spec fn init_acc(&self) -> A {
        self.init
    }

    /// The accumulator of the open window.
    pub closed spec fn window_acc(&self) -> A {
        match self.w {
            Some(slot) => slot.acc,
            None => self.init,
        }
    }

    /// The clone of `init_acc()` the open window started from, before it
    /// absorbed `window_items()`.
    pub closed spec fn window_start(&self) -> A {
        self.start@
    }

    /// The states of the open window's accumulator: `window_start()`, then one
    /// more after each item of `window_items()`.
    pub closed spec fn window_states(&self) -> Seq<A> {
        self.states@
    }

    /// The open window's accumulator started as a clone of `init_acc()` and
    /// reached `window_acc()` by absorbing `window_items()` one by one.
    pub open spec fn chain_ok(&self) -> bool {
        self.is_open() ==> {
            let st = self.window_states();
            let xs = self.window_items();
            &&& st.len() == xs.len() + 1
            &&& st[0] == self.window_start()
            &&& st.last() == self.window_acc()
            &&& cloned(self.init_acc(), self.window_start())
            &&& forall|i: int|
                0 <= i < xs.len() ==> call_ensures(A::process, (st[i], xs[i]), #[trigger] st[i + 1])
        }
    }

    /// The items of the window closed last.
    pub closed spec fn last_closed(&self) -> Seq<A::In> {
        self.last_closed@
    }

    /// Whether at time `now` the open window has been idle for more than the gap.
    pub open spec fn expired_at(&self, now: nat) -> bool {
        self.is_open() && now > self.last_seen() && now - self.last_seen() > self.gap_millis()
    }

    /// Handles one element arriving at time `now`, in milliseconds, and returns
    /// the result of the window it closes, if any.
    pub fn process(&mut self, el: StreamElement<A::In>, now: u64) -> (r: Option<WindowResult<A::Out>>)
        requires
            old(self).chain_ok(),
        ensures
            final(self).chain_ok(),
            final(self).gap_millis() == old(self).gap_millis(),
            ({
                let expired = old(self).expired_at(now as nat);
                let kept = old(self).is_open() && !expired;
                let kept_items = if kept {
                    old(self).window_items()
                } else {
                    Seq::empty()
                };
                &&& el matches StreamElement::Item(x) ==> final(self).is_open()
                    && final(self).last_seen() == now && final(self).window_items()
                    == kept_items.push(x) && (r is Some <==> expired)
                &&& el matches StreamElement::Timestamped(x, _) ==> final(self).is_open()
                    && final(self).last_seen() == now && final(self).window_items()
                    == kept_items.push(x) && (r is Some <==> expired)
                &&& el.is_end() ==> !final(self).is_open() && (r is Some <==> old(self).is_open())
                &&& !el.is_data() && !el.is_end() ==> final(self).is_open() == kept && (kept
                    ==> final(self).last_seen() == old(self).last_seen()
                    && final(self).window_items() == old(self).window_items()) && (r is Some
                    <==> expired)
                &&& r matches Some(res) ==> res is Item && final(self).last_closed() == old(
                    self,
                ).window_items() && call_ensures(A::output, (old(self).window_acc(),), res->Item_0)
                &&& el.is_data() && !kept ==> cloned(old(self).init_acc(), final(self).window_start())
                &&& kept ==> final(self).window_start() == old(self).window_start()
                &&& el matches StreamElement::Item(x) ==> call_ensures(
                    A::process,
                    (
                        if kept {
                            old(self).window_acc()
                        } else {
                            final(self).window_start()
                        },
                        x,
                    ),
                    final(self).window_acc(),
                )
                &&& el matches StreamElement::Timestamped(x, _) ==> call_ensures(
                    A::process,
                    (
                        if kept {
                            old(self).window_acc()
                        } else {
                            final(self).window_start()
                        },
                        x,
                    ),
                    final(self).window_acc(),
                )
                &&& !el.is_data() && !el.is_end() && kept ==> final(self).window_acc() == old(
                    self,
                ).window_acc() && final(self).window_states() == old(self).window_states()
            }),
            final(self).init_acc() == old(self).init_acc(),
    {
        let ret = match self.w.take() {
            Some(slot) => {
                if now > slot.last && now - slot.last > self.gap {
                    proof {
                        self.last_closed@ = self.items@;
                        self.items@ = Seq::empty();
                    }
                    Some(WindowResult::Item(slot.acc.output()))
                } else {
                    self.w = Some(slot);
                    None
                }
            },
            None => None,
        };
        match el {
            StreamElement::Item(item) | StreamElement::Timestamped(item, _) => {
                let acc = match self.w.take() {
                    Some(s) => s.acc,
                    None => {
                        let a = self.init.clone();
                        proof {
                            self.items@ = Seq::empty();
                            self.start@ = a;
                            self.states@ = seq![a];
                        }
                        a
                    },
                };
                let ghost before = acc;
                let acc = acc.process(item);
                proof {
                    let old_items = self.items@;
                    let old_states = self.states@;
                    self.items@ = self.items@.push(item);
                    self.states@ = self.states@.push(acc);
                    assert forall|i: int| 0 <= i < self.items@.len() implies call_ensures(
                        A::process,
                        (self.states@[i], self.items@[i]),
                        #[trigger] self.states@[i + 1],
                    ) by {
                        if i < old_items.len() {
                            assert(self.states@[i] == old_states[i]);
                            assert(self.states@[i + 1] == old_states[i + 1]);
                            assert(self.items@[i] == old_items[i]);
                        }
                    }
                }
                self.w = Some(Slot::new(acc, now));
                ret
            },
            StreamElement::Terminate | StreamElement::FlushAndRestart => {
                if ret.is_some() {
                    ret
                } else {
                    match self.w.take() {
                        Some(s) => {
                            proof {
                                self.last_closed@ = self.items@;
                                self.items@ = Seq::empty();
                            }
                            Some(WindowResult::Item(s.acc.output()))
                        },
                        None => None,
                    }
                }
            },
            _ => ret,
        }
    }
}

} // verus!
