use std::collections::VecDeque;
use vstd::prelude::*;

use crate::element::StreamElement;

verus! {

/// Values that can travel in a stream.
pub trait Data: Clone + Send + 'static {

}

impl<T: Clone + Send + 'static> Data for T {

}

/// Values that are exchanged between blocks; their wire encoding lives beside the transport.
pub trait ExchangeData: Data {

}

impl<T: Data> ExchangeData for T {

}

/// Values that can be used as keys.
pub trait DataKey: Data + std::hash::Hash + Eq {

}

impl<T: Data + std::hash::Hash + Eq> DataKey for T {

}

/// Keys that are exchanged between blocks.
pub trait ExchangeDataKey: DataKey + ExchangeData {

}

impl<T: DataKey + ExchangeData> ExchangeDataKey for T {

}

/// Functions that extract the key of a value.
pub trait KeyerFn<Key, Out>: Fn(&Out) -> Key + Clone + Send + 'static {

}

impl<Key, Out, T: Fn(&Out) -> Key + Clone + Send + 'static> KeyerFn<Key, Out> for T {

}

/// A stage of an operator chain: each call of `next` pulls one element.
///
/// An operator is described by the elements it still has to emit. Once they are
/// all out it answers `Terminate` on every further call.
pub trait Operator<Out>: Sized {
    /// The elements this operator emits from now on, in order.
    spec fn pending(&self) -> Seq<StreamElement<Out>>;

    /// Takes the next element.
    fn next(&mut self) -> (r: StreamElement<Out>)
        ensures
            old(self).pending().len() > 0 ==> r == old(self).pending()[0] && final(self).pending()
                == old(self).pending().drop_first(),
            old(self).pending().len() == 0 ==> r is Terminate && final(self).pending().len() == 0,
    ;
}

/// A source operator that emits the elements it was given, in order.
pub struct VecSource<Out> {
    elements: VecDeque<StreamElement<Out>>,
}

impl<Out> VecSource<Out> {
    /// A source with nothing to emit.
    pub fn empty() -> (r: Self)
        ensures
            r.pending() == Seq::<StreamElement<Out>>::empty(),
    {
        VecSource { elements: VecDeque::new() }
    }

    /// A source that emits each item as an `Item`, in order.
    pub fn new(items: Vec<Out>) -> (r: Self)
        ensures
            r.pending().len() == items@.len(),
            forall|i: int|
                0 <= i < items@.len() ==> #[trigger] r.pending()[i] == StreamElement::Item(
                    items@[i],
                ),
    {
        let mut items = items;
        let ghost all = items@;
        let mut rev: Vec<Out> = Vec::new();
        while items.len() > 0
            invariant
                all == items@ + rev@.reverse(),
            decreases items.len(),
        {
            let x = items.pop().unwrap();
            rev.push(x);
            assert(all == items@ + rev@.reverse());
        }
        let mut elements: VecDeque<StreamElement<Out>> = VecDeque::new();
        while rev.len() > 0
            invariant
                all == elements@.map_values(|e: StreamElement<Out>| e->Item_0) + rev@.reverse(),
                forall|i: int| 0 <= i < elements@.len() ==> #[trigger] elements@[i] is Item,
            decreases rev.len(),
        {
            let x = rev.pop().unwrap();
            elements.push_back(StreamElement::Item(x));
            assert(all == elements@.map_values(|e: StreamElement<Out>| e->Item_0) + rev@.reverse());
        }
        VecSource { elements }
    }

    /// Appends an element to those still to emit.
    pub fn push(&mut self, element: StreamElement<Out>)
        ensures
            final(self).pending() == old(self).pending().push(element),
    {
        self.elements.push_back(element);
    }
}

impl<Out> Operator<Out> for VecSource<Out> {
    closed spec fn pending(&self) -> Seq<StreamElement<Out>> {
        self.elements@
    }

    fn next(&mut self) -> (r: StreamElement<Out>) {
        match self.elements.pop_front() {
            Some(e) => e,
            None => StreamElement::Terminate,
        }
    }
}

} // verus!
