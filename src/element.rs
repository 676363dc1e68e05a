use vstd::prelude::*;

verus! {

/// Timestamp of a message or a watermark, in time units since the epoch.
pub type Timestamp = i64;

/// The largest representable timestamp.
pub fn timestamp_max() -> (r: Timestamp)
    ensures
        r == i64::MAX,
{
    i64::MAX
}

/// An element of a stream: what enters and exits every operator.
///
/// On one channel the elements follow the shape
/// `((Item | Timestamped | Watermark | FlushBatch)* FlushAndRestart)+ Terminate`.
#[derive(Debug, Clone, PartialEq, Eq)]
pub enum StreamElement<Out> {
    /// A plain value.
    Item(Out),
    /// A value carrying its event timestamp.
    Timestamped(Out, Timestamp),
    /// No later element of this channel has a timestamp at or below this one.
    Watermark(Timestamp),
    /// Buffered batches should be sent on now.
    FlushBatch,
    /// End of all the data of this channel; nothing follows it.
    Terminate,
    /// End of one pass over the data; operators emit what they hold and reset.
    FlushAndRestart,
}


/// `s` has the shape of a whole channel:
/// `((Item | Timestamped | Watermark | FlushBatch)* FlushAndRestart)+ Terminate`.
pub open spec fn well_formed<T>(s: Seq<StreamElement<T>>) -> bool {
    &&& s.len() >= 2
    &&& s.last() is Terminate
    &&& s[s.len() - 2] is FlushAndRestart
    &&& forall|i: int| 0 <= i < s.len() - 1 ==> !(#[trigger] s[i] is Terminate)
}

/// Every `Terminate` of `s` comes right after a `FlushAndRestart` or another
/// `Terminate`: up to its first `Terminate`, `s` is a well-formed channel.
pub open spec fn terminate_follows_end<T>(s: Seq<StreamElement<T>>) -> bool {
    forall|i: int|
        0 <= i < s.len() && #[trigger] s[i] is Terminate ==> i > 0 && (s[i - 1] is FlushAndRestart
            || s[i - 1] is Terminate)
}

/// `s` has the shape of what an aggregating operator emits, pass by pass: at
/// most one value, then at most one watermark, then the end of the pass.
/// `FlushBatch` never appears, every `Terminate` follows a `FlushAndRestart`
/// or a `Terminate`, and after a `Terminate` only `Terminate` comes.
pub open spec fn aggregate_shaped<T>(s: Seq<StreamElement<T>>) -> bool {
    &&& terminate_follows_end(s)
    &&& forall|i: int|
        0 <= i < s.len() && (#[trigger] s[i]).is_data() ==> i == 0 || s[i - 1] is FlushAndRestart
    &&& forall|i: int|
        0 <= i < s.len() && #[trigger] s[i] is Watermark ==> i == 0 || s[i - 1] is FlushAndRestart
            || s[i - 1].is_data()
    &&& forall|i: int| 0 <= i < s.len() ==> !(#[trigger] s[i] is FlushBatch)
    &&& forall|i: int| 0 < i < s.len() && #[trigger] s[i] is FlushAndRestart ==> !(s[i - 1] is Terminate)
}

impl<Out> StreamElement<Out> {
    /// Whether this element carries a payload.
    pub open spec fn is_data(self) -> bool {
        self is Item || self is Timestamped
    }

    /// Whether this element ends a pass or the whole stream.
    pub open spec fn is_end(self) -> bool {
        self is FlushAndRestart || self is Terminate
    }

    /// The same variant with an empty payload: `Item(())` for both data variants.
    pub fn take(&self) -> (r: StreamElement<()>)
        ensures
            self.is_data() ==> r == StreamElement::Item(()),
            self matches StreamElement::Watermark(w) ==> r == StreamElement::<()>::Watermark(*w),
            self is FlushBatch ==> r is FlushBatch,
            self is Terminate ==> r is Terminate,
            self is FlushAndRestart ==> r is FlushAndRestart,
    {
        match self {
            StreamElement::Item(_) => StreamElement::Item(()),
            StreamElement::Timestamped(_, _) => StreamElement::Item(()),
            StreamElement::Watermark(w) => StreamElement::Watermark(*w),
            StreamElement::Terminate => StreamElement::Terminate,
            StreamElement::FlushAndRestart => StreamElement::FlushAndRestart,
            StreamElement::FlushBatch => StreamElement::FlushBatch,
        }
    }

    /// Changes the payload through `f`, keeping the variant and the timestamp.
    pub fn map<NewOut, F: FnOnce(Out) -> NewOut>(self, f: F) -> (r: StreamElement<NewOut>)
        requires
            self matches StreamElement::Item(x) ==> f.requires((x,)),
            self matches StreamElement::Timestamped(x, _) ==> f.requires((x,)),
        ensures
            self matches StreamElement::Item(x) ==> (r matches StreamElement::Item(y) && f.ensures(
                (x,),
                y,
            )),
            self matches StreamElement::Timestamped(x, t) ==> (r matches StreamElement::Timestamped(
                y,
                u,
            ) && u == t && f.ensures((x,), y)),
            self matches StreamElement::Watermark(w) ==> r == StreamElement::<NewOut>::Watermark(w),
            self is FlushBatch ==> r is FlushBatch,
            self is Terminate ==> r is Terminate,
            self is FlushAndRestart ==> r is FlushAndRestart,
    {
        match self {
            StreamElement::Item(item) => StreamElement::Item(f(item)),
            StreamElement::Timestamped(item, ts) => StreamElement::Timestamped(f(item), ts),
            StreamElement::Watermark(w) => StreamElement::Watermark(w),
            StreamElement::Terminate => StreamElement::Terminate,
            StreamElement::FlushAndRestart => StreamElement::FlushAndRestart,
            StreamElement::FlushBatch => StreamElement::FlushBatch,
        }
    }

    /// The name of the variant.
    pub fn variant(&self) -> (r: &'static str)
        ensures
            self is Item ==> r@ == "Item"@,
            self is Timestamped ==> r@ == "Timestamped"@,
            self is Watermark ==> r@ == "Watermark"@,
            self is FlushBatch ==> r@ == "FlushBatch"@,
            self is Terminate ==> r@ == "Terminate"@,
            self is FlushAndRestart ==> r@ == "FlushAndRestart"@,
    {
        match self {
            StreamElement::Item(_) => "Item",
            StreamElement::Timestamped(_, _) => "Timestamped",
            StreamElement::Watermark(_) => "Watermark",
            StreamElement::FlushBatch => "FlushBatch",
            StreamElement::Terminate => "Terminate",
            StreamElement::FlushAndRestart => "FlushAndRestart",
        }
    }
}

impl<Key, Out> StreamElement<(Key, Out)> {
    /// Splits the key off a keyed element; control elements have no key.
    pub fn remove_key(self) -> (r: (Option<Key>, StreamElement<Out>))
        ensures
            self matches StreamElement::Item(kv) ==> r == (Some(kv.0), StreamElement::Item(kv.1)),
            self matches StreamElement::Timestamped(kv, t) ==> r == (
                Some(kv.0),
                StreamElement::Timestamped(kv.1, t),
            ),
            self matches StreamElement::Watermark(w) ==> r == (
                Option::<Key>::None,
                StreamElement::<Out>::Watermark(w),
            ),
            self is FlushBatch ==> r.0 is None && r.1 is FlushBatch,
            self is Terminate ==> r.0 is None && r.1 is Terminate,
            self is FlushAndRestart ==> r.0 is None && r.1 is FlushAndRestart,
    {
        match self {
            StreamElement::Item((k, v)) => (Some(k), StreamElement::Item(v)),
            StreamElement::Timestamped((k, v), ts) => (Some(k), StreamElement::Timestamped(v, ts)),
            StreamElement::Watermark(w) => (None, StreamElement::Watermark(w)),
            StreamElement::FlushBatch => (None, StreamElement::FlushBatch),
            StreamElement::Terminate => (None, StreamElement::Terminate),
            StreamElement::FlushAndRestart => (None, StreamElement::FlushAndRestart),
        }
    }
}

} // verus!
