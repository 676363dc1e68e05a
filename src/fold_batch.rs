use vstd::pervasive::cloned;
use vstd::prelude::*;

use crate::element::{aggregate_shaped, terminate_follows_end, well_formed, StreamElement, Timestamp};
use crate::operator::Operator;

verus! {

/// The payloads of the data elements of `s`, in order.
pub open spec fn data_of<T>(s: Seq<StreamElement<T>>) -> Seq<T>
    decreases s.len(),
{
    if s.len() == 0 {
        Seq::empty()
    } else {
        let rest = data_of(s.drop_last());
        match s.last() {
            StreamElement::Item(x) => rest.push(x),
            StreamElement::Timestamped(x, _) => rest.push(x),
            _ => rest,
        }
    }
}

/// The larger of `t` and the current maximum, if any.
pub open spec fn max_with(current: Option<Timestamp>, t: Timestamp) -> Timestamp {
    match current {
        Some(m) => if m >= t {
            m
        } else {
            t
        },
        None => t,
    }
}

/// The largest of `start` and the timestamps of the timestamped elements of `s`.
pub open spec fn max_timestamp<T>(s: Seq<StreamElement<T>>, start: Option<Timestamp>) -> Option<
    Timestamp,
>
    decreases s.len(),
{
    if s.len() == 0 {
        start
    } else {
        let rest = max_timestamp(s.drop_last(), start);
        match s.last() {
            StreamElement::Timestamped(_, t) => Some(max_with(rest, t)),
            _ => rest,
        }
    }
}

/// The largest of `start` and the watermarks of `s`.
pub open spec fn max_watermark<T>(s: Seq<StreamElement<T>>, start: Option<Timestamp>) -> Option<
    Timestamp,
>
    decreases s.len(),
{
    if s.len() == 0 {
        start
    } else {
        let rest = max_watermark(s.drop_last(), start);
        match s.last() {
            StreamElement::Watermark(t) => Some(max_with(rest, t)),
            _ => rest,
        }
    }
}

/// The index of the first element of `s` that ends a pass, or `s.len()` if none does.
pub open spec fn end_index<T>(s: Seq<StreamElement<T>>) -> nat
    decreases s.len(),
{
    if s.len() == 0 {
        0
    } else if s[0].is_end() {
        0
    } else {
        1 + end_index(s.drop_first())
    }
}

/// How many elements one pass reads from `s`: up to and including the first end.
pub open spec fn pass_len<T>(s: Seq<StreamElement<T>>) -> int {
    if end_index(s) < s.len() {
        end_index(s) + 1int
    } else {
        s.len() as int
    }
}

/// Whether the pass read from `s` ends with `FlushAndRestart`, so that another one follows.
pub open spec fn pass_restarts<T>(s: Seq<StreamElement<T>>) -> bool {
    end_index(s) < s.len() && s[end_index(s) as int] is FlushAndRestart
}

/// The batches of `bs` one after the other.
pub open spec fn concat<T>(bs: Seq<Vec<T>>) -> Seq<T>
    decreases bs.len(),
{
    if bs.len() == 0 {
        Seq::empty()
    } else {
        concat(bs.drop_last()) + bs.last()@
    }
}

/// `bs` cuts `items` in arrival order into batches of `size` items, the last one
/// possibly shorter (a size of zero makes one batch of everything), and `accs`
/// are the accumulators of a fold of those batches by `f`, starting from a clone
/// of `init`.
pub open spec fn fold_chain<Out, NewOut: Clone, F: Fn(NewOut, Vec<Out>) -> NewOut>(
    f: F,
    init: NewOut,
    size: nat,
    items: Seq<Out>,
    bs: Seq<Vec<Out>>,
    accs: Seq<NewOut>,
) -> bool {
    &&& concat(bs) == items
    &&& forall|i: int| 0 <= i < bs.len() - 1 ==> (#[trigger] bs[i])@.len() == size
    &&& bs.len() > 0 ==> bs.last()@.len() > 0 && (size > 0 ==> bs.last()@.len() <= size)
    &&& accs.len() == bs.len() + 1
    &&& cloned(init, accs[0])
    &&& forall|i: int| 0 <= i < bs.len() ==> f.ensures((accs[i], #[trigger] bs[i]), accs[i + 1])
}

/// `result` is what folding `items` by `f` in batches of `size`, from `init`, gives.
pub open spec fn batched_fold<Out, NewOut: Clone, F: Fn(NewOut, Vec<Out>) -> NewOut>(
    f: F,
    init: NewOut,
    size: nat,
    items: Seq<Out>,
    result: NewOut,
) -> bool {
    exists|bs: Seq<Vec<Out>>, accs: Seq<NewOut>|
        #[trigger] fold_chain(f, init, size, items, bs, accs) && accs.last() == result
}

/// `r` is the aggregate of `items` folded by `f` from `init` in batches of `size`,
/// timestamped exactly when `ts` holds a timestamp.
pub open spec fn aggregate_emitted<Out, NewOut: Clone, F: Fn(NewOut, Vec<Out>) -> NewOut>(
    r: StreamElement<NewOut>,
    f: F,
    init: NewOut,
    size: nat,
    items: Seq<Out>,
    ts: Option<Timestamp>,
) -> bool {
    match r {
        StreamElement::Item(a) => ts is None && batched_fold(f, init, size, items, a),
        StreamElement::Timestamped(a, t) => ts == Some(t) && batched_fold(f, init, size, items, a),
        _ => false,
    }
}

/// `r` is the control element that follows a pass: its largest watermark if it had
/// one, else `FlushAndRestart` when another pass follows, else `Terminate`.
pub open spec fn control_emitted<T>(
    r: StreamElement<T>,
    watermark: Option<Timestamp>,
    restart: bool,
) -> bool {
    match watermark {
        Some(w) => r == StreamElement::<T>::Watermark(w),
        None => if restart {
            r is FlushAndRestart
        } else {
            r is Terminate
        },
    }
}

/// The watermarks of `s` never decrease.
pub open spec fn watermarks_nondecreasing<T>(s: Seq<StreamElement<T>>) -> bool {
    forall|i: int, j: int|
        0 <= i < j < s.len() && #[trigger] s[i] is Watermark && #[trigger] s[j] is Watermark
            ==> s[i]->Watermark_0 <= s[j]->Watermark_0
}

proof fn lemma_max_watermark<T>(s: Seq<StreamElement<T>>)
    ensures
        forall|i: int|
            0 <= i < s.len() && #[trigger] s[i] is Watermark ==> max_watermark(s, None) is Some
                && s[i]->Watermark_0 <= max_watermark(s, None)->Some_0,
        max_watermark(s, None) is Some ==> exists|i: int|
            0 <= i < s.len() && #[trigger] s[i] == StreamElement::<T>::Watermark(
                max_watermark(s, None)->Some_0,
            ),
    decreases s.len(),
{
    if s.len() > 0 {
        let t = s.drop_last();
        lemma_max_watermark(t);
        assert forall|i: int| 0 <= i < s.len() && #[trigger] s[i] is Watermark implies max_watermark(
            s,
            None,
        ) is Some && s[i]->Watermark_0 <= max_watermark(s, None)->Some_0 by {
            if i < s.len() - 1 {
                assert(t[i] == s[i]);
            }
        }
        if max_watermark(s, None) is Some {
            if s.last() is Watermark && max_watermark(s, None)->Some_0 == s.last()->Watermark_0 {
                assert(s[s.len() - 1] == StreamElement::<T>::Watermark(
                    max_watermark(s, None)->Some_0,
                ));
            } else {
                let j = choose|j: int|
                    0 <= j < t.len() && #[trigger] t[j] == StreamElement::<T>::Watermark(
                        max_watermark(t, None)->Some_0,
                    );
                assert(s[j] == t[j]);
            }
        }
    }
}

/// On a channel whose watermarks never decrease, the largest watermark of a
/// pass is at least the largest of any earlier pass: the watermarks a fold
/// emits, one per pass, never decrease.
pub proof fn lemma_watermark_monotone<T>(earlier: Seq<StreamElement<T>>, later: Seq<StreamElement<T>>)
    requires
        watermarks_nondecreasing(earlier + later),
        max_watermark(earlier, None) is Some,
        max_watermark(later, None) is Some,
    ensures
        max_watermark(earlier, None)->Some_0 <= max_watermark(later, None)->Some_0,
{
    lemma_max_watermark(earlier);
    lemma_max_watermark(later);
    let all = earlier + later;
    let i = choose|i: int|
        0 <= i < earlier.len() && #[trigger] earlier[i] == StreamElement::<T>::Watermark(
            max_watermark(earlier, None)->Some_0,
        );
    let j = choose|j: int|
        0 <= j < later.len() && #[trigger] later[j] == StreamElement::<T>::Watermark(
            max_watermark(later, None)->Some_0,
        );
    assert(all[i] == earlier[i]);
    assert(all[earlier.len() + j] == later[j]);
}

proof fn lemma_end_index_le<T>(s: Seq<StreamElement<T>>, i: int)
    requires
        0 <= i < s.len(),
        s[i].is_end(),
    ensures
        end_index(s) <= i,
        s[end_index(s) as int].is_end(),
    decreases s.len(),
{
    if !s[0].is_end() {
        let t = s.drop_first();
        assert(t[i - 1] == s[i]);
        lemma_end_index_le(t, i - 1);
        assert(t[end_index(t) as int] == s[end_index(s) as int]);
    }
}

proof fn lemma_nondecreasing_prefix<T>(s: Seq<StreamElement<T>>, n: int)
    requires
        watermarks_nondecreasing(s),
        0 <= n <= s.len(),
    ensures
        watermarks_nondecreasing(s.take(n)),
{
    let t = s.take(n);
    assert forall|i: int, j: int|
        0 <= i < j < t.len() && #[trigger] t[i] is Watermark && #[trigger] t[j] is Watermark
            implies t[i]->Watermark_0 <= t[j]->Watermark_0 by {
        assert(t[i] == s[i] && t[j] == s[j]);
    }
}

/// The largest watermark of a pass is one of the watermarks read so far, and
/// none of them is larger, when watermarks never decrease.
proof fn lemma_pass_max<T>(c0: Seq<StreamElement<T>>, pass: Seq<StreamElement<T>>)
    requires
        watermarks_nondecreasing(c0 + pass),
        max_watermark(pass, None) is Some,
    ensures
        ({
            let w = max_watermark(pass, None)->Some_0;
            let c1 = c0 + pass;
            &&& exists|j: int| 0 <= j < c1.len() && c1[j] == StreamElement::<T>::Watermark(w)
            &&& forall|j: int|
                0 <= j < c1.len() && #[trigger] c1[j] is Watermark ==> c1[j]->Watermark_0 <= w
        }),
{
    lemma_max_watermark(pass);
    let w = max_watermark(pass, None)->Some_0;
    let c1 = c0 + pass;
    let i = choose|i: int|
        0 <= i < pass.len() && #[trigger] pass[i] == StreamElement::<T>::Watermark(w);
    assert(c1[c0.len() + i] == pass[i]);
    assert forall|j: int| 0 <= j < c1.len() && #[trigger] c1[j] is Watermark implies c1[j]->Watermark_0
        <= w by {
        if j >= c0.len() {
            assert(c1[j] == pass[j - c0.len()]);
        } else {
            assert(c1[c0.len() + i] is Watermark);
        }
    }
}

/// On a well-formed channel read up to a `FlushAndRestart` (or not at all), the
/// next pass is there, and it ends the channel only when it is the final
/// `Terminate` alone.
proof fn lemma_terminal_pass<T>(input: Seq<StreamElement<T>>, c: int)
    requires
        well_formed(input),
        0 <= c <= input.len(),
        c == 0 || input[c - 1] is FlushAndRestart,
    ensures
        c < input.len(),
        !pass_restarts(input.skip(c)) ==> c == input.len() - 1 && pass_len(input.skip(c)) == 1
            && input[c] is Terminate,
{
    let n = input.len() as int;
    let rest = input.skip(c);
    assert(rest[n - c - 1] == input[n - 1]);
    lemma_end_index_le(rest, n - c - 1);
    let k = end_index(rest) as int;
    if !pass_restarts(rest) {
        assert(rest[k] == input[c + k]);
        if c + k < n - 1 {
            assert(!(input[c + k] is Terminate));
        }
        if n - c >= 2 {
            assert(rest[n - c - 2] == input[n - 2]);
            lemma_end_index_le(rest, n - c - 2);
        }
    }
}

proof fn lemma_end_index<T>(s: Seq<StreamElement<T>>, j: int)
    requires
        0 <= j <= s.len(),
        forall|i: int| 0 <= i < j ==> !(#[trigger] s[i]).is_end(),
    ensures
        end_index(s) >= j,
        j < s.len() && s[j].is_end() ==> end_index(s) == j,
        j == s.len() ==> end_index(s) == s.len(),
    decreases j,
{
    if j > 0 {
        let t = s.drop_first();
        assert forall|i: int| 0 <= i < j - 1 implies !(#[trigger] t[i]).is_end() by {
            assert(t[i] == s[i + 1]);
        }
        assert(!s[0].is_end());
        assert(end_index(s) == 1 + end_index(t));
        lemma_end_index(t, j - 1);
        if j < s.len() {
            assert(t[j - 1] == s[j]);
        }
    }
}

/// Folds the items of each pass in batches and emits one aggregate per pass.
///
/// Items are gathered in arrival order; each time `batch_size` of them are
/// there they are handed to `fold` with the accumulator. At the end of a pass
/// what is left is folded too, and the aggregate comes out, timestamped with
/// the largest timestamp seen if any item carried one. Then come the largest
/// watermark of the pass, if any, and the element that ended the pass.
#[verifier::reject_recursive_types(Out)]
#[verifier::reject_recursive_types(NewOut)]
pub struct FoldBatch<Out, NewOut, F, PreviousOperators> where
    F: Fn(NewOut, Vec<Out>) -> NewOut,
    PreviousOperators: Operator<Out>,
 {
    prev: PreviousOperators,
    fold: F,
    init: NewOut,
    accumulator: Option<NewOut>,
    timestamp: Option<Timestamp>,
    max_watermark: Option<Timestamp>,
    received_end: bool,
    received_end_iter: bool,
    batch_size: usize,
    store: Vec<Out>,
    seen: Ghost<Seq<Out>>,
    batches: Ghost<Seq<Vec<Out>>>,
    partials: Ghost<Seq<NewOut>>,
    input: Ghost<Seq<StreamElement<Out>>>,
    consumed: Ghost<Seq<StreamElement<Out>>>,
    emitted: Ghost<Seq<StreamElement<NewOut>>>,
}

impl<Out, NewOut: Clone, F, PreviousOperators> FoldBatch<Out, NewOut, F, PreviousOperators> where
    F: Fn(NewOut, Vec<Out>) -> NewOut,
    PreviousOperators: Operator<Out>,
 {
    /// What the upstream operator still emits.
    pub closed spec fn upstream(&self) -> Seq<StreamElement<Out>> {
        self.prev.pending()
    }

    /// The fold function.
    pub closed spec fn fold_fn(&self) -> F {
        self.fold
    }

    /// The value each aggregate starts from.
    pub closed spec fn init_value(&self) -> NewOut {
        self.init
    }

    /// How many items are folded at once.
    pub closed spec fn size(&self) -> nat {
        self.batch_size as nat
    }

    /// The items received in the current pass and not yet emitted.
    pub closed spec fn seen(&self) -> Seq<Out> {
        self.seen@
    }

    /// The largest timestamp among the items of `seen`.
    pub closed spec fn timestamp_seen(&self) -> Option<Timestamp> {
        self.timestamp
    }

    /// The largest watermark received and not yet emitted.
    pub closed spec fn watermark_seen(&self) -> Option<Timestamp> {
        self.max_watermark
    }

    /// Whether the current pass has been read to its end.
    pub closed spec fn ended(&self) -> bool {
        self.received_end
    }

    /// Whether the pass read ended with `FlushAndRestart`.
    pub closed spec fn restarting(&self) -> bool {
        self.received_end_iter
    }

    /// The state invariant.
    pub closed spec fn wf(&self) -> bool {
        &&& forall|a: NewOut, b: Vec<Out>| #[trigger] self.fold.requires((a, b))
        &&& self.batch_size > 0 ==> self.store@.len() < self.batch_size
        &&& self.batch_size == 0 ==> self.batches@.len() == 0
        &&& forall|i: int|
            0 <= i < self.batches@.len() ==> (#[trigger] self.batches@[i])@.len()
                == self.batch_size
        &&& concat(self.batches@) + self.store@ == self.seen@
        &&& self.accumulator is Some ==> self.seen@.len() > 0
        &&& self.accumulator is None ==> self.seen@.len() == 0 && self.batches@.len() == 0
            && self.timestamp is None
        &&& self.accumulator is Some ==> {
            &&& self.partials@.len() == self.batches@.len() + 1
            &&& cloned(self.init, self.partials@[0])
            &&& forall|i: int|
                0 <= i < self.batches@.len() ==> self.fold.ensures(
                    (self.partials@[i], #[trigger] self.batches@[i]),
                    self.partials@[i + 1],
                )
            &&& self.accumulator == Some(self.partials@.last())
        }
        &&& !self.received_end ==> !self.received_end_iter
        &&& self.consumed@ + self.prev.pending() == self.input@
    }

    /// Everything the upstream operator had to emit when this one was built.
    pub closed spec fn input(&self) -> Seq<StreamElement<Out>> {
        self.input@
    }

    /// Everything this operator has emitted, in order.
    pub closed spec fn emitted(&self) -> Seq<StreamElement<NewOut>> {
        self.emitted@
    }

    /// Every watermark emitted is at most one read from upstream, the one
    /// waiting to be emitted is the largest read so far, and the emitted
    /// watermarks never decrease.
    pub closed spec fn watermark_ok(&self) -> bool {
        let c = self.consumed@;
        let e = self.emitted@;
        &&& forall|k: int|
            0 <= k < e.len() && #[trigger] e[k] is Watermark ==> exists|j: int|
                0 <= j < c.len() && c[j] is Watermark && e[k]->Watermark_0 <= c[j]->Watermark_0
        &&& self.max_watermark matches Some(w) ==> (exists|j: int|
            0 <= j < c.len() && c[j] == StreamElement::<Out>::Watermark(w)) && forall|j: int|
            0 <= j < c.len() && #[trigger] c[j] is Watermark ==> c[j]->Watermark_0 <= w
        &&& watermarks_nondecreasing(e)
    }

    /// A measure of the work left before `Terminate`: it drops with every other
    /// element emitted while the upstream channel is well-formed.
    pub closed spec fn rank(&self) -> nat {
        4 * self.prev.pending().len() + if !self.received_end {
            0nat
        } else if self.max_watermark is Some {
            2nat
        } else if self.received_end_iter {
            1nat
        } else {
            0nat
        }
    }

    /// The history invariant that holds while the upstream channel is well-formed.
    pub closed spec fn history_ok(&self) -> bool {
        let c = self.consumed@;
        let e = self.emitted@;
        &&& aggregate_shaped(e)
        &&& self.received_end && self.max_watermark is Some ==> e.len() > 0 && e.last().is_data()
        &&& self.received_end && self.received_end_iter ==> e.len() == 0 || !(e.last() is Terminate)
        &&& !self.received_end ==> self.seen@.len() == 0 && self.max_watermark is None && (
        (c.len() == 0 && e.len() == 0) || (c.len() > 0 && c.last() is FlushAndRestart && e.len()
            > 0 && e.last() is FlushAndRestart))
        &&& self.received_end ==> self.seen@.len() == 0
        &&& self.received_end && self.received_end_iter ==> c.len() > 0
            && c.last() is FlushAndRestart
        &&& self.received_end && !self.received_end_iter ==> self.max_watermark is None
            && e.len() > 0 && (e.last() is FlushAndRestart || e.last() is Terminate) && c
            == self.input@
    }

    /// A fold over the elements of `prev`, from `init`, by batches of `batch_size`.
    pub fn new(prev: PreviousOperators, init: NewOut, fold: F, batch_size: usize) -> (r: Self)
        requires
            forall|a: NewOut, b: Vec<Out>| #[trigger] fold.requires((a, b)),
        ensures
            r.wf(),
            r.upstream() == prev.pending(),
            r.fold_fn() == fold,
            r.init_value() == init,
            r.size() == batch_size,
            r.seen().len() == 0,
            r.timestamp_seen() is None,
            r.watermark_seen() is None,
            !r.ended(),
            r.input() == prev.pending(),
            r.emitted().len() == 0,
            r.history_ok(),
            r.watermark_ok(),
    {
        FoldBatch {
            prev,
            fold,
            init,
            accumulator: None,
            timestamp: None,
            max_watermark: None,
            received_end: false,
            received_end_iter: false,
            batch_size,
            store: Vec::new(),
            seen: Ghost(Seq::empty()),
            batches: Ghost(Seq::empty()),
            partials: Ghost(Seq::empty()),
            input: Ghost(prev.pending()),
            consumed: Ghost(Seq::empty()),
            emitted: Ghost(Seq::empty()),
        }
    }

    /// Adds one item to the store, folding the store when it is full.
    fn absorb(&mut self, item: Out)
        requires
            old(self).wf(),
        ensures
            final(self).wf(),
            final(self).seen@ == old(self).seen@.push(item),
            final(self).prev == old(self).prev,
            final(self).fold == old(self).fold,
            final(self).init == old(self).init,
            final(self).batch_size == old(self).batch_size,
            final(self).timestamp == old(self).timestamp,
            final(self).max_watermark == old(self).max_watermark,
            final(self).received_end == old(self).received_end,
            final(self).received_end_iter == old(self).received_end_iter,
            final(self).input == old(self).input,
            final(self).consumed == old(self).consumed,
            final(self).emitted == old(self).emitted,
    {
        if self.accumulator.is_none() {
            let a = self.init.clone();
            proof {
                self.partials@ = seq![a];
            }
            self.accumulator = Some(a);
        }
        self.store.push(item);
        proof {
            self.seen@ = self.seen@.push(item);
            assert(concat(self.batches@) + self.store@ =~= self.seen@);
        }
        if self.store.len() == self.batch_size {
            let mut batch: Vec<Out> = Vec::new();
            core::mem::swap(&mut self.store, &mut batch);
            let acc = self.accumulator.take().unwrap();
            let next = (self.fold)(acc, batch);
            proof {
                let old_batches = self.batches@;
                self.batches@ = self.batches@.push(batch);
                self.partials@ = self.partials@.push(next);
                assert(self.batches@.drop_last() =~= old_batches);
                assert(concat(self.batches@) + self.store@ =~= self.seen@);
            }
            self.accumulator = Some(next);
        }
    }

    /// Reads the rest of the current pass from upstream.
    fn pull_pass(&mut self)
        requires
            old(self).wf(),
            !old(self).received_end,
        ensures
            final(self).wf(),
            final(self).received_end,
            final(self).prev.pending() == old(self).prev.pending().skip(
                pass_len(old(self).prev.pending()),
            ),
            final(self).seen@ == old(self).seen@ + data_of(
                old(self).prev.pending().take(pass_len(old(self).prev.pending())),
            ),
            final(self).timestamp == max_timestamp(
                old(self).prev.pending().take(pass_len(old(self).prev.pending())),
                old(self).timestamp,
            ),
            final(self).max_watermark == max_watermark(
                old(self).prev.pending().take(pass_len(old(self).prev.pending())),
                old(self).max_watermark,
            ),
            final(self).received_end_iter == pass_restarts(old(self).prev.pending()),
            final(self).fold == old(self).fold,
            final(self).init == old(self).init,
            final(self).batch_size == old(self).batch_size,
            final(self).input == old(self).input,
            final(self).emitted == old(self).emitted,
            final(self).consumed@ == old(self).consumed@ + old(self).prev.pending().take(
                pass_len(old(self).prev.pending()),
            ),
    {
        let ghost input = self.prev.pending();
        let ghost consumed0 = self.consumed@;
        let ghost seen0 = self.seen@;
        let ghost ts0 = self.timestamp;
        let ghost wm0 = self.max_watermark;
        let ghost fold0 = self.fold;
        let ghost init0 = self.init;
        let ghost mut j: int = 0;
        while !self.received_end
            invariant
                self.wf(),
                self.fold == fold0,
                self.init == init0,
                self.batch_size == old(self).batch_size,
                0 <= j <= input.len(),
                self.prev.pending() == input.skip(j),
                !self.received_end ==> forall|i: int| 0 <= i < j ==> !(#[trigger] input[i]).is_end(),
                self.received_end ==> j == pass_len(input) && self.received_end_iter
                    == pass_restarts(input),
                self.seen@ == seen0 + data_of(input.take(j)),
                self.consumed@ == consumed0 + input.take(j),
                self.input == old(self).input,
                self.emitted == old(self).emitted,
                self.timestamp == max_timestamp(input.take(j), ts0),
                self.max_watermark == max_watermark(input.take(j), wm0),
            decreases self.prev.pending().len() + if self.received_end {
                0int
            } else {
                1int
            },
        {
            proof {
                lemma_end_index(input, j);
                if j < input.len() {
                    assert(input.take(j + 1).drop_last() =~= input.take(j));
                    assert(input.skip(j).drop_first() =~= input.skip(j + 1));
                    assert(input.skip(j)[0] == input[j]);
                } else {
                    assert(input.take(j) =~= input);
                }
            }
            let e = self.prev.next();
            let ghost ge = e;
            proof {
                if j < input.len() {
                    self.consumed@ = self.consumed@.push(ge);
                    assert(self.consumed@ + self.prev.pending() =~= self.input@) by {
                        assert(consumed0 + input.take(j) + input.skip(j) =~= self.input@) by {
                            assert(input.take(j) + input.skip(j) =~= input);
                            assert(consumed0 + input =~= old(self).input@);
                        }
                    }
                }
            }
            match e {
                StreamElement::Terminate => {
                    self.received_end = true;
                },
                StreamElement::FlushAndRestart => {
                    self.received_end = true;
                    self.received_end_iter = true;
                },
                StreamElement::Watermark(ts) => {
                    self.max_watermark = Some(
                        match self.max_watermark {
                            Some(m) => if m >= ts {
                                m
                            } else {
                                ts
                            },
                            None => ts,
                        },
                    );
                },
                StreamElement::Item(item) => {
                    self.absorb(item);
                },
                StreamElement::Timestamped(item, ts) => {
                    self.absorb(item);
                    self.timestamp = Some(
                        match self.timestamp {
                            Some(m) => if m >= ts {
                                m
                            } else {
                                ts
                            },
                            None => ts,
                        },
                    );
                },
                StreamElement::FlushBatch => {},
            }
            proof {
                if j < input.len() {
                    assert(input.take(j + 1).last() == ge);
                    assert(consumed0 + input.take(j + 1) =~= self.consumed@);
                    j = j + 1;
                    assert(self.seen@ =~= seen0 + data_of(input.take(j)));
                }
            }
        }
    }

    /// Pulls the rest of the current pass, if it is not read yet, and emits the
    /// next element of the output: the aggregate of the pass, then its largest
    /// watermark, then the element that ended it.
    pub fn next(&mut self) -> (r: StreamElement<NewOut>)
        requires
            old(self).wf(),
        ensures
            final(self).wf(),
            final(self).fold_fn() == old(self).fold_fn(),
            final(self).init_value() == old(self).init_value(),
            final(self).size() == old(self).size(),
            final(self).seen().len() == 0,
            final(self).timestamp_seen() is None,
            ({
                let input = old(self).upstream();
                let n = if old(self).ended() {
                    0
                } else {
                    pass_len(input)
                };
                let pass = input.take(n);
                let items = old(self).seen() + data_of(pass);
                let ts = max_timestamp(pass, old(self).timestamp_seen());
                let wm = max_watermark(pass, old(self).watermark_seen());
                let restart = if old(self).ended() {
                    old(self).restarting()
                } else {
                    pass_restarts(input)
                };
                &&& final(self).upstream() == input.skip(n)
                &&& items.len() > 0 ==> {
                    &&& aggregate_emitted(
                        r,
                        old(self).fold_fn(),
                        old(self).init_value(),
                        old(self).size(),
                        items,
                        ts,
                    )
                    &&& final(self).ended()
                    &&& final(self).restarting() == restart
                    &&& final(self).watermark_seen() == wm
                }
                &&& items.len() == 0 ==> {
                    &&& control_emitted(r, wm, restart)
                    &&& wm is Some ==> final(self).ended() && final(self).restarting() == restart
                        && final(self).watermark_seen() is None
                    &&& wm is None && restart ==> !final(self).ended()
                        && final(self).watermark_seen() is None && !final(self).restarting()
                    &&& wm is None && !restart ==> final(self).ended()
                        && final(self).watermark_seen() is None && !final(self).restarting()
                }
            }),
            final(self).input() == old(self).input(),
            final(self).emitted() == old(self).emitted().push(r),
            well_formed(old(self).input()) && old(self).history_ok() ==> final(self).history_ok()
                && aggregate_shaped(final(self).emitted()) && terminate_follows_end(
                final(self).emitted(),
            ) && (!(r is Terminate) ==> final(self).rank() < old(self).rank()),
            well_formed(old(self).input()) && old(self).history_ok() && watermarks_nondecreasing(
                old(self).input(),
            ) && old(self).watermark_ok() ==> final(self).watermark_ok() && watermarks_nondecreasing(
                final(self).emitted(),
            ),
            old(self).ended() && !old(self).restarting() && old(self).watermark_seen() is None
                && old(self).seen().len() == 0 ==> {
                &&& r is Terminate
                &&& final(self).ended()
                &&& !final(self).restarting()
                &&& final(self).watermark_seen() is None
                &&& final(self).upstream() == old(self).upstream()
            },
    {
        proof {
            assert(old(self).prev.pending().take(0) =~= Seq::empty());
            assert(old(self).prev.pending().skip(0) =~= old(self).prev.pending());
            assert(old(self).seen@ + data_of(Seq::<StreamElement<Out>>::empty()) =~= old(
                self,
            ).seen@);
        }
        let ghost hist = well_formed(self.input@) && self.history_ok();
        let ghost wmk = hist && watermarks_nondecreasing(self.input@) && self.watermark_ok();
        let ghost wm0 = self.max_watermark;
        let ghost old_end = self.received_end;
        let ghost old_iter = self.received_end_iter;
        let ghost c0 = self.consumed@;
        let ghost rest = self.prev.pending();
        if !self.received_end {
            proof {
                if hist {
                    lemma_terminal_pass(self.input@, c0.len() as int);
                    assert(rest =~= self.input@.skip(c0.len() as int));
                    if !pass_restarts(rest) {
                        let pass = rest.take(1);
                        assert(pass.drop_last() =~= Seq::<StreamElement<Out>>::empty());
                        assert(pass.last() is Terminate);
                        assert(data_of(pass) =~= Seq::<Out>::empty());
                        assert(max_watermark(pass.drop_last(), None) is None);
                        assert(max_watermark(pass, None) is None);
                        assert(c0 + pass =~= self.input@);
                    } else {
                        let k = end_index(rest) as int;
                        assert(rest.take(k + 1).last() == rest[k]);
                        assert((c0 + rest.take(k + 1)).last() == rest[k]);
                    }
                }
            }
            self.pull_pass();
            proof {
                if wmk {
                    let pass = rest.take(pass_len(rest));
                    assert(self.consumed@ == c0 + pass);
                    assert(c0 + pass =~= self.input@.take(c0.len() + pass_len(rest)));
                    lemma_nondecreasing_prefix(self.input@, c0.len() + pass_len(rest));
                    if self.max_watermark is Some {
                        lemma_pass_max(c0, pass);
                    }
                    let c = self.consumed@;
                    let e = self.emitted@;
                    assert forall|k: int| 0 <= k < e.len() && #[trigger] e[k] is Watermark implies exists|
                        j: int,
                    | 0 <= j < c.len() && c[j] is Watermark && e[k]->Watermark_0 <= c[j]->Watermark_0 by {
                        let j = choose|j: int|
                            0 <= j < c0.len() && c0[j] is Watermark && e[k]->Watermark_0
                                <= c0[j]->Watermark_0;
                        assert(c[j] == c0[j]);
                    }
                }
            }
        }
        let ghost c1 = self.consumed@;
        let ghost wm1 = self.max_watermark;
        let r = self.emit();
        proof {
            let e0 = self.emitted@;
            self.emitted@ = self.emitted@.push(r);
            if hist {
                if !old_end {
                    assert(e0.len() == 0 || e0.last() is FlushAndRestart);
                    if !pass_restarts(rest) {
                        assert(r is Terminate);
                        assert(e0.len() > 0 && e0.last() is FlushAndRestart);
                    } else {
                        assert(!(r is Terminate));
                        assert(pass_len(rest) >= 1);
                    }
                } else if old_iter {
                    assert(!(r is Terminate));
                    assert(!(r.is_data()));
                    assert(r is Watermark ==> e0.len() > 0 && e0.last().is_data());
                    assert(e0.len() == 0 || !(e0.last() is Terminate));
                } else {
                    assert(r is Terminate);
                }
                assert(self.emitted@.drop_last() =~= e0);
                let e = self.emitted@;
                let n = e.len() as int;
                assert(e[n - 1] == r);
                assert forall|i: int| 0 <= i < n - 1 implies e[i] == e0[i] by {}
                assert(terminate_follows_end(e)) by {
                    assert forall|i: int| 0 <= i < e.len() && #[trigger] e[i] is Terminate implies i
                        > 0 && (e[i - 1] is FlushAndRestart || e[i - 1] is Terminate) by {
                        if i < n - 1 {
                            assert(e0[i] is Terminate);
                        }
                    }
                }
                assert forall|i: int| 0 <= i < e.len() && (#[trigger] e[i]).is_data() implies i == 0
                    || e[i - 1] is FlushAndRestart by {
                    if i < n - 1 {
                        assert(e0[i].is_data());
                    }
                }
                assert forall|i: int| 0 <= i < e.len() && #[trigger] e[i] is Watermark implies i == 0
                    || e[i - 1] is FlushAndRestart || e[i - 1].is_data() by {
                    if i < n - 1 {
                        assert(e0[i] is Watermark);
                    }
                }
                assert forall|i: int| 0 <= i < e.len() implies !(#[trigger] e[i] is FlushBatch) by {
                    if i < n - 1 {
                        assert(!(e0[i] is FlushBatch));
                    }
                }
                assert forall|i: int| 0 < i < e.len() && #[trigger] e[i] is FlushAndRestart implies !(
                e[i - 1] is Terminate) by {
                    if i < n - 1 {
                        assert(e0[i] is FlushAndRestart);
                    }
                }
                if wmk {
                    let c = self.consumed@;
                    assert(c == c1);
                    if r is Watermark {
                        assert(wm1 == Some(r->Watermark_0));
                    } else {
                        assert(self.max_watermark is Some ==> self.max_watermark == wm1);
                    }
                    assert forall|k: int| 0 <= k < e.len() && #[trigger] e[k] is Watermark implies exists|
                        j: int,
                    | 0 <= j < c.len() && c[j] is Watermark && e[k]->Watermark_0 <= c[j]->Watermark_0 by {
                        if k < n - 1 {
                            assert(e0[k] is Watermark);
                        } else {
                            let j = choose|j: int|
                                0 <= j < c.len() && c[j] == StreamElement::<Out>::Watermark(
                                    r->Watermark_0,
                                );
                            assert(c[j] is Watermark);
                        }
                    }
                    assert forall|a: int, b: int|
                        0 <= a < b < e.len() && #[trigger] e[a] is Watermark && #[trigger] e[b] is Watermark
                            implies e[a]->Watermark_0 <= e[b]->Watermark_0 by {
                        assert(e0[a] == e[a]);
                        if b < n - 1 {
                            assert(e0[b] == e[b]);
                        } else {
                            assert(e0[a] is Watermark);
                            let j = choose|j: int|
                                0 <= j < c.len() && c[j] is Watermark && e0[a]->Watermark_0
                                    <= c[j]->Watermark_0;
                            assert(c[j] is Watermark);
                        }
                    }
                }
            }
        }
        r
    }

    /// Emits what follows the end of a pass: the aggregate if items came, else
    /// the control element.
    fn emit(&mut self) -> (r: StreamElement<NewOut>)
        requires
            old(self).wf(),
            old(self).received_end,
        ensures
            final(self).wf(),
            final(self).prev == old(self).prev,
            final(self).fold == old(self).fold,
            final(self).init == old(self).init,
            final(self).batch_size == old(self).batch_size,
            final(self).seen@.len() == 0,
            final(self).timestamp is None,
            final(self).input == old(self).input,
            final(self).consumed == old(self).consumed,
            final(self).emitted == old(self).emitted,
            old(self).seen@.len() > 0 ==> {
                &&& aggregate_emitted(
                    r,
                    old(self).fold,
                    old(self).init,
                    old(self).batch_size as nat,
                    old(self).seen@,
                    old(self).timestamp,
                )
                &&& final(self).received_end
                &&& final(self).received_end_iter == old(self).received_end_iter
                &&& final(self).max_watermark == old(self).max_watermark
            },
            old(self).seen@.len() == 0 ==> {
                &&& control_emitted(r, old(self).max_watermark, old(self).received_end_iter)
                &&& old(self).max_watermark is Some ==> final(self).received_end
                    && final(self).received_end_iter == old(self).received_end_iter
                    && final(self).max_watermark is None
                &&& old(self).max_watermark is None && old(self).received_end_iter
                    ==> !final(self).received_end && final(self).max_watermark is None
                    && !final(self).received_end_iter
                &&& old(self).max_watermark is None && !old(self).received_end_iter
                    ==> final(self).received_end && final(self).max_watermark is None
                    && !final(self).received_end_iter
            },
    {
        match self.accumulator.take() {
            Some(acc) => {
                let mut values: Vec<Out> = Vec::new();
                core::mem::swap(&mut self.store, &mut values);
                let ghost bs0 = self.batches@;
                let ghost accs0 = self.partials@;
                let ghost items = self.seen@;
                let acc = if values.len() > 0 {
                    let a = (self.fold)(acc, values);
                    proof {
                        let bs = bs0.push(values);
                        let accs = accs0.push(a);
                        assert(bs.drop_last() =~= bs0);
                        assert(concat(bs) =~= items);
                        assert(fold_chain(
                            self.fold,
                            self.init,
                            self.batch_size as nat,
                            items,
                            bs,
                            accs,
                        ));
                    }
                    a
                } else {
                    proof {
                        assert(bs0.len() > 0);
                        assert(concat(bs0) =~= items);
                        assert(fold_chain(
                            self.fold,
                            self.init,
                            self.batch_size as nat,
                            items,
                            bs0,
                            accs0,
                        ));
                    }
                    acc
                };
                proof {
                    self.seen@ = Seq::empty();
                    self.batches@ = Seq::empty();
                    self.partials@ = Seq::empty();
                }
                match self.timestamp.take() {
                    Some(ts) => StreamElement::Timestamped(acc, ts),
                    None => StreamElement::Item(acc),
                }
            },
            None => {
                if let Some(ts) = self.max_watermark.take() {
                    return StreamElement::Watermark(ts);
                }
                if self.received_end_iter {
                    self.received_end_iter = false;
                    self.received_end = false;
                    return StreamElement::FlushAndRestart;
                }
                StreamElement::Terminate
            },
        }
    }
}

} // verus!
