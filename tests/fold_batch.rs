use noir_compute::element::StreamElement;
use noir_compute::fold_batch::FoldBatch;
use noir_compute::operator::VecSource;

fn sum_u8(mut a: u8, b: Vec<u8>) -> u8 {
    for it in b {
        a += it;
    }
    a
}

fn sum_i32(mut a: i32, b: Vec<i32>) -> i32 {
    for it in b {
        a += it;
    }
    a
}

#[test]
fn test_fold_without_timestamps() {
    let fake_operator = VecSource::new((0..10u8).collect());
    let mut fold = FoldBatch::new(fake_operator, 0, sum_u8, 4);

    assert_eq!(fold.next(), StreamElement::Item((0..10u8).sum()));
    assert_eq!(fold.next(), StreamElement::Terminate);
}

#[test]
#[allow(clippy::identity_op)]
fn test_fold_timestamped() {
    let mut fake_operator = VecSource::empty();
    fake_operator.push(StreamElement::Timestamped(0, 1));
    fake_operator.push(StreamElement::Timestamped(1, 2));
    fake_operator.push(StreamElement::Timestamped(2, 3));
    fake_operator.push(StreamElement::Watermark(4));

    let mut fold = FoldBatch::new(fake_operator, 0, sum_i32, 4);

    assert_eq!(fold.next(), StreamElement::Timestamped(0 + 1 + 2, 3));
    assert_eq!(fold.next(), StreamElement::Watermark(4));
    assert_eq!(fold.next(), StreamElement::Terminate);
}

#[test]
#[allow(clippy::identity_op)]
fn test_fold_iter_end() {
    let mut fake_operator = VecSource::empty();
    fake_operator.push(StreamElement::Item(0));
    fake_operator.push(StreamElement::Item(1));
    fake_operator.push(StreamElement::Item(2));
    fake_operator.push(StreamElement::FlushAndRestart);
    fake_operator.push(StreamElement::Item(3));
    fake_operator.push(StreamElement::Item(4));
    fake_operator.push(StreamElement::Item(5));
    fake_operator.push(StreamElement::FlushAndRestart);

    let mut fold = FoldBatch::new(fake_operator, 0, sum_i32, 4);

    assert_eq!(fold.next(), StreamElement::Item(0 + 1 + 2));
    assert_eq!(fold.next(), StreamElement::FlushAndRestart);
    assert_eq!(fold.next(), StreamElement::Item(3 + 4 + 5));
    assert_eq!(fold.next(), StreamElement::FlushAndRestart);
    assert_eq!(fold.next(), StreamElement::Terminate);
}

fn record_batches(mut acc: Vec<Vec<u32>>, batch: Vec<u32>) -> Vec<Vec<u32>> {
    acc.push(batch);
    acc
}

#[test]
fn fold_sees_batches_in_arrival_order() {
    let source = VecSource::new(vec![1u32, 2, 3, 4, 5, 6, 7]);
    let mut fold = FoldBatch::new(source, Vec::new(), record_batches, 3);
    assert_eq!(
        fold.next(),
        StreamElement::Item(vec![vec![1, 2, 3], vec![4, 5, 6], vec![7]])
    );
    assert_eq!(fold.next(), StreamElement::Terminate);
}

#[test]
fn fold_batch_size_zero_folds_once_at_end() {
    let source = VecSource::new(vec![1u32, 2, 3]);
    let mut fold = FoldBatch::new(source, Vec::new(), record_batches, 0);
    assert_eq!(fold.next(), StreamElement::Item(vec![vec![1, 2, 3]]));
    assert_eq!(fold.next(), StreamElement::Terminate);
}

#[test]
fn fold_exact_multiple_has_no_empty_batch() {
    let source = VecSource::new(vec![1u32, 2, 3, 4]);
    let mut fold = FoldBatch::new(source, Vec::new(), record_batches, 2);
    assert_eq!(fold.next(), StreamElement::Item(vec![vec![1, 2], vec![3, 4]]));
}

#[test]
fn fold_empty_pass_forwards_control() {
    let mut source = VecSource::empty();
    source.push(StreamElement::FlushBatch);
    source.push(StreamElement::FlushAndRestart);
    source.push(StreamElement::Terminate);
    let mut fold = FoldBatch::new(source, 0i32, sum_i32, 2);
    assert_eq!(fold.next(), StreamElement::FlushAndRestart);
    assert_eq!(fold.next(), StreamElement::Terminate);
    assert_eq!(fold.next(), StreamElement::Terminate);
}

#[test]
fn fold_keeps_largest_watermark_and_timestamp() {
    let mut source = VecSource::empty();
    source.push(StreamElement::Watermark(5));
    source.push(StreamElement::Timestamped(10, 7));
    source.push(StreamElement::Watermark(3));
    source.push(StreamElement::Timestamped(20, 4));
    source.push(StreamElement::FlushAndRestart);
    source.push(StreamElement::Watermark(9));
    source.push(StreamElement::Terminate);
    let mut fold = FoldBatch::new(source, 0i32, sum_i32, 1);
    assert_eq!(fold.next(), StreamElement::Timestamped(30, 7));
    assert_eq!(fold.next(), StreamElement::Watermark(5));
    assert_eq!(fold.next(), StreamElement::FlushAndRestart);
    assert_eq!(fold.next(), StreamElement::Watermark(9));
    assert_eq!(fold.next(), StreamElement::Terminate);
    assert_eq!(fold.next(), StreamElement::Terminate);
}

#[test]
fn fold_output_is_a_well_formed_channel() {
    let mut source = VecSource::empty();
    for e in [
        StreamElement::Item(1),
        StreamElement::Watermark(2),
        StreamElement::FlushBatch,
        StreamElement::FlushAndRestart,
        StreamElement::FlushAndRestart,
        StreamElement::Item(5),
        StreamElement::FlushAndRestart,
        StreamElement::Terminate,
    ] {
        source.push(e);
    }
    let mut fold = FoldBatch::new(source, 0i32, sum_i32, 2);
    let mut out = Vec::new();
    loop {
        let e = fold.next();
        let done = e == StreamElement::Terminate;
        out.push(e);
        if done {
            break;
        }
    }
    assert_eq!(
        out,
        vec![
            StreamElement::Item(1),
            StreamElement::Watermark(2),
            StreamElement::FlushAndRestart,
            StreamElement::FlushAndRestart,
            StreamElement::Item(5),
            StreamElement::FlushAndRestart,
            StreamElement::Terminate,
        ]
    );
}

fn count_words(
    mut acc: std::collections::BTreeMap<String, u32>,
    batch: Vec<String>,
) -> std::collections::BTreeMap<String, u32> {
    for w in batch {
        *acc.entry(w).or_insert(0) += 1;
    }
    acc
}

#[test]
fn wordcount() {
    let words: Vec<String> = ["the cat", "the dog"]
        .iter()
        .flat_map(|line| line.split_whitespace().map(str::to_lowercase))
        .collect();
    let mut fold = FoldBatch::new(VecSource::new(words), Default::default(), count_words, 3);
    let expected: std::collections::BTreeMap<String, u32> =
        [("the", 2), ("cat", 1), ("dog", 1)].iter().map(|(w, c)| (w.to_string(), *c)).collect();
    assert_eq!(fold.next(), StreamElement::Item(expected));
    assert_eq!(fold.next(), StreamElement::Terminate);
}
