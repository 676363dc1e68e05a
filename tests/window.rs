use noir_compute::element::StreamElement;
use noir_compute::window::{ContentDefinedWindow, WindowAccumulator, WindowResult};

#[derive(Clone)]
struct Collect(Vec<i64>);

impl WindowAccumulator for Collect {
    type In = i64;
    type Out = Vec<i64>;

    fn process(mut self, item: i64) -> Self {
        self.0.push(item);
        self
    }

    fn output(self) -> Vec<i64> {
        self.0
    }
}

fn save(ret: Option<WindowResult<Vec<i64>>>, v: &mut Vec<Vec<i64>>) {
    v.extend(ret.into_iter().map(|r| r.unwrap_item()));
}

#[test]
fn event_time_window() {
    let window = ContentDefinedWindow::new(10);
    let mut manager = window.build(Collect(Vec::new()));

    let mut received = Vec::new();
    let mut now: u64 = 0;
    for i in 0..100i64 {
        if i == 33 || i == 80 {
            now += 11;
        }
        save(manager.process(StreamElement::Timestamped(i, i / 10), now), &mut received);
        now += 1;
    }
    save(manager.process(StreamElement::FlushAndRestart, now), &mut received);

    received.sort();

    let expected: Vec<Vec<_>> = vec![(0..33).collect(), (33..80).collect(), (80..100).collect()];
    assert_eq!(received, expected)
}

#[test]
fn window_gap_is_strict() {
    let mut manager = ContentDefinedWindow::new(10).build(Collect(Vec::new()));
    assert_eq!(manager.process(StreamElement::Item(1), 0), None);
    assert_eq!(manager.process(StreamElement::Item(2), 10), None);
    assert_eq!(
        manager.process(StreamElement::Item(3), 21),
        Some(WindowResult::Item(vec![1, 2]))
    );
    assert_eq!(
        manager.process(StreamElement::Terminate, 22),
        Some(WindowResult::Item(vec![3]))
    );
    assert_eq!(manager.process(StreamElement::Terminate, 23), None);
}

#[test]
fn window_control_passes_through() {
    let mut manager = ContentDefinedWindow::new(5).build(Collect(Vec::new()));
    assert_eq!(manager.process(StreamElement::Watermark(3), 0), None);
    assert_eq!(manager.process(StreamElement::Item(4), 1), None);
    assert_eq!(manager.process(StreamElement::FlushBatch, 3), None);
    assert_eq!(
        manager.process(StreamElement::Watermark(9), 20),
        Some(WindowResult::Item(vec![4]))
    );
    assert_eq!(manager.process(StreamElement::FlushAndRestart, 21), None);
}
