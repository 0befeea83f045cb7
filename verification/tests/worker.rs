use parkhay::reader::ReadOutcome;
use parkhay::reader::ReadRequest;
use parkhay::reader::RegionReader;
use parkhay::slot::SharedSlot;
use std::sync::mpsc;

fn crosses_threads<T: Send + Sync>(_: &T) {}

#[test]
fn requests_can_be_handed_to_a_worker() {
    let reader = RegionReader::new((0..50).collect());
    let slot = SharedSlot::new(4);
    let request = ReadRequest((10, 13), slot.share());
    crosses_threads(&slot);
    crosses_threads(&request);
    crosses_threads(&reader);
}

#[test]
fn requests_are_served_in_the_order_received() {
    let reader = RegionReader::new((0..50).collect());
    let (tx, rx) = mpsc::channel::<ReadRequest>();
    let first = SharedSlot::new(4);
    let second = SharedSlot::new(2);
    tx.send(ReadRequest((10, 13), first.share())).unwrap();
    tx.send(ReadRequest((48, 49), second.share())).unwrap();
    tx.send(ReadRequest((10, 13), first.share())).unwrap();
    tx.send(ReadRequest((49, 50), SharedSlot::new(2))).unwrap();
    drop(tx);
    let mut outcomes = vec![];
    let mut notified = 0;
    for request in rx {
        let outcome = reader.serve(&request);
        if outcome == ReadOutcome::Filled {
            notified += 1;
        }
        outcomes.push(outcome);
    }
    assert_eq!(outcomes.len(), 4);
    assert_eq!(outcomes[0], ReadOutcome::Filled);
    assert_eq!(outcomes[1], ReadOutcome::Filled);
    assert_eq!(outcomes[2], ReadOutcome::Skipped);
    assert!(matches!(outcomes[3], ReadOutcome::Failed(_)));
    assert_eq!(notified, 2);
    assert_eq!(first.try_get(), Some(vec![10, 11, 12, 13]));
    assert_eq!(second.try_get(), Some(vec![48, 49]));
}
