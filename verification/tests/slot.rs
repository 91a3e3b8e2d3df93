use scram::background::Slot;
use scram::process::Frequency;

fn record(value: u64) -> Frequency {
    Frequency { value, peak: value, ts_us: 7 }
}

#[test]
fn an_empty_slot_reads_none() {
    let slot = Slot::new();
    assert!(slot.take().is_none());
}

#[test]
fn a_put_then_take_returns_the_exact_value_written() {
    let slot = Slot::new();
    let left = vec![record(1), record(2)];
    let right = vec![record(3)];
    slot.put(left.clone(), right.clone());
    let got = slot.take().expect("an uncontended take after a put");
    assert_eq!(got.left, left);
    assert_eq!(got.right, right);
}

#[test]
fn a_second_put_overwrites_the_first() {
    let slot = Slot::new();
    slot.put(vec![record(1)], vec![record(1)]);
    slot.put(vec![record(9), record(9)], vec![record(8)]);
    let got = slot.take().expect("latest value");
    assert_eq!(got.left, vec![record(9), record(9)]);
    assert_eq!(got.right, vec![record(8)]);
}

#[test]
fn taking_does_not_consume_the_latest_value() {
    let slot = Slot::new();
    slot.put(vec![record(5)], vec![record(6)]);
    assert!(slot.take().is_some());
    assert!(slot.take().is_some());
}

#[test]
fn clones_share_one_underlying_cell() {
    let writer = Slot::new();
    let reader = writer.clone();
    writer.put(vec![record(4)], vec![]);
    let got = reader.take().expect("shared slot");
    assert_eq!(got.left, vec![record(4)]);
    assert!(got.right.is_empty());
}

#[test]
fn default_is_an_empty_slot() {
    let slot = Slot::default();
    assert!(slot.take().is_none());
}
