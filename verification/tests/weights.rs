use dmp_queue::weights::{RuntimeDbWeight, Weight, WeightInfo};

#[test]
fn weight_arithmetic_saturates() {
    let a = Weight::from_parts(u64::MAX - 1, 10);
    let b = Weight::from_parts(5, 7);
    let sum = a.saturating_add(b);
    assert_eq!(sum.ref_time, u64::MAX);
    assert_eq!(sum.proof_size, 17);
    assert_eq!(Weight::zero().saturating_add(b), b);
}

#[test]
fn db_weight_costs() {
    let db = RuntimeDbWeight { read: 25, write: 100 };
    assert_eq!(db.reads(3).ref_time, 75);
    assert_eq!(db.writes(2).ref_time, 200);
    let rw = db.reads_writes(3, 2);
    assert_eq!(rw.ref_time, 275);
    assert_eq!(rw.proof_size, 0);
    let huge = RuntimeDbWeight { read: u64::MAX, write: 0 };
    assert_eq!(huge.reads(2).ref_time, u64::MAX);
}

#[test]
fn timestamp_weights_match_the_benchmark() {
    let info = WeightInfo { db_weight: RuntimeDbWeight { read: 25_000_000, write: 100_000_000 } };
    let set = info.set();
    assert_eq!(set.ref_time, 9_671_000 + 2 * 25_000_000 + 100_000_000);
    assert_eq!(set.proof_size, 1493);
    let fin = info.on_finalize();
    assert_eq!(fin.ref_time, 3_834_000);
    assert_eq!(fin.proof_size, 0);
}
