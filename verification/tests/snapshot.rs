use bench_harness::snapshot::{memory_delta_bytes, ProcessSnapshot};

#[test]
fn snapshot_of_two_good_reads() {
    let s = ProcessSnapshot::from_readings(Some(4096), Some(12.5f32.to_bits()));
    assert_eq!(s.resident_memory_bytes, 4096);
    assert_eq!(f32::from_bits(s.cpu_percent_bits), 12.5);
}

#[test]
fn failed_reads_count_as_zero() {
    let s = ProcessSnapshot::from_readings(None, None);
    assert_eq!(s, ProcessSnapshot { resident_memory_bytes: 0, cpu_percent_bits: 0 });
    assert_eq!(f32::from_bits(s.cpu_percent_bits), 0.0);
    let s = ProcessSnapshot::from_readings(Some(7), None);
    assert_eq!(s, ProcessSnapshot { resident_memory_bytes: 7, cpu_percent_bits: 0 });
    let s = ProcessSnapshot::from_readings(None, Some(1.0f32.to_bits()));
    assert_eq!(s, ProcessSnapshot { resident_memory_bytes: 0, cpu_percent_bits: 0x3F80_0000 });
}

#[test]
fn memory_delta_has_a_sign() {
    let low = ProcessSnapshot::from_readings(Some(1_000_000), None);
    let high = ProcessSnapshot::from_readings(Some(3_500_000), None);
    assert_eq!(memory_delta_bytes(&low, &high), 2_500_000);
    assert_eq!(memory_delta_bytes(&high, &low), -2_500_000);
    assert_eq!(memory_delta_bytes(&low, &low), 0);
}

#[test]
fn memory_delta_at_the_extremes() {
    let none = ProcessSnapshot::from_readings(Some(0), None);
    let all = ProcessSnapshot::from_readings(Some(u64::MAX), None);
    assert_eq!(memory_delta_bytes(&none, &all), u64::MAX as i128);
    assert_eq!(memory_delta_bytes(&all, &none), -(u64::MAX as i128));
}
