use delta_kernel::stats::{num_records_label, to_decimal, Stats};

fn payload(text: &str) -> Option<String> {
    Some(text.to_string())
}

#[test]
fn a_missing_payload_gives_no_statistics() {
    assert_eq!(Stats::parse(&None), None);
}

#[test]
fn the_row_count_is_read_from_the_payload() {
    assert_eq!(Stats::parse(&payload("{\"numRecords\":3}")), Some(Stats { num_records: 3 }));
    assert_eq!(
        Stats::parse(&payload(
            "{\"minValues\":{\"x\":1},\"numRecords\": 18446744073709551615,\"nullCount\":{\"x\":0}}"
        )),
        Some(Stats { num_records: u64::MAX })
    );
}

#[test]
fn a_payload_without_a_row_count_gives_no_statistics() {
    assert_eq!(Stats::parse(&payload("{}")), None);
    assert_eq!(Stats::parse(&payload("{\"numrecords\":3}")), None);
    assert_eq!(Stats::parse(&payload("{\"numRecords\":-1}")), None);
    assert_eq!(Stats::parse(&payload("{\"numRecords\":\"3\"}")), None);
    assert_eq!(Stats::parse(&payload("{\"numRecords\":2.5}")), None);
    assert_eq!(Stats::parse(&payload("[3]")), None);
    assert_eq!(Stats::parse(&payload("3")), None);
}

#[test]
fn a_payload_that_is_no_json_gives_no_statistics() {
    assert_eq!(Stats::parse(&payload("")), None);
    assert_eq!(Stats::parse(&payload("numRecords")), None);
    assert_eq!(Stats::parse(&payload("{\"numRecords\":3")), None);
}

#[test]
fn a_count_wraps_into_statistics() {
    assert_eq!(Stats::from_count(Some(0)), Some(Stats { num_records: 0 }));
    assert_eq!(Stats::from_count(None), None);
}

#[test]
fn absent_statistics_render_as_the_placeholder() {
    assert_eq!(num_records_label(&None), "[unknown]");
}

#[test]
fn present_statistics_render_as_the_decimal_count() {
    assert_eq!(num_records_label(&Some(Stats { num_records: 0 })), "0");
    assert_eq!(num_records_label(&Some(Stats { num_records: 42 })), "42");
    assert_eq!(num_records_label(&Some(Stats { num_records: 1_000_000 })), "1000000");
}

#[test]
fn decimal_numerals_have_no_leading_zeros() {
    assert_eq!(to_decimal(0), "0");
    assert_eq!(to_decimal(7), "7");
    assert_eq!(to_decimal(10), "10");
    assert_eq!(to_decimal(109), "109");
    assert_eq!(to_decimal(9_876_543_210), "9876543210");
    assert_eq!(to_decimal(u64::MAX), "18446744073709551615");
}

#[test]
fn decimal_numerals_agree_with_the_standard_rendering() {
    let mut n: u64 = 1;
    for _ in 0..64 {
        assert_eq!(to_decimal(n), n.to_string());
        assert_eq!(to_decimal(n - 1), (n - 1).to_string());
        n = n.wrapping_mul(2);
    }
}
