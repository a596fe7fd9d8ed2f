use rjprof::{format_bytes, format_time, u64_to_dec};

#[test]
fn decimal_rendering() {
    assert_eq!(u64_to_dec(0), "0");
    assert_eq!(u64_to_dec(7), "7");
    assert_eq!(u64_to_dec(1234567890), "1234567890");
    assert_eq!(u64_to_dec(u64::MAX), "18446744073709551615");
}

#[test]
fn bytes_under_a_kilobyte_are_plain() {
    assert_eq!(format_bytes(0), "0B");
    assert_eq!(format_bytes(512), "512B");
    assert_eq!(format_bytes(1023), "1023B");
}

#[test]
fn bytes_scaled_units() {
    assert_eq!(format_bytes(1024), "1.0KB");
    assert_eq!(format_bytes(1536), "1.5KB");
    assert_eq!(format_bytes(1048576), "1.0MB");
    assert_eq!(format_bytes(5 * 1048576 + 524288), "5.5MB");
    assert_eq!(format_bytes(1073741824), "1.0GB");
    assert_eq!(format_bytes(3 * 1073741824 + 214748365), "3.2GB");
}

#[test]
fn time_under_a_microsecond_is_plain() {
    assert_eq!(format_time(0), "0ns");
    assert_eq!(format_time(640), "640ns");
    assert_eq!(format_time(999), "999ns");
}

#[test]
fn time_scaled_units() {
    assert_eq!(format_time(1000), "1.0us");
    assert_eq!(format_time(1500), "1.5us");
    assert_eq!(format_time(1075), "1.1us");
    assert_eq!(format_time(2_000_000), "2.0ms");
    assert_eq!(format_time(2_550_000), "2.6ms");
    assert_eq!(format_time(1_250_000_000), "1.25s");
    assert_eq!(format_time(59_994_999_999), "59.99s");
}
