use compound_duration::format_dhms;
use compound_duration::format_ns;
use compound_duration::format_wdhms;

#[test]
fn test_format_dhms() {
    assert_eq!(format_dhms(0), "0s");
    assert_eq!(format_dhms(30), "30s");
    assert_eq!(format_dhms(61), "1m1s");
    assert_eq!(format_dhms(3600), "1h");
    assert_eq!(format_dhms(86400), "1d");
    assert_eq!(format_dhms(86401), "1d1s");
    assert_eq!(format_dhms(7259), "2h59s");
    assert_eq!(format_dhms(604_800), "7d");
    assert_eq!(format_dhms(6_000_000), "69d10h40m");
    assert_eq!(format_dhms(4_294_967_295_u64), "49710d6h28m15s");
}

#[test]
fn test_format_wdhms() {
    assert_eq!(format_wdhms(0), "0s");
    assert_eq!(format_wdhms(30), "30s");
    assert_eq!(format_wdhms(61), "1m1s");
    assert_eq!(format_wdhms(3600), "1h");
    assert_eq!(format_wdhms(86400), "1d");
    assert_eq!(format_wdhms(86401), "1d1s");
    assert_eq!(format_wdhms(7259), "2h59s");
    assert_eq!(format_wdhms(604_800), "1w");
    assert_eq!(format_wdhms(6_000_000), "9w6d10h40m");
    assert_eq!(format_wdhms(4_294_967_295_u64), "7101w3d6h28m15s");
}

#[test]
fn test_format_ns() {
    assert_eq!(format_ns(3_000_129_723_u64), "3s129\u{b5}s723ns");
    assert_eq!(format_ns(100_000_000_000_000_000_u64), "1157d9h46m40s");
    assert_eq!(format_ns(100_000_000_000_000_001_u64), "1157d9h46m40s1ns");
    assert_eq!(
        format_ns(100_000_000_000_001_001_u64),
        "1157d9h46m40s1\u{b5}s1ns"
    );
    assert_eq!(
        format_ns(100_000_000_000_100_001_u64),
        "1157d9h46m40s100\u{b5}s1ns"
    );
    assert_eq!(
        format_ns(100_000_000_010_100_001_u64),
        "1157d9h46m40s10ms100\u{b5}s1ns"
    );
    assert_eq!(
        format_ns(100_000_000_010_000_001_u64),
        "1157d9h46m40s10ms1ns"
    );
    assert_eq!(format_ns(10_000_000_000_000_000_u64), "115d17h46m40s");
    assert_eq!(format_ns(1_000_000_000_000_000_u64), "11d13h46m40s");
    assert_eq!(format_ns(100_000_000_000_000_u64), "1d3h46m40s");
    assert_eq!(format_ns(10_000_000_000_000_u64), "2h46m40s");
    assert_eq!(format_ns(1_000_000_000_000_u64), "16m40s");
    assert_eq!(format_ns(100_000_000_000_u64), "1m40s");
    assert_eq!(format_ns(100_000_000_010_u64), "1m40s10ns");
    assert_eq!(format_ns(1_000_000_000), "1s");
    assert_eq!(format_ns(100_000_000), "100ms");
    assert_eq!(format_ns(10_000_000), "10ms");
    assert_eq!(format_ns(1_000_001), "1ms1ns");
    assert_eq!(format_ns(1_000_000), "1ms");
    assert_eq!(format_ns(10_000), "10\u{b5}s");
    assert_eq!(format_ns(1000), "1\u{b5}s");
    assert_eq!(format_ns(100), "100ns");
    assert_eq!(format_ns(1), "1ns");
    assert_eq!(format_ns(0), "0ns");
}

// Each function maps zero to its fixed zero string.
#[test]
fn test_zero_strings() {
    assert_eq!(format_dhms(0), "0s");
    assert_eq!(format_wdhms(0), "0s");
    assert_eq!(format_ns(0), "0ns");
}

// The largest representable input decomposes without overflow or truncation
// in any intermediate step.
#[test]
fn test_format_dhms_boundary_max() {
    assert_eq!(format_dhms(u64::MAX), "213503982334601d7h15s");
}

#[test]
fn test_format_wdhms_boundary_max() {
    assert_eq!(format_wdhms(u64::MAX), "30500568904943w7h15s");
}

#[test]
fn test_format_ns_boundary_max() {
    assert_eq!(format_ns(u64::MAX), "213503d23h34m33s709ms551\u{b5}s615ns");
}

// Summing count times size over the emitted terms gives back the input.
#[test]
fn test_exact_reconstruction() {
    assert_eq!(format_dhms(6_000_000), "69d10h40m");
    assert_eq!(69 * 86_400 + 10 * 3_600 + 40 * 60, 6_000_000);
    assert_eq!(format_wdhms(4_294_967_295_u64), "7101w3d6h28m15s");
    assert_eq!(
        7101 * 604_800_u64 + 3 * 86_400 + 6 * 3_600 + 28 * 60 + 15,
        4_294_967_295
    );
    assert_eq!(format_ns(3_000_129_723_u64), "3s129\u{b5}s723ns");
    assert_eq!(3 * 1_000_000_000_u64 + 129 * 1_000 + 723, 3_000_129_723);
}

// Output length is not monotone in the value: a larger duration can have a
// shorter rendering.
#[test]
fn test_length_not_monotone() {
    assert_eq!(format_dhms(59), "59s");
    assert_eq!(format_dhms(60), "1m");
    assert!(format_dhms(60).len() < format_dhms(59).len());
}

// Unit labels appear largest-first, each at most once, and never with a
// zero count.
#[test]
fn test_labels_descending() {
    let out = format_ns(100_000_000_010_100_001_u64);
    assert_eq!(out, "1157d9h46m40s10ms100\u{b5}s1ns");
    let d = out.find('d').unwrap();
    let h = out.find('h').unwrap();
    let m = out.find('m').unwrap();
    let s = out.find('s').unwrap();
    assert!(d < h && h < m && m < s);
    assert_eq!(out.matches('d').count(), 1);
    assert_eq!(out.matches('h').count(), 1);
    // A unit whose count is zero is omitted outright: one hour exactly has
    // no minute, second or sub-second term.
    assert_eq!(format_ns(3_600_000_000_000_u64), "1h");
}
