//! Octal field codec: exact encodings, round trips, and rejections.

use os1k::address::{align_up, is_aligned, VAddr};
use os1k::tar::{int2oct, oct2int};

fn field(n: usize, len: usize) -> Vec<u8> {
    let mut v = vec![0u8; len];
    int2oct(n, &mut v);
    v
}

#[test]
fn int2oct_encodes_1024_zero_padded() {
    // 1024 = 0o2000, written as 11 digits and a NUL terminator.
    assert_eq!(field(1024, 12), b"00000002000\0".to_vec());
}

#[test]
fn int2oct_encodes_zero() {
    assert_eq!(field(0, 12), b"00000000000\0".to_vec());
    assert_eq!(field(0, 8), b"0000000\0".to_vec());
}

#[test]
fn int2oct_encodes_checksum_width() {
    // 0o17777 = 8191 in a ustar checksum field: 7 digits plus NUL.
    assert_eq!(field(8191, 8), b"0017777\0".to_vec());
}

#[test]
fn oct2int_decodes_exact_value() {
    assert_eq!(oct2int(b"2000\0abc"), Ok(1024));
    assert_eq!(oct2int(b"0017777\0"), Ok(8191));
    assert_eq!(oct2int(b"00000002000\0"), Ok(1024));
}

#[test]
fn oct2int_stops_at_nul() {
    assert_eq!(oct2int(b"7\0" as &[u8]), Ok(7));
    assert_eq!(oct2int(b"\0garbage!"), Ok(0));
    assert_eq!(oct2int(b""), Ok(0));
}

#[test]
fn oct2int_rejects_non_octal() {
    assert_eq!(oct2int(b"8\0"), Err(()));
    assert_eq!(oct2int(b"12x4\0"), Err(()));
    assert_eq!(oct2int(b" 123\0"), Err(()));
}

#[test]
fn oct_round_trip_below_8_pow_11() {
    // oct2int(int2oct(n)) == n for n < 8^11.
    let cases = [0usize, 1, 7, 8, 511, 512, 1024, 65535, 8_589_934_591];
    for &n in &cases {
        assert!(n < 8usize.pow(11));
        let enc = field(n, 12);
        assert_eq!(oct2int(&enc), Ok(n), "round trip failed for {}", n);
    }
}

#[test]
fn oct_round_trip_largest_11_digit_value() {
    let n = 8usize.pow(11) - 1;
    let enc = field(n, 12);
    assert_eq!(enc, b"77777777777\0".to_vec());
    assert_eq!(oct2int(&enc), Ok(n));
}

#[test]
fn oct2int_rejects_value_too_large_for_usize() {
    // 26 sevens decode to a value far beyond usize::MAX.
    let huge = [b'7'; 26];
    assert_eq!(oct2int(&huge), Err(()));
}

#[test]
fn align_up_rounds_to_the_next_multiple() {
    assert_eq!(align_up(0, 4096), 0);
    assert_eq!(align_up(1, 4096), 4096);
    assert_eq!(align_up(4096, 4096), 4096);
    assert_eq!(align_up(513, 512), 1024);
    assert!(is_aligned(8192, 4096));
    assert!(!is_aligned(8191, 4096));
}

#[test]
fn vpn_fields_split_a_virtual_address() {
    let va = VAddr::new(0x0100_3000);
    assert_eq!(va.vpn1(), 0x0100_3000 >> 22);
    assert_eq!(va.vpn0(), (0x0100_3000 >> 12) & 0x3FF);
}
