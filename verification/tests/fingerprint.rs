use sims4modorganizer::fingerprint::{fingerprint, format_fingerprint};

#[test]
fn hashes_are_padded_with_zeros_to_sixteen_digits() {
    assert_eq!(format_fingerprint(0), "0x0000000000000000");
    assert_eq!(format_fingerprint(1), "0x0000000000000001");
    assert_eq!(format_fingerprint(0xabc), "0x0000000000000abc");
    assert_eq!(format_fingerprint(0x0fff_ffff), "0x000000000fffffff");
    assert_eq!(format_fingerprint(0x1_0000_0000), "0x0000000100000000");
    assert_eq!(format_fingerprint(0x0ead_beef_0123_4567), "0x0eadbeef01234567");
}

#[test]
fn large_hashes_show_all_their_digits() {
    assert_eq!(format_fingerprint(0xdead_beef_0123_4567), "0xdeadbeef01234567");
    assert_eq!(format_fingerprint(u64::MAX), "0xffffffffffffffff");
}

#[test]
fn every_fingerprint_has_the_same_width() {
    let mut hash: u64 = 0;
    for step in 0..200u64 {
        assert_eq!(format_fingerprint(hash).len(), 18);
        assert_eq!(format_fingerprint(hash), format!("{:#018x}", hash));
        hash = hash.wrapping_mul(6364136223846793005).wrapping_add(step * 2 + 1);
    }
    for shift in 0..64 {
        assert_eq!(format_fingerprint(1u64 << shift).len(), 18);
    }
    assert_eq!(fingerprint(b"").len(), 18);
    assert_eq!(fingerprint(b"some bytes").len(), 18);
}

#[test]
fn fingerprint_is_the_formatted_xxh3_hash() {
    let data = b"The quick brown fox jumps over the lazy dog";
    let expected = format_fingerprint(xxhash_rust::xxh3::xxh3_64(data));
    assert_eq!(fingerprint(data), expected);
    assert_ne!(fingerprint(data), format_fingerprint(0));
}

#[test]
fn fingerprint_of_no_bytes() {
    assert_eq!(fingerprint(b""), "0x2d06800538d394c2");
}

#[test]
fn fingerprint_is_deterministic_and_tells_contents_apart() {
    assert_eq!(fingerprint(b"abc"), fingerprint(b"abc"));
    assert_ne!(fingerprint(b"abc"), fingerprint(b"abd"));
}
