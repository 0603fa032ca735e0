use lightorrent::hex::{hex_decode, hex_encode, hex_val, is_valid_infohash_v1, HexError};
use lightorrent::names::sanitize_name;

#[test]
fn test_hex_encode_decode() {
    let bytes = [
        0xab, 0xcd, 0xef, 0x01, 0x23, 0x45, 0x67, 0x89, 0x00, 0xff, 0x11, 0x22, 0x33, 0x44, 0x55,
        0x66, 0x77, 0x88, 0x99, 0xaa,
    ];
    let hex = hex_encode(&bytes);
    assert_eq!(
        hex,
        "abcdef0123456789_00ff112233445566778899aa".replace('_', "")
    );
    let decoded = hex_decode(&hex).unwrap();
    assert_eq!(decoded, bytes);
}

#[test]
fn digits_of_either_case_have_values() {
    assert_eq!(hex_val(b'0'), Ok(0));
    assert_eq!(hex_val(b'9'), Ok(9));
    assert_eq!(hex_val(b'a'), Ok(10));
    assert_eq!(hex_val(b'F'), Ok(15));
    assert_eq!(hex_val(b'g'), Err(HexError::Digit(b'g')));
    assert_eq!(hex_val(b'/'), Err(HexError::Digit(b'/')));
}

#[test]
fn decoding_reports_length_and_first_bad_digit() {
    assert_eq!(hex_decode("abcd"), Err(HexError::Length(4)));
    assert_eq!(hex_decode(""), Err(HexError::Length(0)));
    let long = "0".repeat(41);
    assert_eq!(hex_decode(&long), Err(HexError::Length(41)));
    let bad = format!("{}z{}x{}", "0".repeat(10), "1".repeat(10), "2".repeat(18));
    assert_eq!(hex_decode(&bad), Err(HexError::Digit(b'z')));
    let odd = format!("{}y{}", "0".repeat(11), "1".repeat(28));
    assert_eq!(hex_decode(&odd), Err(HexError::Digit(b'y')));
    // Two bytes in UTF-8, so 40 bytes in 39 characters.
    let wide = format!("{}\u{e9}", "0".repeat(38));
    assert_eq!(hex_decode(&wide), Err(HexError::Digit(0xc3)));
}

#[test]
fn decoding_takes_capitals_but_info_hashes_are_small() {
    let small = "abcdef0123456789abcdef0123456789abcdef01";
    let large = small.to_uppercase();
    assert_eq!(hex_decode(small), hex_decode(&large));
    assert!(is_valid_infohash_v1(small));
    assert!(!is_valid_infohash_v1(&large));
    assert_eq!(hex_encode(&hex_decode(&large).unwrap()), small);
}

#[test]
fn info_hashes_are_forty_digits() {
    assert!(is_valid_infohash_v1(&"0".repeat(40)));
    assert!(!is_valid_infohash_v1(&"0".repeat(39)));
    assert!(!is_valid_infohash_v1(&"0".repeat(41)));
    assert!(!is_valid_infohash_v1("zzzz"));
    assert!(!is_valid_infohash_v1("../../etc/passwd"));
    assert!(!is_valid_infohash_v1("XXXXXXXXXXXXXXXXXXXXXXXXXXXXXXXXXXXXXXXX"));
    assert!(!is_valid_infohash_v1(""));
}

#[test]
fn names_stay_inside_their_directory() {
    assert_eq!(sanitize_name("movie.mkv"), "movie.mkv");
    assert_eq!(sanitize_name("../../etc/passwd"), "____etc_passwd");
    assert_eq!(sanitize_name("a/b\\c\0d"), "a_b_c_d");
    assert_eq!(sanitize_name("..."), "_.");
    assert_eq!(sanitize_name("...."), "__");
    assert_eq!(sanitize_name(".hidden"), "hidden");
    assert_eq!(sanitize_name("."), "unnamed");
    assert_eq!(sanitize_name(""), "unnamed");
    assert_eq!(sanitize_name("a..b...c"), "a_b_.c");
}

#[test]
fn sanitizing_twice_changes_nothing_more() {
    for name in ["../x", ".", "a..b", "...x", "plain", "\u{e9}/\u{4e2d}"] {
        let once = sanitize_name(name);
        assert_eq!(sanitize_name(&once), once);
    }
}
