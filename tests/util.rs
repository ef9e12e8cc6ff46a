use memory_rs::util::{bytes_to_string, nibble_or_fill, string_to_bytes, Lettercase};

#[test]
fn test_util_string_to_bytes() {
    assert_eq!(
        vec![0x12, 0x34, 0x56, 0x78, 0x90, 0xab, 0xcd, 0xef],
        string_to_bytes(&"12 34 56 78 90 AB CD EF")
    );
}

#[test]
fn test_util_bytes_to_string() {
    assert_eq!(
        "12 34 56 78 90 AB CD EF",
        bytes_to_string(
            &vec![0x12, 0x34, 0x56, 0x78, 0x90, 0xab, 0xcd, 0xef],
            Lettercase::Uppercase,
            " "
        )
    );
    assert_eq!(
        "1234567890abcdef",
        bytes_to_string(
            &vec![0x12, 0x34, 0x56, 0x78, 0x90, 0xab, 0xcd, 0xef],
            Lettercase::Lowercase,
            ""
        )
    );
    assert_eq!(
        "12*34*56*78*90*AB*CD*EF",
        bytes_to_string(
            &vec![0x12, 0x34, 0x56, 0x78, 0x90, 0xab, 0xcd, 0xef],
            Lettercase::Uppercase,
            "*"
        )
    );
    assert_eq!(
        "12--34--56--78--90--ab--cd--ef",
        bytes_to_string(
            &vec![0x12, 0x34, 0x56, 0x78, 0x90, 0xab, 0xcd, 0xef],
            Lettercase::Lowercase,
            "--"
        )
    );
}

#[test]
fn bytes_to_string_edge_cases() {
    assert_eq!("", bytes_to_string(&vec![], Lettercase::Uppercase, " "));
    assert_eq!("0F", bytes_to_string(&vec![0x0f], Lettercase::Uppercase, "::"));
    assert_eq!("00 ff", bytes_to_string(&vec![0x00, 0xff], Lettercase::Lowercase, " "));
}

#[test]
fn string_to_bytes_rejects_empty_and_odd() {
    assert_eq!(Vec::<u8>::new(), string_to_bytes(""));
    assert_eq!(Vec::<u8>::new(), string_to_bytes("   "));
    assert_eq!(Vec::<u8>::new(), string_to_bytes("12 3"));
}

#[test]
fn string_to_bytes_substitutes_non_hex_nibbles() {
    let r = string_to_bytes("1z z2");
    assert_eq!(2, r.len());
    assert_eq!(0x1, r[0] >> 4);
    assert_eq!(0x2, r[1] & 0xf);
}

#[test]
fn hex_round_trip() {
    let bytes: Vec<u8> = (0..=255u8).collect();
    for case in [Lettercase::Lowercase, Lettercase::Uppercase] {
        for sep in ["", " ", " \t "] {
            assert_eq!(bytes, string_to_bytes(&bytes_to_string(&bytes, case, sep)));
        }
    }
}

#[test]
fn nibble_or_fill_values() {
    assert_eq!(0xa, nibble_or_fill('a', 3));
    assert_eq!(0xF, nibble_or_fill('F', 3));
    assert_eq!(7, nibble_or_fill('7', 3));
    assert_eq!(3, nibble_or_fill('x', 3));
}
