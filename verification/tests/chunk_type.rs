use pngme::chunk_type::{ChunkType, TypeError};

#[test]
fn test_chunk_type_from_bytes() {
    let expected = [82, 117, 83, 116];
    let actual = ChunkType::from_bytes([82, 117, 83, 116]).unwrap();
    assert_eq!(expected, actual.bytes());
}

#[test]
fn test_from_bytes_accepts_every_letter_quadruple_sampled() {
    let letters: Vec<u8> = (b'A'..=b'Z').chain(b'a'..=b'z').collect();
    for &a in &letters {
        for &b in &letters {
            let bytes = [a, b, b, a];
            let code = ChunkType::from_bytes(bytes).unwrap();
            assert_eq!(code.bytes(), bytes);
        }
    }
}

#[test]
fn test_from_bytes_rejects_any_non_letter() {
    for b in 0..=255u8 {
        if b.is_ascii_alphabetic() {
            continue;
        }
        for place in 0..4 {
            let mut bytes = *b"RuSt";
            bytes[place] = b;
            assert_eq!(
                ChunkType::from_bytes(bytes).unwrap_err(),
                TypeError::NonAlphabetic
            );
        }
    }
}

#[test]
fn test_from_bytes_edges_of_the_letter_ranges() {
    for b in [b'A', b'Z', b'a', b'z'] {
        assert!(ChunkType::from_bytes([b, b, b, b]).is_ok());
    }
    for b in [b'@', b'[', b'`', b'{'] {
        assert_eq!(
            ChunkType::from_bytes([b'R', b'u', b, b't']).unwrap_err(),
            TypeError::NonAlphabetic
        );
    }
}

#[test]
fn test_chunk_type_from_text() {
    let expected = ChunkType::from_bytes([82, 117, 83, 116]).unwrap();
    let actual = ChunkType::from_text("RuSt").unwrap();
    assert_eq!(expected, actual);
}

#[test]
fn test_from_text_wrong_length() {
    assert_eq!(ChunkType::from_text("").unwrap_err(), TypeError::WrongLength);
    assert_eq!(
        ChunkType::from_text("RuS").unwrap_err(),
        TypeError::WrongLength
    );
    assert_eq!(
        ChunkType::from_text("RuSty").unwrap_err(),
        TypeError::WrongLength
    );
    assert_eq!(
        ChunkType::from_text("R1").unwrap_err(),
        TypeError::WrongLength
    );
}

#[test]
fn test_from_text_non_alphabetic() {
    assert_eq!(
        ChunkType::from_text("Ru1t").unwrap_err(),
        TypeError::NonAlphabetic
    );
    assert_eq!(
        ChunkType::from_text("Ru t").unwrap_err(),
        TypeError::NonAlphabetic
    );
}

#[test]
fn test_from_text_counts_bytes() {
    assert_eq!(
        ChunkType::from_text("\u{e9}ab").unwrap_err(),
        TypeError::NonAlphabetic
    );
    assert_eq!(
        ChunkType::from_text("\u{e9}abc").unwrap_err(),
        TypeError::WrongLength
    );
}

#[test]
fn test_rust_type_properties() {
    let code = ChunkType::from_text("RuSt").unwrap();
    assert!(code.is_valid());
    assert!(code.is_critical());
    assert!(!code.is_public());
    assert!(code.is_reserved_bit_valid());
    assert!(code.is_safe_to_copy());
}

#[test]
fn test_lower_first_byte_is_ancillary() {
    let code = ChunkType::from_text("ruSt").unwrap();
    assert!(!code.is_critical());
    assert!(code.is_valid());
}

#[test]
fn test_public_and_private() {
    assert!(ChunkType::from_text("RUSt").unwrap().is_public());
    assert!(!ChunkType::from_text("RuSt").unwrap().is_public());
}

#[test]
fn test_safe_to_copy() {
    assert!(ChunkType::from_text("RuSt").unwrap().is_safe_to_copy());
    assert!(!ChunkType::from_text("RuST").unwrap().is_safe_to_copy());
}

#[test]
fn test_reserved_bit_set_builds_but_is_invalid() {
    let code = ChunkType::from_text("Rust").unwrap();
    assert!(!code.is_reserved_bit_valid());
    assert!(!code.is_valid());
    assert_eq!(code.bytes(), *b"Rust");
}

#[test]
fn test_chunk_type_to_text() {
    let code = ChunkType::from_bytes([82, 117, 83, 116]).unwrap();
    assert_eq!(code.to_text(), "RuSt");
    assert_eq!(ChunkType::from_text("IEND").unwrap().to_text(), "IEND");
    assert_eq!(
        ChunkType::from_text(&code.to_text()).unwrap().bytes(),
        code.bytes()
    );
}

#[test]
fn test_chunk_type_equality() {
    let a = ChunkType::from_text("RuSt").unwrap();
    let b = ChunkType::from_bytes(*b"RuSt").unwrap();
    let c = ChunkType::from_text("RuSu").unwrap();
    let d = ChunkType::from_text("ruSt").unwrap();
    assert!(a == b);
    assert!(a != c);
    assert!(a != d);
    assert_eq!(a, a);
}

#[test]
fn test_chunk_type_order_is_byte_wise() {
    let code = |s: &str| ChunkType::from_text(s).unwrap();
    assert!(code("RuSt") < code("RuSu"));
    assert!(code("RuSt") > code("RuSs"));
    assert!(code("AZZZ") < code("BAAA"));
    assert!(code("Zaaa") < code("aAAA"));
    assert!(code("RuSt") <= code("RuSt"));
    assert!(code("RuSt") >= code("RuSt"));
    assert!(!(code("RuSt") < code("RuSt")));
    assert_eq!(
        code("IDAT").partial_cmp(&code("IEND")),
        Some(std::cmp::Ordering::Less)
    );
    assert_eq!(
        code("IEND").partial_cmp(&code("IDAT")),
        Some(std::cmp::Ordering::Greater)
    );
    assert_eq!(
        code("IEND").partial_cmp(&code("IEND")),
        Some(std::cmp::Ordering::Equal)
    );
    assert_eq!(code("IDAT").cmp(&code("IEND")), std::cmp::Ordering::Less);
    let mut codes = vec![code("tEXt"), code("IEND"), code("IHDR"), code("IDAT")];
    codes.sort();
    let sorted: Vec<String> = codes.iter().map(|c| c.to_text()).collect();
    assert_eq!(sorted, vec!["IDAT", "IEND", "IHDR", "tEXt"]);
}
