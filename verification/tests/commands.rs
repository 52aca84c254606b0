use pngme::chunk::{Chunk, ChunkError, EncodingError};
use pngme::chunk_type::{ChunkType, TypeError};
use pngme::commands::{decode, encode, print, remove, CommandError};
use pngme::png::{ContainerError, Png};

fn chunk_with(chunk_type: &str, data: &[u8]) -> Chunk {
    Chunk::new(ChunkType::from_text(chunk_type).unwrap(), data.to_vec())
}

fn file_of(chunks: Vec<Chunk>) -> Vec<u8> {
    Png::from_chunks(chunks).as_bytes()
}

fn small_file() -> Vec<u8> {
    file_of(vec![
        chunk_with("IHDR", &[0, 0, 0, 1, 0, 0, 0, 1, 8, 2, 0, 0, 0]),
        chunk_with("IDAT", &[1, 2, 3]),
        chunk_with("IEND", &[]),
    ])
}

#[test]
fn test_print_lists_types_in_order() {
    assert_eq!(print(&small_file()).unwrap(), vec!["IHDR", "IDAT", "IEND"]);
    assert_eq!(print(&file_of(Vec::new())).unwrap(), Vec::<String>::new());
}

#[test]
fn test_print_refuses_what_is_no_container() {
    assert_eq!(
        print(b"not a png").unwrap_err(),
        CommandError::Container(ContainerError::BadSignature)
    );
    let mut bytes = small_file();
    bytes.push(7);
    assert_eq!(
        print(&bytes).unwrap_err(),
        CommandError::Container(ContainerError::Trailing)
    );
}

#[test]
fn test_encode_puts_message_before_the_end() {
    let out = encode(&small_file(), "RuSt", "hello").unwrap();
    let expected = file_of(vec![
        chunk_with("IHDR", &[0, 0, 0, 1, 0, 0, 0, 1, 8, 2, 0, 0, 0]),
        chunk_with("IDAT", &[1, 2, 3]),
        chunk_with("RuSt", b"hello"),
        chunk_with("IEND", &[]),
    ]);
    assert_eq!(out, expected);
    assert_eq!(print(&out).unwrap(), vec!["IHDR", "IDAT", "RuSt", "IEND"]);
}

#[test]
fn test_encode_moves_the_first_end_chunk() {
    let bytes = file_of(vec![
        chunk_with("IEND", b"first"),
        chunk_with("IDAT", &[1]),
        chunk_with("IEND", b"second"),
    ]);
    let out = encode(&bytes, "RuSt", "m").unwrap();
    let png = Png::parse(&out).unwrap();
    let seen: Vec<(String, Vec<u8>)> = png
        .chunks()
        .iter()
        .map(|c| (c.chunk_type().to_text(), c.data().to_vec()))
        .collect();
    assert_eq!(
        seen,
        vec![
            ("IDAT".to_string(), vec![1]),
            ("IEND".to_string(), b"second".to_vec()),
            ("RuSt".to_string(), b"m".to_vec()),
            ("IEND".to_string(), b"first".to_vec()),
        ]
    );
}

#[test]
fn test_encode_then_decode() {
    let out = encode(&small_file(), "RuSt", "This is a secret message!").unwrap();
    assert_eq!(decode(&out, "RuSt").unwrap(), "This is a secret message!");
    let out = encode(&small_file(), "teXt", "gr\u{fc}\u{df}e").unwrap();
    assert_eq!(decode(&out, "teXt").unwrap(), "gr\u{fc}\u{df}e");
}

#[test]
fn test_encode_errors() {
    assert_eq!(
        encode(&small_file()[1..], "RuSt", "hello").unwrap_err(),
        CommandError::Container(ContainerError::BadSignature)
    );
    let no_end = file_of(vec![chunk_with("IDAT", &[1, 2, 3])]);
    assert_eq!(
        encode(&no_end, "RuSt", "hello").unwrap_err(),
        CommandError::Container(ContainerError::NotFound)
    );
    assert_eq!(
        encode(&small_file(), "RuS", "hello").unwrap_err(),
        CommandError::Type(TypeError::WrongLength)
    );
    assert_eq!(
        encode(&small_file(), "Ru5t", "hello").unwrap_err(),
        CommandError::Type(TypeError::NonAlphabetic)
    );
}

#[test]
fn test_encode_judges_the_file_before_the_type() {
    let no_end = file_of(vec![chunk_with("IDAT", &[1, 2, 3])]);
    assert_eq!(
        encode(&no_end, "bad type", "hello").unwrap_err(),
        CommandError::Container(ContainerError::NotFound)
    );
    assert_eq!(
        encode(b"", "bad type", "hello").unwrap_err(),
        CommandError::Container(ContainerError::BadSignature)
    );
}

#[test]
fn test_decode_reads_the_first_of_the_type() {
    let bytes = file_of(vec![
        chunk_with("RuSt", b"one"),
        chunk_with("RuSt", b"two"),
        chunk_with("IEND", &[]),
    ]);
    assert_eq!(decode(&bytes, "RuSt").unwrap(), "one");
    assert_eq!(decode(&bytes, "IEND").unwrap(), "");
}

#[test]
fn test_decode_errors() {
    assert_eq!(
        decode(&small_file(), "RuSt").unwrap_err(),
        CommandError::Container(ContainerError::NotFound)
    );
    assert_eq!(
        decode(&small_file(), "").unwrap_err(),
        CommandError::Container(ContainerError::NotFound)
    );
    let bytes = file_of(vec![chunk_with("RuSt", &[0xc3, 0x28])]);
    assert_eq!(
        decode(&bytes, "RuSt").unwrap_err(),
        CommandError::Encoding(EncodingError::InvalidUtf8)
    );
    let mut bytes = small_file();
    let last = bytes.len() - 1;
    bytes[last] ^= 1;
    assert_eq!(
        decode(&bytes, "IHDR").unwrap_err(),
        CommandError::Container(ContainerError::Chunk(ChunkError::ChecksumMismatch))
    );
}

#[test]
fn test_remove_takes_the_chunk_out() {
    let with_message = encode(&small_file(), "RuSt", "hello").unwrap();
    assert_eq!(remove(&with_message, "RuSt").unwrap(), small_file());
    assert_eq!(
        remove(&small_file(), "IDAT").unwrap(),
        file_of(vec![
            chunk_with("IHDR", &[0, 0, 0, 1, 0, 0, 0, 1, 8, 2, 0, 0, 0]),
            chunk_with("IEND", &[]),
        ])
    );
}

#[test]
fn test_remove_errors() {
    assert_eq!(
        remove(&small_file(), "RuSt").unwrap_err(),
        CommandError::Container(ContainerError::NotFound)
    );
    assert_eq!(
        remove(&small_file()[..20], "IHDR").unwrap_err(),
        CommandError::Container(ContainerError::Chunk(ChunkError::Truncated))
    );
    assert_eq!(
        remove(&[0; 8], "IHDR").unwrap_err(),
        CommandError::Container(ContainerError::BadSignature)
    );
}
