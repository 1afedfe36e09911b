use pngme::chunk::Chunk;
use pngme::chunk_type::ChunkType;
use pngme::error::PngError;
use pngme::png::Png;

fn chunk(code: &str, data: &[u8]) -> Chunk {
    Chunk::new(ChunkType::from_text(code).unwrap(), data.to_vec())
}

fn sample_bytes() -> Vec<u8> {
    let mut b = Png::header().to_vec();
    b.extend(chunk("IHDR", &[0, 0, 0, 1, 0, 0, 0, 1, 8, 2, 0, 0, 0]).as_bytes());
    b.extend(chunk("teXt", b"Comment\0hello").as_bytes());
    b.extend(chunk("RuSt", b"first").as_bytes());
    b.extend(chunk("RuSt", b"second").as_bytes());
    b.extend(chunk("IEND", b"").as_bytes());
    b
}

#[test]
fn header_is_png_signature() {
    assert_eq!(Png::header(), [137, 80, 78, 71, 13, 10, 26, 10]);
}

#[test]
fn parse_then_serialize_is_identity() {
    let bytes = sample_bytes();
    let png = Png::parse(&bytes).unwrap();
    assert_eq!(png.chunks().len(), 5);
    assert_eq!(png.as_bytes(), bytes);
}

#[test]
fn serialize_then_parse_gives_same_chunks() {
    let png = Png::from_chunks(vec![chunk("IHDR", b"abc"), chunk("IEND", b"")]);
    let again = Png::parse(&png.as_bytes()).unwrap();
    assert_eq!(again.chunks().len(), 2);
    assert_eq!(again.chunks()[0].data(), b"abc");
    assert_eq!(again.chunks()[1].chunk_type().to_string(), "IEND");
}

#[test]
fn signature_only_is_empty_document() {
    let png = Png::parse(&Png::header()).unwrap();
    assert_eq!(png.chunks().len(), 0);
}

#[test]
fn bad_signature() {
    let mut bytes = sample_bytes();
    bytes[1] = b'Q';
    assert_eq!(Png::parse(&bytes).unwrap_err(), PngError::BadSignature);
    assert_eq!(Png::parse(&[137, 80, 78]).unwrap_err(), PngError::BadSignature);
}

#[test]
fn truncated_document() {
    let bytes = sample_bytes();
    assert_eq!(Png::parse(&bytes[..bytes.len() - 1]).unwrap_err(), PngError::Truncated);
    assert_eq!(Png::parse(&bytes[..bytes.len() - 5]).unwrap_err(), PngError::Truncated);
}

#[test]
fn corrupted_chunk_in_document() {
    let mut bytes = sample_bytes();
    bytes[8 + 8] ^= 1;
    assert_eq!(Png::parse(&bytes).unwrap_err(), PngError::ChecksumMismatch);
}

#[test]
fn lookup_finds_first_match() {
    let png = Png::parse(&sample_bytes()).unwrap();
    assert_eq!(png.chunk_by_type("RuSt").unwrap().data(), b"first");
    assert!(png.chunk_by_type("ABCD").is_none());
    assert!(png.chunk_by_type("RuS").is_none());
    assert!(png.chunk_by_type("Ru1t").is_none());
}

#[test]
fn append_then_lookup() {
    let mut png = Png::parse(&sample_bytes()).unwrap();
    png.append_chunk(chunk("NeWw", b"new"));
    assert_eq!(png.chunks().len(), 6);
    assert_eq!(png.chunk_by_type("NeWw").unwrap().data(), b"new");
    png.append_chunk(chunk("RuSt", b"third"));
    assert_eq!(png.chunk_by_type("RuSt").unwrap().data(), b"first");
}

#[test]
fn remove_takes_first_match_only() {
    let mut png = Png::parse(&sample_bytes()).unwrap();
    let removed = png.remove_chunk("RuSt").unwrap();
    assert_eq!(removed.data(), b"first");
    assert_eq!(png.chunks().len(), 4);
    assert_eq!(png.chunk_by_type("RuSt").unwrap().data(), b"second");
    png.remove_chunk("RuSt").unwrap();
    assert!(png.chunk_by_type("RuSt").is_none());
}

#[test]
fn remove_absent_leaves_document() {
    let bytes = sample_bytes();
    let mut png = Png::parse(&bytes).unwrap();
    assert_eq!(png.remove_chunk("ABCD").unwrap_err(), PngError::ChunkNotFound);
    assert_eq!(png.as_bytes(), bytes);
}

#[test]
fn embed_refuses_duplicate_in_place() {
    let bytes = sample_bytes();
    let mut png = Png::parse(&bytes).unwrap();
    assert_eq!(png.embed(chunk("RuSt", b"x"), true), Err(PngError::DuplicateChunk));
    assert_eq!(png.as_bytes(), bytes);
    assert_eq!(png.embed(chunk("RuSt", b"x"), false), Ok(()));
    assert_eq!(png.chunks().len(), 6);
    assert_eq!(png.embed(chunk("ZzZz", b"y"), true), Ok(()));
    assert_eq!(png.chunks().len(), 7);
}

#[test]
fn render_lists_signature_and_chunks() {
    let png = Png::from_chunks(vec![chunk("IEND", b"")]);
    assert_eq!(png.render(), "89504e470d0a1a0a\nIEND 0 2923585666 \n");
    let c = chunk("RuSt", &[0xab, 0x01, 0x10]);
    let crc = c.crc;
    let png = Png::from_chunks(vec![c]);
    assert_eq!(png.render(), format!("89504e470d0a1a0a\nRuSt 3 {} ab0110\n", crc));
}
