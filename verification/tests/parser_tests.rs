use extractor::gifparser::{
    color_table_bytes, Block, ExtensionType, GifBlockType, GifParser, ParseErrorKind,
};

fn minimal_gif() -> Vec<u8> {
    // header "GIF89a", logical screen descriptor, one image descriptor,
    // image data (LZW size byte plus a single 3-byte sub-block), the chain
    // terminator, and the trailer
    let mut bytes: Vec<u8> = vec![0x47, 0x49, 0x46, 0x38, 0x39, 0x61];
    bytes.extend_from_slice(&[0x0A, 0x00, 0x0A, 0x00, 0x00, 0x00, 0x00]);
    bytes.extend_from_slice(&[0x2C, 0x00, 0x00, 0x00, 0x00, 0x0A, 0x00, 0x0A, 0x00, 0x00]);
    bytes.extend_from_slice(&[0x08, 0x03, 0xAA, 0xBB, 0xCC, 0x00]);
    bytes.push(0x3B);
    bytes
}

#[test]
fn coverage_minimal_stream() {
    let bytes = minimal_gif();
    let mut parser = GifParser::new();
    let blocks = parser.parse_gif_from_bytes(&bytes).unwrap();

    let expected = vec![
        (0usize, 6usize, GifBlockType::Header),
        (6, 7, GifBlockType::LogicalScreenDescriptor),
        (13, 10, GifBlockType::ImageDescriptor),
        (23, 5, GifBlockType::ImageData),
        (29, 1, GifBlockType::Trailer),
    ];
    assert_eq!(blocks.len(), expected.len());
    for (block, (index, size, block_type)) in blocks.iter().zip(expected.iter()) {
        assert_eq!(block.index, *index);
        assert_eq!(block.size, *size);
        assert_eq!(block.block_type, *block_type);
    }

    // the blocks tile the stream: increasing, no overlap, and every byte in
    // a gap between consecutive blocks is a skipped 0x00 padding byte
    for pair in blocks.windows(2) {
        let end = pair[0].index + pair[0].size;
        assert!(end <= pair[1].index);
        for j in end..pair[1].index {
            assert_eq!(bytes[j], 0x00);
        }
    }
    let last = blocks.last().unwrap();
    assert_eq!(last.index + last.size, bytes.len());
}

#[test]
fn color_table_sizing() {
    // 3 * 2^(n+1) for the low three bits n of the packed byte
    assert_eq!(color_table_bytes(0x80), 6);
    assert_eq!(color_table_bytes(0x81), 12);
    assert_eq!(color_table_bytes(0x83), 48);
    assert_eq!(color_table_bytes(0x87), 768);
    assert_eq!(color_table_bytes(0xF7), 768);
    assert_eq!(color_table_bytes(0x00), 6);
}

#[test]
fn sub_block_chain_length() {
    let bytes = [3u8, 0xAA, 0xBB, 0xCC, 0x00];
    let parser = GifParser::new();
    assert_eq!(parser.length_of_sub_blocks(&bytes, 0).unwrap(), 4);
}

#[test]
fn sub_block_chain_length_two_blocks() {
    let bytes = [2u8, 0x01, 0x02, 1, 0x03, 0x00];
    let parser = GifParser::new();
    assert_eq!(parser.length_of_sub_blocks(&bytes, 0).unwrap(), 5);
}

#[test]
fn sub_block_chain_empty() {
    let bytes = [0u8];
    let parser = GifParser::new();
    assert_eq!(parser.length_of_sub_blocks(&bytes, 0).unwrap(), 0);
}

#[test]
fn global_color_table_block() {
    // the packed byte at offset 4 with its high bit set announces a global
    // color table; low bits 0 make it 6 bytes long
    let mut bytes: Vec<u8> = vec![0x47, 0x49, 0x46, 0x38, 0x80, 0x61];
    bytes.extend_from_slice(&[0x0A, 0x00, 0x0A, 0x00, 0x00, 0x00, 0x00]);
    bytes.extend_from_slice(&[0x11, 0x22, 0x33, 0x44, 0x55, 0x66]);
    bytes.push(0x3B);
    let mut parser = GifParser::new();
    let blocks = parser.parse_gif_from_bytes(&bytes).unwrap();
    assert_eq!(blocks.len(), 4);
    assert_eq!(blocks[2].index, 13);
    assert_eq!(blocks[2].size, 6);
    assert_eq!(blocks[2].block_type, GifBlockType::ColorTable);
    assert_eq!(blocks[3].block_type, GifBlockType::Trailer);
    assert_eq!(blocks[3].index, 19);
}

#[test]
fn local_color_table_block() {
    let mut bytes: Vec<u8> = vec![0x47, 0x49, 0x46, 0x38, 0x39, 0x61];
    bytes.extend_from_slice(&[0x0A, 0x00, 0x0A, 0x00, 0x00, 0x00, 0x00]);
    // image descriptor whose packed byte asks for a local table of
    // 3 * 2^(1+1) = 12 bytes
    bytes.extend_from_slice(&[0x2C, 0x00, 0x00, 0x00, 0x00, 0x0A, 0x00, 0x0A, 0x00, 0x81]);
    bytes.extend_from_slice(&[0u8; 12]);
    bytes.extend_from_slice(&[0x08, 0x02, 0xAA, 0xBB, 0x00]);
    bytes.push(0x3B);
    let mut parser = GifParser::new();
    let blocks = parser.parse_gif_from_bytes(&bytes).unwrap();
    let kinds: Vec<GifBlockType> = blocks.iter().map(|b| b.block_type).collect();
    assert_eq!(
        kinds,
        vec![
            GifBlockType::Header,
            GifBlockType::LogicalScreenDescriptor,
            GifBlockType::ImageDescriptor,
            GifBlockType::ColorTable,
            GifBlockType::ImageData,
            GifBlockType::Trailer,
        ]
    );
    assert_eq!(blocks[3].index, 23);
    assert_eq!(blocks[3].size, 12);
    assert_eq!(blocks[4].index, 35);
    // LZW size byte plus the 3-byte chain
    assert_eq!(blocks[4].size, 4);
}

#[test]
fn malformed_extension_label() {
    let mut bytes: Vec<u8> = vec![0x47, 0x49, 0x46, 0x38, 0x39, 0x61];
    bytes.extend_from_slice(&[0x0A, 0x00, 0x0A, 0x00, 0x00, 0x00, 0x00]);
    bytes.extend_from_slice(&[0x21, 0x02, 0x00, 0x00]);
    bytes.push(0x3B);
    let mut parser = GifParser::new();
    let err = parser.parse_gif_from_bytes(&bytes).unwrap_err();
    assert_eq!(err.kind, ParseErrorKind::InvalidExtensionType);
    // the error points at the label's own offset
    assert_eq!(err.offset, 14);
}

#[test]
fn truncation_mid_chain() {
    // the image data sub-block promises 5 bytes but the stream stops short
    let mut bytes: Vec<u8> = vec![0x47, 0x49, 0x46, 0x38, 0x39, 0x61];
    bytes.extend_from_slice(&[0x0A, 0x00, 0x0A, 0x00, 0x00, 0x00, 0x00]);
    bytes.extend_from_slice(&[0x2C, 0x00, 0x00, 0x00, 0x00, 0x0A, 0x00, 0x0A, 0x00, 0x00]);
    bytes.extend_from_slice(&[0x08, 0x05, 0xAA, 0xBB]);
    let mut parser = GifParser::new();
    let err = parser.parse_gif_from_bytes(&bytes).unwrap_err();
    assert_eq!(err.kind, ParseErrorKind::UnexpectedEndOfData);
    // the walk would have read the next length byte past the end
    assert_eq!(err.offset, 30);
    assert!(err.offset >= bytes.len());
}

#[test]
fn truncation_inside_header() {
    let bytes = [0x47u8, 0x49, 0x46, 0x38];
    let mut parser = GifParser::new();
    let err = parser.parse_gif_from_bytes(&bytes).unwrap_err();
    assert_eq!(err.kind, ParseErrorKind::UnexpectedEndOfData);
    assert_eq!(err.offset, 4);
}

#[test]
fn truncation_before_body() {
    let bytes = [0x47u8, 0x49, 0x46, 0x38, 0x39, 0x61, 0x01, 0x02];
    let mut parser = GifParser::new();
    let err = parser.parse_gif_from_bytes(&bytes).unwrap_err();
    assert_eq!(err.kind, ParseErrorKind::UnexpectedEndOfData);
    // the body loop starts at offset 13, past the end of this stream
    assert_eq!(err.offset, 13);
}

#[test]
fn padding_tolerance() {
    // stray 0x00 bytes between the global color table and the image
    // descriptor are skipped without producing blocks
    let mut bytes: Vec<u8> = vec![0x47, 0x49, 0x46, 0x38, 0x80, 0x61];
    bytes.extend_from_slice(&[0x0A, 0x00, 0x0A, 0x00, 0x00, 0x00, 0x00]);
    bytes.extend_from_slice(&[0x11, 0x22, 0x33, 0x44, 0x55, 0x66]);
    bytes.extend_from_slice(&[0x00, 0x00, 0x00]);
    bytes.extend_from_slice(&[0x2C, 0x00, 0x00, 0x00, 0x00, 0x0A, 0x00, 0x0A, 0x00, 0x00]);
    bytes.extend_from_slice(&[0x08, 0x01, 0xAA, 0x00]);
    bytes.push(0x3B);
    let mut parser = GifParser::new();
    let blocks = parser.parse_gif_from_bytes(&bytes).unwrap();
    let kinds: Vec<GifBlockType> = blocks.iter().map(|b| b.block_type).collect();
    assert_eq!(
        kinds,
        vec![
            GifBlockType::Header,
            GifBlockType::LogicalScreenDescriptor,
            GifBlockType::ColorTable,
            GifBlockType::ImageDescriptor,
            GifBlockType::ImageData,
            GifBlockType::Trailer,
        ]
    );
    // the image descriptor starts past the three padding bytes
    assert_eq!(blocks[3].index, 22);
}

#[test]
fn header_invalid() {
    let bytes = [0x50u8, 0x4E, 0x47, 0x20, 0x00, 0x00, 0x00];
    let mut parser = GifParser::new();
    let err = parser.parse_gif_from_bytes(&bytes).unwrap_err();
    assert_eq!(err.kind, ParseErrorKind::HeaderInvalid);
    assert_eq!(err.offset, 0);
}

#[test]
fn invalid_block_marker() {
    let mut bytes: Vec<u8> = vec![0x47, 0x49, 0x46, 0x38, 0x39, 0x61];
    bytes.extend_from_slice(&[0x0A, 0x00, 0x0A, 0x00, 0x00, 0x00, 0x00]);
    bytes.push(0x55);
    let mut parser = GifParser::new();
    let err = parser.parse_gif_from_bytes(&bytes).unwrap_err();
    assert_eq!(err.kind, ParseErrorKind::InvalidBlockMarker);
    assert_eq!(err.offset, 13);
}

#[test]
fn graphic_control_extension() {
    let mut bytes: Vec<u8> = vec![0x47, 0x49, 0x46, 0x38, 0x39, 0x61];
    bytes.extend_from_slice(&[0x0A, 0x00, 0x0A, 0x00, 0x00, 0x00, 0x00]);
    bytes.extend_from_slice(&[0x21, 0xF9, 0x04, 0x00, 0x05, 0x00, 0x00, 0x00]);
    bytes.extend_from_slice(&[0x2C, 0x00, 0x00, 0x00, 0x00, 0x0A, 0x00, 0x0A, 0x00, 0x00]);
    bytes.extend_from_slice(&[0x08, 0x01, 0xAA, 0x00]);
    bytes.push(0x3B);
    let mut parser = GifParser::new();
    let blocks = parser.parse_gif_from_bytes(&bytes).unwrap();
    assert_eq!(blocks[2].index, 13);
    assert_eq!(blocks[2].size, 7);
    assert_eq!(
        blocks[2].block_type,
        GifBlockType::Extension(ExtensionType::GraphicControl)
    );
}

#[test]
fn graphic_control_bad_terminator() {
    let mut bytes: Vec<u8> = vec![0x47, 0x49, 0x46, 0x38, 0x39, 0x61];
    bytes.extend_from_slice(&[0x0A, 0x00, 0x0A, 0x00, 0x00, 0x00, 0x00]);
    bytes.extend_from_slice(&[0x21, 0xF9, 0x04, 0x00, 0x05, 0x00, 0x00, 0xAB]);
    bytes.push(0x3B);
    let mut parser = GifParser::new();
    let err = parser.parse_gif_from_bytes(&bytes).unwrap_err();
    assert_eq!(err.kind, ParseErrorKind::InvalidExtensionTerminator);
    assert_eq!(err.offset, 20);
}

#[test]
fn comment_extension() {
    let mut bytes: Vec<u8> = vec![0x47, 0x49, 0x46, 0x38, 0x39, 0x61];
    bytes.extend_from_slice(&[0x0A, 0x00, 0x0A, 0x00, 0x00, 0x00, 0x00]);
    bytes.extend_from_slice(&[0x21, 0xFE, 0x02, 0x68, 0x69, 0x00]);
    bytes.push(0x3B);
    let mut parser = GifParser::new();
    let blocks = parser.parse_gif_from_bytes(&bytes).unwrap();
    assert_eq!(blocks[2].index, 13);
    // introducer + label + a 3-byte sub-block (length byte and 2 data bytes)
    assert_eq!(blocks[2].size, 5);
    assert_eq!(
        blocks[2].block_type,
        GifBlockType::Extension(ExtensionType::Comment)
    );
}

#[test]
fn plain_text_extension() {
    let mut bytes: Vec<u8> = vec![0x47, 0x49, 0x46, 0x38, 0x39, 0x61];
    bytes.extend_from_slice(&[0x0A, 0x00, 0x0A, 0x00, 0x00, 0x00, 0x00]);
    bytes.extend_from_slice(&[0x21, 0x01, 0x0C]);
    bytes.extend_from_slice(&[0u8; 12]);
    bytes.extend_from_slice(&[0x01, 0x41, 0x00]);
    bytes.push(0x3B);
    let mut parser = GifParser::new();
    let blocks = parser.parse_gif_from_bytes(&bytes).unwrap();
    assert_eq!(blocks[2].index, 13);
    // introducer + label + size byte + 12 metadata bytes + a 2-byte chain
    assert_eq!(blocks[2].size, 17);
    assert_eq!(
        blocks[2].block_type,
        GifBlockType::Extension(ExtensionType::PlainText)
    );
}

#[test]
fn application_extension() {
    let mut bytes: Vec<u8> = vec![0x47, 0x49, 0x46, 0x38, 0x39, 0x61];
    bytes.extend_from_slice(&[0x0A, 0x00, 0x0A, 0x00, 0x00, 0x00, 0x00]);
    bytes.extend_from_slice(&[0x21, 0xFF, 0x0B]);
    bytes.extend_from_slice(&[0x4E, 0x45, 0x54, 0x53, 0x43, 0x41, 0x50, 0x45, 0x32, 0x2E, 0x30]);
    bytes.extend_from_slice(&[0x03, 0x01, 0x00, 0x00, 0x00]);
    bytes.push(0x3B);
    let mut parser = GifParser::new();
    let blocks = parser.parse_gif_from_bytes(&bytes).unwrap();
    assert_eq!(blocks[2].index, 13);
    // introducer + label + size byte + 11 metadata bytes + a 4-byte chain
    assert_eq!(blocks[2].size, 18);
    assert_eq!(
        blocks[2].block_type,
        GifBlockType::Extension(ExtensionType::Application)
    );
}

#[test]
fn trailer_byte_checked() {
    let mut parser = GifParser::new();
    let err = parser.parse_trailer(&[0x41u8]).unwrap_err();
    assert_eq!(err.kind, ParseErrorKind::InvalidTrailerByte);
    assert_eq!(err.offset, 0);
    let mut parser = GifParser::new();
    assert!(parser.parse_trailer(&[0x3Bu8]).is_ok());
    assert_eq!(parser.blocks.len(), 1);
    assert_eq!(
        parser.blocks[0],
        Block { index: 0, size: 1, block_type: GifBlockType::Trailer }
    );
}

#[test]
fn image_descriptor_marker_checked() {
    let mut parser = GifParser::new();
    let err = parser.parse_image_descriptor(&[0x41u8; 12]).unwrap_err();
    assert_eq!(err.kind, ParseErrorKind::InvalidImageDescriptorMarker);
    assert_eq!(err.offset, 0);
}

#[test]
fn trailing_garbage_ignored() {
    // the view may extend past the stream; bytes after the trailer are
    // another matter entirely
    let mut bytes = minimal_gif();
    let stream_len = bytes.len();
    bytes.extend_from_slice(&[0xDE, 0xAD, 0xBE, 0xEF, 0x21, 0x3B]);
    let mut parser = GifParser::new();
    let blocks = parser.parse_gif_from_bytes(&bytes).unwrap();
    let last = blocks.last().unwrap();
    assert_eq!(last.index + last.size, stream_len);
}
