//! A parser for the GIF block structure: it records only the starting
//! offsets and lengths of the blocks that make up a stream, without decoding
//! any pixel data.

use vstd::prelude::*;

verus! {

/// The structural failures a parse can end with, each reported together
/// with the byte offset at which it was detected.
#[derive(Debug, Clone, Copy, PartialEq, Eq, Structural)]
pub enum ParseErrorKind {
    HeaderInvalid,
    UnexpectedEndOfData,
    InvalidBlockMarker,
    InvalidExtensionType,
    InvalidExtensionTerminator,
    InvalidImageDescriptorMarker,
    InvalidImageDataTerminator,
    InvalidTrailerByte,
}

/// A structural parse error: what went wrong and where.
#[derive(Debug, Clone, Copy, PartialEq, Eq, Structural)]
pub struct GifParseError {
    pub kind: ParseErrorKind,
    pub offset: usize,
}

impl GifParseError {
    pub fn new(kind: ParseErrorKind, offset: usize) -> (e: Self)
        ensures
            e.kind == kind,
            e.offset == offset,
    {
        Self { kind, offset }
    }
}

/// The four extension shapes selected by the label byte after `0x21`.
#[derive(Debug, Clone, Copy, PartialEq, Eq, Structural)]
pub enum ExtensionType {
    GraphicControl,
    Comment,
    PlainText,
    Application,
}

/// The kinds of structural unit a GIF stream is made of.
#[derive(Debug, Clone, Copy, PartialEq, Eq, Structural)]
pub enum GifBlockType {
    Header,
    LogicalScreenDescriptor,
    ColorTable,
    Extension(ExtensionType),
    ImageDescriptor,
    ImageData,
    Trailer,
}

/// A parsed structural unit: where it starts in the candidate view, how many
/// bytes it spans, and what it is.
#[derive(Debug, Clone, Copy, PartialEq, Eq, Structural)]
pub struct Block {
    pub index: usize,
    pub size: usize,
    pub block_type: GifBlockType,
}

/// 2 to the power `n`.
pub open spec fn two_to(n: nat) -> nat
    decreases n,
{
    if n == 0 {
        1
    } else {
        2 * two_to((n - 1) as nat)
    }
}

/// The byte length of a color table whose presence and size are encoded in
/// `packed`: with `n` the low three bits, the table holds `2^(n+1)` entries
/// of 3 bytes each.
pub open spec fn spec_color_table_len(packed: u8) -> nat {
    3 * two_to(((packed & 0x07) + 1) as nat)
}

proof fn lemma_two_to_vals()
    ensures
        two_to(1) == 2,
        two_to(2) == 4,
        two_to(3) == 8,
        two_to(4) == 16,
        two_to(5) == 32,
        two_to(6) == 64,
        two_to(7) == 128,
        two_to(8) == 256,
{
    reveal_with_fuel(two_to, 9);
}

/// The color table length always lies between 6 (`n = 0`) and 768 (`n = 7`).
pub proof fn lemma_color_table_len_range(packed: u8)
    ensures
        6 <= spec_color_table_len(packed) <= 768,
{
    let n = packed & 0x07;
    assert((packed & 0x07) < 8) by (bit_vector);
    lemma_two_to_vals();
    if n == 0 {
    } else if n == 1 {
    } else if n == 2 {
    } else if n == 3 {
    } else if n == 4 {
    } else if n == 5 {
    } else if n == 6 {
    } else {
        assert(n == 7);
    }
}

/// Computes the byte length of a color table from a packed byte, by the
/// formula `3 * 2^(n+1)` with `n` the low three bits.
pub fn color_table_bytes(packed: u8) -> (n: usize)
    ensures
        n == spec_color_table_len(packed),
        6 <= n <= 768,
{
    let size_exp = packed & 0x07;
    let sh: usize = size_exp as usize;
    proof {
        assert((packed & 0x07) < 8) by (bit_vector);
        assert((sh == 0 ==> (2usize << sh) == 2) && (sh == 1 ==> (2usize << sh) == 4)
            && (sh == 2 ==> (2usize << sh) == 8) && (sh == 3 ==> (2usize << sh) == 16)
            && (sh == 4 ==> (2usize << sh) == 32) && (sh == 5 ==> (2usize << sh) == 64)
            && (sh == 6 ==> (2usize << sh) == 128) && (sh == 7 ==> (2usize << sh) == 256))
            by (bit_vector);
        lemma_two_to_vals();
    }
    let doubled: usize = 2usize << sh;
    3 * doubled
}

/// The length of a chain of length-prefixed sub-blocks starting at `start`:
/// each sub-block is a length byte `L != 0` followed by `L` data bytes, and
/// the chain ends at a zero length byte, which is not counted. `Err(off)`
/// means the walk would have read at offset `off`, beyond the end of the
/// view.
pub open spec fn spec_sub_blocks_len(bytes: Seq<u8>, start: int) -> Result<nat, int>
    decreases bytes.len() - start,
{
    if start < 0 || start >= bytes.len() {
        Err(start)
    } else if bytes[start] == 0 {
        Ok(0)
    } else if start + 1 + bytes[start] > bytes.len() {
        Err(start + 1 + bytes[start])
    } else {
        match spec_sub_blocks_len(bytes, start + 1 + bytes[start]) {
            Ok(rest) => Ok((1 + bytes[start] + rest) as nat),
            Err(off) => Err(off),
        }
    }
}

/// A successful sub-block walk stops exactly on a zero length byte inside
/// the view, so the chain and its terminator lie within bounds.
pub proof fn lemma_sub_blocks_ok(bytes: Seq<u8>, start: int)
    requires
        0 <= start,
        spec_sub_blocks_len(bytes, start) is Ok,
    ensures
        spec_sub_blocks_len(bytes, start) matches Ok(n) ==> start + n < bytes.len()
            && bytes[start + n] == 0,
    decreases bytes.len() - start,
{
    if start >= bytes.len() {
    } else if bytes[start] == 0 {
    } else if start + 1 + bytes[start] > bytes.len() {
    } else {
        lemma_sub_blocks_ok(bytes, start + 1 + bytes[start]);
    }
}

/// A sub-block walk can only fail by running off the end of the view: the
/// failing offset is at or past `bytes.len()`, and never further than one
/// sub-block past it.
pub proof fn lemma_sub_blocks_err(bytes: Seq<u8>, start: int)
    requires
        0 <= start,
        spec_sub_blocks_len(bytes, start) is Err,
    ensures
        spec_sub_blocks_len(bytes, start) matches Err(off) ==> bytes.len() <= off
            && (off <= bytes.len() + 255 || off == start),
    decreases bytes.len() - start,
{
    if start >= bytes.len() {
    } else if bytes[start] == 0 {
    } else if start + 1 + bytes[start] > bytes.len() {
    } else {
        lemma_sub_blocks_err(bytes, start + 1 + bytes[start]);
    }
}

/// The outcome of parsing one extension block whose introducer `0x21`
/// stands at `cursor`: the block descriptor and the cursor position after
/// it (on the chain terminator byte, which the body loop then skips), or
/// the error. The label byte selects one of four shapes; the introducer and
/// label are counted in the block's size.
pub open spec fn spec_extension(bytes: Seq<u8>, cursor: int) -> Result<
    (Block, int),
    (ParseErrorKind, int),
> {
    if cursor + 1 >= bytes.len() {
        Err((ParseErrorKind::UnexpectedEndOfData, cursor + 1))
    } else {
        let label = bytes[cursor + 1];
        let shape: Result<(int, ExtensionType), (ParseErrorKind, int)> = if label == 0xF9 {
            // graphic control: declared-size byte plus fixed 4 data bytes
            Ok((7, ExtensionType::GraphicControl))
        } else if label == 0xFE {
            // comment: sub-block chain only
            match spec_sub_blocks_len(bytes, cursor + 2) {
                Ok(n) => Ok((2 + n as int, ExtensionType::Comment)),
                Err(off) => Err((ParseErrorKind::UnexpectedEndOfData, off)),
            }
        } else if label == 0x01 {
            // plain text: size byte, 12 metadata bytes, then a chain
            match spec_sub_blocks_len(bytes, cursor + 15) {
                Ok(n) => Ok((15 + n as int, ExtensionType::PlainText)),
                Err(off) => Err((ParseErrorKind::UnexpectedEndOfData, off)),
            }
        } else if label == 0xFF {
            // application: size byte, 11 metadata bytes, then a chain
            match spec_sub_blocks_len(bytes, cursor + 14) {
                Ok(n) => Ok((14 + n as int, ExtensionType::Application)),
                Err(off) => Err((ParseErrorKind::UnexpectedEndOfData, off)),
            }
        } else {
            Err((ParseErrorKind::InvalidExtensionType, cursor + 1))
        };
        match shape {
            Ok((total, ext_type)) => {
                let term = cursor + total;
                if term >= bytes.len() {
                    Err((ParseErrorKind::UnexpectedEndOfData, term))
                } else if bytes[term] != 0 {
                    Err((ParseErrorKind::InvalidExtensionTerminator, term))
                } else {
                    Ok(
                        (
                            Block {
                                index: cursor as usize,
                                size: total as usize,
                                block_type: GifBlockType::Extension(ext_type),
                            },
                            term,
                        ),
                    )
                }
            },
            Err(e) => Err(e),
        }
    }
}

/// The outcome of parsing an image data block starting at `cursor`: one
/// byte of LZW minimum code size followed by a sub-block chain. On success
/// the returned cursor stands on the chain's terminator byte.
pub open spec fn spec_image_data(bytes: Seq<u8>, cursor: int) -> Result<
    (Block, int),
    (ParseErrorKind, int),
> {
    match spec_sub_blocks_len(bytes, cursor + 1) {
        Err(off) => Err((ParseErrorKind::UnexpectedEndOfData, off)),
        Ok(n) => {
            let term = cursor + 1 + n;
            if term >= bytes.len() {
                Err((ParseErrorKind::UnexpectedEndOfData, term))
            } else if bytes[term] != 0 {
                Err((ParseErrorKind::InvalidImageDataTerminator, term))
            } else {
                Ok(
                    (
                        Block {
                            index: cursor as usize,
                            size: (1 + n) as usize,
                            block_type: GifBlockType::ImageData,
                        },
                        term,
                    ),
                )
            }
        },
    }
}

/// The outcome of parsing an image at `cursor` (whose descriptor marker
/// `0x2C` stands there): the 10-byte descriptor, a local color table if the
/// descriptor's packed byte has its high bit set, and the image data block.
pub open spec fn spec_image(bytes: Seq<u8>, cursor: int) -> Result<
    (Seq<Block>, int),
    (ParseErrorKind, int),
> {
    if cursor + 9 >= bytes.len() {
        Err((ParseErrorKind::UnexpectedEndOfData, cursor + 9))
    } else {
        let packed = bytes[cursor + 9];
        let desc = Block {
            index: cursor as usize,
            size: 10,
            block_type: GifBlockType::ImageDescriptor,
        };
        if packed & 0x80 != 0 {
            let table_len = spec_color_table_len(packed);
            let table = Block {
                index: (cursor + 10) as usize,
                size: table_len as usize,
                block_type: GifBlockType::ColorTable,
            };
            match spec_image_data(bytes, cursor + 10 + table_len) {
                Ok((data, next)) => Ok((seq![desc, table, data], next)),
                Err(e) => Err(e),
            }
        } else {
            match spec_image_data(bytes, cursor + 10) {
                Ok((data, next)) => Ok((seq![desc, data], next)),
                Err(e) => Err(e),
            }
        }
    }
}

/// The body loop of the grammar, started just past the logical screen
/// descriptor and any global color table: extension and image blocks in any
/// order, stray `0x00` padding bytes skipped without emitting a block, and
/// the `0x3B` trailer ending the stream.
pub open spec fn spec_body(bytes: Seq<u8>, cursor: int) -> Result<
    Seq<Block>,
    (ParseErrorKind, int),
>
    decreases bytes.len() - cursor,
{
    if cursor < 0 || cursor >= bytes.len() {
        Err((ParseErrorKind::UnexpectedEndOfData, cursor))
    } else if bytes[cursor] == 0x21 {
        match spec_extension(bytes, cursor) {
            Ok((block, next)) => match spec_body(bytes, next) {
                Ok(rest) => Ok(seq![block] + rest),
                Err(e) => Err(e),
            },
            Err(e) => Err(e),
        }
    } else if bytes[cursor] == 0x2C {
        match spec_image(bytes, cursor) {
            Ok((blocks, next)) => match spec_body(bytes, next) {
                Ok(rest) => Ok(blocks + rest),
                Err(e) => Err(e),
            },
            Err(e) => Err(e),
        }
    } else if bytes[cursor] == 0x3B {
        Ok(seq![Block { index: cursor as usize, size: 1, block_type: GifBlockType::Trailer }])
    } else if bytes[cursor] == 0x00 {
        spec_body(bytes, cursor + 1)
    } else {
        Err((ParseErrorKind::InvalidBlockMarker, cursor))
    }
}

/// The view begins with the 4-byte magic signature `GIF8`.
pub open spec fn spec_header_ok(bytes: Seq<u8>) -> bool {
    bytes.len() >= 4 && bytes[0] == 0x47 && bytes[1] == 0x49 && bytes[2] == 0x46 && bytes[3] == 0x38
}

/// The whole grammar: the 6-byte header, the 7-byte logical screen
/// descriptor, a global color table if the packed byte at offset 4 has its
/// high bit set, then the body loop up to the trailer.
pub open spec fn spec_parse(bytes: Seq<u8>) -> Result<Seq<Block>, (ParseErrorKind, int)> {
    if !spec_header_ok(bytes) {
        Err((ParseErrorKind::HeaderInvalid, 0))
    } else if bytes.len() <= 4 {
        Err((ParseErrorKind::UnexpectedEndOfData, 4))
    } else {
        let header = Block { index: 0, size: 6, block_type: GifBlockType::Header };
        let lsd = Block { index: 6, size: 7, block_type: GifBlockType::LogicalScreenDescriptor };
        let packed = bytes[4];
        if packed & 0x80 != 0 {
            let table_len = spec_color_table_len(packed);
            let table = Block {
                index: 13,
                size: table_len as usize,
                block_type: GifBlockType::ColorTable,
            };
            match spec_body(bytes, 13 + table_len as int) {
                Ok(rest) => Ok(seq![header, lsd, table] + rest),
                Err(e) => Err(e),
            }
        } else {
            match spec_body(bytes, 13) {
                Ok(rest) => Ok(seq![header, lsd] + rest),
                Err(e) => Err(e),
            }
        }
    }
}

/// The block list `blocks` tiles the view from `cursor` up to and
/// including the trailer: blocks come in increasing offset order, each at
/// least one byte and contained in the view, consecutive blocks leave no
/// gap between them except skipped `0x00` padding bytes, and the last
/// block is the one-byte `0x3B` trailer.
pub open spec fn spec_blocks_tile(bytes: Seq<u8>, cursor: int, blocks: Seq<Block>) -> bool
    decreases blocks.len(),
{
    if blocks.len() == 0 {
        false
    } else {
        let b = blocks[0];
        &&& cursor <= b.index
        &&& forall|j: int| cursor <= j < b.index ==> bytes[j] == 0
        &&& b.size >= 1
        &&& b.index + b.size <= bytes.len()
        &&& if blocks.len() == 1 {
            b.size == 1 && b.block_type is Trailer && bytes[b.index as int] == 0x3B
        } else {
            spec_blocks_tile(bytes, b.index + b.size, blocks.drop_first())
        }
    }
}

/// Tiling over a padding byte: a block list that tiles from past a `0x00`
/// byte also tiles from the byte itself.
proof fn lemma_tile_pad(bytes: Seq<u8>, cursor: int, blocks: Seq<Block>)
    requires
        0 <= cursor < bytes.len(),
        bytes[cursor] == 0,
        spec_blocks_tile(bytes, cursor + 1, blocks),
    ensures
        spec_blocks_tile(bytes, cursor, blocks),
{
    let b = blocks[0];
    assert forall|j: int| cursor <= j < b.index implies bytes[j] == 0 by {
        if j != cursor {
            assert(cursor + 1 <= j < b.index);
        }
    }
}

/// Tiling behind one more block: a block standing exactly at `cursor` and
/// ending exactly where the rest of the tiling begins extends it.
proof fn lemma_tile_cons(bytes: Seq<u8>, cursor: int, b: Block, rest: Seq<Block>)
    requires
        b.index == cursor,
        b.size >= 1,
        b.index + b.size <= bytes.len(),
        spec_blocks_tile(bytes, b.index + b.size, rest),
    ensures
        spec_blocks_tile(bytes, cursor, seq![b] + rest),
{
    let all = seq![b] + rest;
    assert(all[0] == b);
    assert(all.len() >= 2);
    assert(all.drop_first() =~= rest);
}

/// Coverage of the body loop: whenever it succeeds, the blocks it produces
/// tile the view from `cursor` up to and including the trailer.
pub proof fn lemma_body_coverage(bytes: Seq<u8>, cursor: int)
    requires
        0 <= cursor,
        bytes.len() <= usize::MAX,
        spec_body(bytes, cursor) is Ok,
    ensures
        spec_blocks_tile(bytes, cursor, spec_body(bytes, cursor)->Ok_0),
    decreases bytes.len() - cursor,
{
    let blocks = spec_body(bytes, cursor)->Ok_0;
    if bytes[cursor] == 0x21 {
        let (block, next) = spec_extension(bytes, cursor)->Ok_0;
        let rest = spec_body(bytes, next)->Ok_0;
        assert(block.index == cursor && block.size >= 1 && block.index + block.size == next
            && next < bytes.len());
        lemma_body_coverage(bytes, next);
        lemma_tile_cons(bytes, cursor, block, rest);
    } else if bytes[cursor] == 0x2C {
        let (front, next) = spec_image(bytes, cursor)->Ok_0;
        let rest = spec_body(bytes, next)->Ok_0;
        let packed = bytes[cursor + 9];
        lemma_color_table_len_range(packed);
        lemma_body_coverage(bytes, next);
        let desc = front[0];
        let data = front.last();
        assert(data.index + data.size == next && next < bytes.len());
        if packed & 0x80 != 0 {
            let table = front[1];
            lemma_tile_cons(bytes, table.index + table.size, data, rest);
            lemma_tile_cons(bytes, desc.index + desc.size, table, seq![data] + rest);
            lemma_tile_cons(bytes, cursor, desc, seq![table] + (seq![data] + rest));
            assert(seq![desc] + (seq![table] + (seq![data] + rest)) =~= front + rest);
        } else {
            lemma_tile_cons(bytes, desc.index + desc.size, data, rest);
            lemma_tile_cons(bytes, cursor, desc, seq![data] + rest);
            assert(seq![desc] + (seq![data] + rest) =~= front + rest);
        }
    } else if bytes[cursor] == 0x3B {
        assert(blocks[0].index == cursor);
    } else {
        // a padding byte: the same blocks, with one more zero in front
        lemma_body_coverage(bytes, cursor + 1);
        lemma_tile_pad(bytes, cursor, blocks);
    }
}

/// What a tiling guarantees of every block in it: increasing order, sizes
/// of at least one byte, containment in the view, and the trailer at the
/// end.
#[verifier::rlimit(100)]
pub proof fn lemma_tile_bounds(bytes: Seq<u8>, cursor: int, blocks: Seq<Block>)
    requires
        spec_blocks_tile(bytes, cursor, blocks),
    ensures
        blocks.len() >= 1,
        forall|i: int|
            0 <= i < blocks.len() ==> cursor <= (#[trigger] blocks[i]).index && blocks[i].size >= 1
                && blocks[i].index + blocks[i].size <= bytes.len(),
        forall|i: int|
            0 <= i < blocks.len() - 1 ==> (#[trigger] blocks[i]).index + blocks[i].size
                <= blocks[i + 1].index,
        blocks.last().size == 1,
        blocks.last().block_type is Trailer,
        bytes[blocks.last().index as int] == 0x3B,
    decreases blocks.len(),
{
    let b = blocks[0];
    if blocks.len() > 1 {
        let rest = blocks.drop_first();
        lemma_tile_bounds(bytes, b.index + b.size, rest);
        assert(blocks.last() == rest.last());
        assert forall|i: int| 0 <= i < blocks.len() implies cursor <= (
        #[trigger] blocks[i]).index && blocks[i].size >= 1 && blocks[i].index + blocks[i].size
            <= bytes.len() by {
            if i > 0 {
                assert(blocks[i] == rest[i - 1]);
            }
        }
        assert forall|i: int| 0 <= i < blocks.len() - 1 implies (#[trigger] blocks[i]).index
            + blocks[i].size <= blocks[i + 1].index by {
            if i > 0 {
                assert(blocks[i] == rest[i - 1] && blocks[i + 1] == rest[i]);
            } else {
                assert(blocks[1] == rest[0]);
            }
        }
    }
}

/// Coverage of a whole successful parse: the first block is the 6-byte
/// header at offset 0, the second the 7-byte logical screen descriptor,
/// and the blocks tile the view from offset 0 up to and including the
/// trailer, with nothing between blocks but skipped `0x00` padding bytes.
pub proof fn lemma_parse_coverage(bytes: Seq<u8>)
    requires
        bytes.len() <= usize::MAX,
        spec_parse(bytes) is Ok,
    ensures
        ({
            let blocks = spec_parse(bytes)->Ok_0;
            &&& blocks.len() >= 3
            &&& blocks[0] == (Block { index: 0, size: 6, block_type: GifBlockType::Header })
            &&& blocks[1] == (Block {
                index: 6,
                size: 7,
                block_type: GifBlockType::LogicalScreenDescriptor,
            })
            &&& spec_blocks_tile(bytes, 0, blocks)
            &&& bytes[4] & 0x80 != 0 ==> blocks[2] == (Block {
                index: 13,
                size: spec_color_table_len(bytes[4]) as usize,
                block_type: GifBlockType::ColorTable,
            })
        }),
{
    let blocks = spec_parse(bytes)->Ok_0;
    let packed = bytes[4];
    let header = Block { index: 0, size: 6, block_type: GifBlockType::Header };
    let lsd = Block { index: 6, size: 7, block_type: GifBlockType::LogicalScreenDescriptor };
    if packed & 0x80 != 0 {
        let table_len = spec_color_table_len(packed);
        lemma_color_table_len_range(packed);
        let table = Block {
            index: 13,
            size: table_len as usize,
            block_type: GifBlockType::ColorTable,
        };
        let body_start = 13 + table_len as int;
        let rest = spec_body(bytes, body_start)->Ok_0;
        lemma_body_coverage(bytes, body_start);
        // a successful body loop starts inside the view
        assert(body_start < bytes.len());
        lemma_tile_cons(bytes, 13, table, rest);
        lemma_tile_cons(bytes, 6, lsd, seq![table] + rest);
        lemma_tile_cons(bytes, 0, header, seq![lsd] + (seq![table] + rest));
        assert(seq![header] + (seq![lsd] + (seq![table] + rest)) =~= seq![header, lsd, table]
            + rest);
    } else {
        let rest = spec_body(bytes, 13)->Ok_0;
        lemma_body_coverage(bytes, 13);
        assert(13 < bytes.len());
        lemma_tile_cons(bytes, 6, lsd, rest);
        lemma_tile_cons(bytes, 0, header, seq![lsd] + rest);
        assert(seq![header] + (seq![lsd] + rest) =~= seq![header, lsd] + rest);
    }
}

/// An undefined extension label fails the parse with
/// `InvalidExtensionType` at the label's own offset, so no block list (and
/// in particular no trailer block) is ever produced from such a stream.
pub proof fn lemma_invalid_extension_label(bytes: Seq<u8>, cursor: int)
    requires
        0 <= cursor < bytes.len(),
        cursor + 1 < bytes.len(),
        bytes[cursor] == 0x21,
        bytes[cursor + 1] != 0xF9,
        bytes[cursor + 1] != 0xFE,
        bytes[cursor + 1] != 0x01,
        bytes[cursor + 1] != 0xFF,
    ensures
        spec_body(bytes, cursor) == Err::<Seq<Block>, (ParseErrorKind, int)>(
            (ParseErrorKind::InvalidExtensionType, cursor + 1),
        ),
{
}

/// Padding tolerance: a stray `0x00` byte under the cursor is skipped
/// without emitting a block, leaving the result of the body loop exactly
/// unchanged.
pub proof fn lemma_padding_skip(bytes: Seq<u8>, cursor: int)
    requires
        0 <= cursor < bytes.len(),
        bytes[cursor] == 0,
    ensures
        spec_body(bytes, cursor) == spec_body(bytes, cursor + 1),
{
}

/// Appending one element and then a tail is the same as appending the
/// singleton-plus-tail in one go.
proof fn lemma_push_concat<A>(s: Seq<A>, x: A, rest: Seq<A>)
    ensures
        s.push(x) + rest == s + (seq![x] + rest),
{
    assert(s.push(x) + rest =~= s + (seq![x] + rest));
}

/// The parser: a cursor into the byte view plus the block descriptors
/// accumulated so far. A parser is created fresh per parse invocation.
#[derive(Debug)]
pub struct GifParser {
    pub cur_index: usize,
    pub blocks: Vec<Block>,
}

impl GifParser {
    pub fn new() -> (p: Self)
        ensures
            p.cur_index == 0,
            p.blocks@ == Seq::<Block>::empty(),
    {
        GifParser { cur_index: 0, blocks: Vec::new() }
    }

    /// Walks a chain of length-prefixed sub-blocks starting at `index` and
    /// returns its length, excluding the terminating zero byte; fails with
    /// `UnexpectedEndOfData` instead of reading past the end of the view.
    ///
    /// The result is meaningful only if `index` really is the start of such
    /// a chain; callers must guarantee correct positioning.
    pub fn length_of_sub_blocks(&self, bytes: &[u8], index: usize) -> (r: Result<
        usize,
        GifParseError,
    >)
        requires
            bytes@.len() + 256 <= usize::MAX,
        ensures
            match spec_sub_blocks_len(bytes@, index as int) {
                Ok(n) => r matches Ok(len) && len == n,
                Err(off) => r matches Err(e) && e.kind == ParseErrorKind::UnexpectedEndOfData
                    && e.offset == off,
            },
    {
        let mut num_bytes: usize = 0;
        loop
            invariant
                bytes@.len() + 256 <= usize::MAX,
                num_bytes == 0 || index + num_bytes < bytes@.len(),
                match spec_sub_blocks_len(bytes@, index as int + num_bytes as int) {
                    Ok(n) => spec_sub_blocks_len(bytes@, index as int) == Ok::<nat, int>(
                        (num_bytes + n) as nat,
                    ),
                    Err(off) => spec_sub_blocks_len(bytes@, index as int) == Err::<nat, int>(off),
                },
            decreases bytes@.len() - num_bytes,
        {
            let pos = index + num_bytes;
            if pos >= bytes.len() {
                return Err(GifParseError::new(ParseErrorKind::UnexpectedEndOfData, pos));
            }
            let block_len = bytes[pos];
            if block_len == 0 {
                return Ok(num_bytes);
            }
            let remaining = bytes.len() - 1 - pos;
            if block_len as usize >= remaining {
                let off = pos + 1 + block_len as usize;
                proof {
                    assert(spec_sub_blocks_len(bytes@, off as int) == Err::<nat, int>(off as int));
                }
                return Err(GifParseError::new(ParseErrorKind::UnexpectedEndOfData, off));
            }
            num_bytes = num_bytes + 1 + block_len as usize;
        }
    }

    /// Parses the GIF header: the view must begin with the magic signature
    /// `GIF8`; the two version bytes that complete the 6-byte header are
    /// not validated.
    pub fn parse_header(&mut self, bytes: &[u8]) -> (r: Result<(), GifParseError>)
        requires
            old(self).cur_index == 0,
        ensures
            if spec_header_ok(bytes@) {
                r is Ok && final(self).cur_index == 6 && final(self).blocks@ == old(self).blocks@.push(
                    (Block { index: 0, size: 6, block_type: GifBlockType::Header }),
                )
            } else {
                r matches Err(e) && e.kind == ParseErrorKind::HeaderInvalid && e.offset == 0
                    && *final(self) == *old(self)
            },
    {
        if bytes.len() < 4 || bytes[0] != 0x47 || bytes[1] != 0x49 || bytes[2] != 0x46 || bytes[3]
            != 0x38 {
            // not "GIF8"
            return Err(GifParseError::new(ParseErrorKind::HeaderInvalid, 0));
        }
        self.blocks.push(Block { index: self.cur_index, size: 6, block_type: GifBlockType::Header });
        self.cur_index = self.cur_index + 6;
        Ok(())
    }

    /// Takes the fixed 7-byte logical screen descriptor as one block; the
    /// fields inside are not individually validated.
    pub fn parse_logical_screen_descriptor(&mut self) -> (r: Result<(), GifParseError>)
        requires
            old(self).cur_index + 7 <= usize::MAX,
        ensures
            r is Ok,
            final(self).cur_index == old(self).cur_index + 7,
            final(self).blocks@ == old(self).blocks@.push(
                (Block {
                    index: old(self).cur_index,
                    size: 7,
                    block_type: GifBlockType::LogicalScreenDescriptor,
                }),
            ),
    {
        self.blocks.push(
            Block {
                index: self.cur_index,
                size: 7,
                block_type: GifBlockType::LogicalScreenDescriptor,
            },
        );
        self.cur_index = self.cur_index + 7;
        Ok(())
    }

    /// Takes `length` bytes as one color table block; color tables are
    /// variable length, sized by the preceding block's packed byte, so the
    /// caller passes the length in. The contents are not validated.
    pub fn parse_color_table(&mut self, length: usize) -> (r: Result<(), GifParseError>)
        requires
            old(self).cur_index + length <= usize::MAX,
        ensures
            r is Ok,
            final(self).cur_index == old(self).cur_index + length,
            final(self).blocks@ == old(self).blocks@.push(
                (Block {
                    index: old(self).cur_index,
                    size: length,
                    block_type: GifBlockType::ColorTable,
                }),
            ),
    {
        self.blocks.push(
            Block { index: self.cur_index, size: length, block_type: GifBlockType::ColorTable },
        );
        self.cur_index = self.cur_index + length;
        Ok(())
    }

    /// Parses the fixed 10-byte image descriptor, which must begin with the
    /// `0x2C` marker.
    pub fn parse_image_descriptor(&mut self, bytes: &[u8]) -> (r: Result<(), GifParseError>)
        requires
            old(self).cur_index + 10 <= usize::MAX,
        ensures
            ({
                let c = old(self).cur_index;
                if c < bytes@.len() && bytes@[c as int] == 0x2C {
                    r is Ok && final(self).cur_index == c + 10 && final(self).blocks@ == old(self).blocks@.push(
                        (Block { index: c, size: 10, block_type: GifBlockType::ImageDescriptor }),
                    )
                } else if c >= bytes@.len() {
                    r matches Err(e) && e.kind == ParseErrorKind::UnexpectedEndOfData && e.offset
                        == c && *final(self) == *old(self)
                } else {
                    r matches Err(e) && e.kind == ParseErrorKind::InvalidImageDescriptorMarker
                        && e.offset == c && *final(self) == *old(self)
                }
            }),
    {
        let idx = self.cur_index;
        if idx >= bytes.len() {
            return Err(GifParseError::new(ParseErrorKind::UnexpectedEndOfData, idx));
        }
        if bytes[idx] != 0x2C {
            return Err(GifParseError::new(ParseErrorKind::InvalidImageDescriptorMarker, idx));
        }
        self.blocks.push(
            Block { index: idx, size: 10, block_type: GifBlockType::ImageDescriptor },
        );
        self.cur_index = idx + 10;
        Ok(())
    }

    /// Parses an image data block: one LZW minimum code size byte followed
    /// by a sub-block chain, whose terminating zero byte must follow the
    /// chain and is not counted in the block.
    pub fn parse_image_data(&mut self, bytes: &[u8]) -> (r: Result<(), GifParseError>)
        requires
            bytes@.len() + 2048 <= usize::MAX,
            old(self).cur_index <= bytes@.len() + 1024,
        ensures
            ({
                let c = old(self).cur_index as int;
                match spec_image_data(bytes@, c) {
                    Ok((block, next)) => r is Ok && final(self).cur_index == next && final(self).blocks@ == old(self).blocks@.push(block),
                    Err((kind, off)) => r matches Err(e) && e.kind == kind && e.offset == off,
                }
            }),
    {
        let idx = self.cur_index;
        let data_len = match self.length_of_sub_blocks(bytes, idx + 1) {
            Ok(n) => n,
            Err(e) => {
                return Err(e);
            },
        };
        proof {
            lemma_sub_blocks_ok(bytes@, idx as int + 1);
        }
        self.blocks.push(
            Block { index: idx, size: 1 + data_len, block_type: GifBlockType::ImageData },
        );
        let new_cur = idx + 1 + data_len;
        self.cur_index = new_cur;
        if new_cur >= bytes.len() {
            return Err(GifParseError::new(ParseErrorKind::UnexpectedEndOfData, new_cur));
        }
        if bytes[new_cur] != 0x00 {
            return Err(GifParseError::new(ParseErrorKind::InvalidImageDataTerminator, new_cur));
        }
        Ok(())
    }

    /// Parses one extension block. The byte after the `0x21` introducer is
    /// the label selecting one of four shapes; after the block, the byte at
    /// the new cursor must be the zero terminator, which is left for the
    /// body loop to skip.
    pub fn parse_extension(&mut self, bytes: &[u8]) -> (r: Result<(), GifParseError>)
        requires
            bytes@.len() + 2048 <= usize::MAX,
            old(self).cur_index < bytes@.len(),
            bytes@[old(self).cur_index as int] == 0x21,
        ensures
            ({
                let c = old(self).cur_index as int;
                match spec_extension(bytes@, c) {
                    Ok((block, next)) => r is Ok && final(self).cur_index == next && final(self).blocks@ == old(self).blocks@.push(block),
                    Err((kind, off)) => r matches Err(e) && e.kind == kind && e.offset == off,
                }
            }),
    {
        let idx = self.cur_index;
        if idx + 1 >= bytes.len() {
            return Err(GifParseError::new(ParseErrorKind::UnexpectedEndOfData, idx + 1));
        }
        let label = bytes[idx + 1];
        let (total_size, ext_type): (usize, ExtensionType) = if label == 0xF9 {
            // graphic control: introducer, label and size byte plus the
            // fixed 4 data bytes
            (7, ExtensionType::GraphicControl)
        } else if label == 0xFE {
            // comment: introducer and label, then only sub-blocks
            match self.length_of_sub_blocks(bytes, idx + 2) {
                Ok(n) => {
                    proof {
                        lemma_sub_blocks_ok(bytes@, idx as int + 2);
                    }
                    (2 + n, ExtensionType::Comment)
                },
                Err(e) => {
                    return Err(e);
                },
            }
        } else if label == 0x01 {
            // plain text: introducer, label, size byte, 12 metadata bytes,
            // then sub-blocks
            match self.length_of_sub_blocks(bytes, idx + 15) {
                Ok(n) => {
                    proof {
                        lemma_sub_blocks_ok(bytes@, idx as int + 15);
                    }
                    (15 + n, ExtensionType::PlainText)
                },
                Err(e) => {
                    return Err(e);
                },
            }
        } else if label == 0xFF {
            // application: introducer, label, size byte, 11 metadata bytes
            // (8-byte identifier and 3-byte auth code), then sub-blocks
            match self.length_of_sub_blocks(bytes, idx + 14) {
                Ok(n) => {
                    proof {
                        lemma_sub_blocks_ok(bytes@, idx as int + 14);
                    }
                    (14 + n, ExtensionType::Application)
                },
                Err(e) => {
                    return Err(e);
                },
            }
        } else {
            return Err(GifParseError::new(ParseErrorKind::InvalidExtensionType, idx + 1));
        };
        self.blocks.push(
            Block {
                index: idx,
                size: total_size,
                block_type: GifBlockType::Extension(ext_type),
            },
        );
        let new_cur = idx + total_size;
        self.cur_index = new_cur;
        if new_cur >= bytes.len() {
            return Err(GifParseError::new(ParseErrorKind::UnexpectedEndOfData, new_cur));
        }
        if bytes[new_cur] != 0x00 {
            return Err(GifParseError::new(ParseErrorKind::InvalidExtensionTerminator, new_cur));
        }
        Ok(())
    }

    /// Parses the single trailer byte, which must equal `0x3B`.
    pub fn parse_trailer(&mut self, bytes: &[u8]) -> (r: Result<(), GifParseError>)
        requires
            old(self).cur_index + 1 <= usize::MAX,
        ensures
            ({
                let c = old(self).cur_index;
                if c < bytes@.len() && bytes@[c as int] == 0x3B {
                    r is Ok && final(self).cur_index == c + 1 && final(self).blocks@ == old(self).blocks@.push(
                        (Block { index: c, size: 1, block_type: GifBlockType::Trailer }),
                    )
                } else if c >= bytes@.len() {
                    r matches Err(e) && e.kind == ParseErrorKind::UnexpectedEndOfData && e.offset
                        == c && *final(self) == *old(self)
                } else {
                    r matches Err(e) && e.kind == ParseErrorKind::InvalidTrailerByte && e.offset
                        == c && *final(self) == *old(self)
                }
            }),
    {
        let idx = self.cur_index;
        if idx >= bytes.len() {
            return Err(GifParseError::new(ParseErrorKind::UnexpectedEndOfData, idx));
        }
        if bytes[idx] != 0x3B {
            return Err(GifParseError::new(ParseErrorKind::InvalidTrailerByte, idx));
        }
        self.blocks.push(Block { index: idx, size: 1, block_type: GifBlockType::Trailer });
        self.cur_index = idx + 1;
        Ok(())
    }

    /// Parses a complete GIF stream from the start of `bytes` and returns
    /// the ordered block list, exactly as the grammar `spec_parse`
    /// describes; the view may extend arbitrarily far past the end of the
    /// stream. On failure the structural error carries the offset at which
    /// it was detected.
    #[verifier::rlimit(100)]
    pub fn parse_gif_from_bytes(&mut self, bytes: &[u8]) -> (r: Result<Vec<Block>, GifParseError>)
        requires
            bytes@.len() + 2048 <= usize::MAX,
        ensures
            match spec_parse(bytes@) {
                Ok(bs) => r matches Ok(v) && v@ == bs && final(self).blocks@ == bs,
                Err((kind, off)) => r matches Err(e) && e.kind == kind && e.offset == off,
            },
    {
        self.blocks = Vec::new();
        self.cur_index = 0;

        // header and logical screen descriptor are always present
        match self.parse_header(bytes) {
            Ok(_) => {},
            Err(e) => {
                return Err(e);
            },
        }
        match self.parse_logical_screen_descriptor() {
            Ok(_) => {},
            Err(e) => {
                return Err(e);
            },
        }

        // check for a global color table: the packed byte's high bit is its
        // presence flag, its low three bits size the table
        if bytes.len() <= 4 {
            return Err(GifParseError::new(ParseErrorKind::UnexpectedEndOfData, 4));
        }
        let logical_packed_byte = bytes[4];
        if logical_packed_byte & 0x80 != 0 {
            let table_len = color_table_bytes(logical_packed_byte);
            match self.parse_color_table(table_len) {
                Ok(_) => {},
                Err(e) => {
                    return Err(e);
                },
            }
        }

        proof {
            let header = Block { index: 0, size: 6, block_type: GifBlockType::Header };
            let lsd = Block {
                index: 6,
                size: 7,
                block_type: GifBlockType::LogicalScreenDescriptor,
            };
            if bytes@[4] & 0x80 != 0 {
                let table = Block {
                    index: 13,
                    size: spec_color_table_len(bytes@[4]) as usize,
                    block_type: GifBlockType::ColorTable,
                };
                assert(self.blocks@ =~= seq![header, lsd, table]);
            } else {
                assert(self.blocks@ =~= seq![header, lsd]);
            }
        }

        // walk the body: extension blocks, image blocks, stray zero
        // padding, and finally the trailer
        loop
            invariant
                bytes@.len() + 2048 <= usize::MAX,
                self.cur_index <= bytes@.len() + 1024,
                match spec_body(bytes@, self.cur_index as int) {
                    Ok(rest) => spec_parse(bytes@) == Ok::<Seq<Block>, (ParseErrorKind, int)>(
                        self.blocks@ + rest,
                    ),
                    Err(e) => spec_parse(bytes@) == Err::<Seq<Block>, (ParseErrorKind, int)>(e),
                },
            decreases bytes@.len() + 1024 - self.cur_index,
        {
            let idx = self.cur_index;
            if idx >= bytes.len() {
                return Err(GifParseError::new(ParseErrorKind::UnexpectedEndOfData, idx));
            }
            let marker = bytes[idx];
            if marker == 0x21 {
                let ghost prev_blocks = self.blocks@;
                match self.parse_extension(bytes) {
                    Ok(_) => {},
                    Err(e) => {
                        return Err(e);
                    },
                }
                proof {
                    let (block, next) = spec_extension(bytes@, idx as int)->Ok_0;
                    if spec_body(bytes@, next) is Ok {
                        let rest = spec_body(bytes@, next)->Ok_0;
                        lemma_push_concat(prev_blocks, block, rest);
                    }
                }
            } else if marker == 0x2C {
                let ghost prev_blocks = self.blocks@;
                // parse the descriptor, then a local color table if the
                // descriptor's packed byte asks for one, then the image data
                match self.parse_image_descriptor(bytes) {
                    Ok(_) => {},
                    Err(e) => {
                        return Err(e);
                    },
                }
                if idx + 9 >= bytes.len() {
                    return Err(GifParseError::new(ParseErrorKind::UnexpectedEndOfData, idx + 9));
                }
                let image_descriptor_packed_byte = bytes[idx + 9];
                if image_descriptor_packed_byte & 0x80 != 0 {
                    let table_len = color_table_bytes(image_descriptor_packed_byte);
                    match self.parse_color_table(table_len) {
                        Ok(_) => {},
                        Err(e) => {
                            return Err(e);
                        },
                    }
                }
                match self.parse_image_data(bytes) {
                    Ok(_) => {},
                    Err(e) => {
                        return Err(e);
                    },
                }
                proof {
                    let (img_blocks, next) = spec_image(bytes@, idx as int)->Ok_0;
                    assert(self.blocks@ =~= prev_blocks + img_blocks);
                    if spec_body(bytes@, next) is Ok {
                        let rest = spec_body(bytes@, next)->Ok_0;
                        assert(prev_blocks + img_blocks + rest =~= prev_blocks + (img_blocks
                            + rest));
                    }
                }
            } else if marker == 0x3B {
                match self.parse_trailer(bytes) {
                    Ok(_) => {},
                    Err(e) => {
                        return Err(e);
                    },
                }
                proof {
                    let trailer = Block {
                        index: idx,
                        size: 1,
                        block_type: GifBlockType::Trailer,
                    };
                    assert(self.blocks@ =~= (self.blocks@.drop_last()) + seq![trailer]);
                }
                return Ok(clone_blocks(&self.blocks));
            } else if marker == 0x00 {
                // tolerate stray zero padding between blocks
                self.cur_index = idx + 1;
            } else {
                return Err(GifParseError::new(ParseErrorKind::InvalidBlockMarker, idx));
            }
        }
    }
}

/// Copies a block list element by element.
fn clone_blocks(blocks: &Vec<Block>) -> (r: Vec<Block>)
    ensures
        r@ == blocks@,
{
    let mut r: Vec<Block> = Vec::new();
    let mut i: usize = 0;
    while i < blocks.len()
        invariant
            i <= blocks@.len(),
            r@ == blocks@.subrange(0, i as int),
        decreases blocks@.len() - i,
    {
        r.push(blocks[i]);
        i = i + 1;
        proof {
            assert(r@ =~= blocks@.subrange(0, i as int));
        }
    }
    proof {
        assert(r@ =~= blocks@);
    }
    r
}

} // verus!
