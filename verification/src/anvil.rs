//! The boundary to `fastanvil`, which reads the region container and decodes
//! chunk payloads.
//!
//! Everything that is taken on trust about `fastanvil` is declared in this file:
//! its types, a name for what each decoding step yields, and one wrapper per
//! function called. The layout of a region's location table is spelled out
//! here, because the contracts below depend on it; what makes a chunk payload
//! sound is spelled out where soundness is tested.

use crate::nbt::walks;
use crate::sound::{column_has_biome, is_sound};
use vstd::prelude::*;

verus! {

/// `fastanvil::Region`, a region container over a stream, taken as opaque.
#[verifier::external_type_specification]
#[verifier::external_body]
#[verifier::reject_recursive_types(S)]
pub struct ExRegion<S>(fastanvil::Region<S>);

/// `std::io::Cursor`, the stream that a region reads a byte slice through,
/// taken as opaque.
#[verifier::external_type_specification]
#[verifier::external_body]
#[verifier::reject_recursive_types(T)]
pub struct ExCursor<T>(std::io::Cursor<T>);

/// `fastanvil::JavaChunk`, a parsed chunk in one of three formats, taken as
/// opaque.
#[verifier::external_type_specification]
#[verifier::external_body]
pub struct ExParsedChunk(fastanvil::JavaChunk);

/// `fastanvil::complete::Chunk`, a decoded chunk, taken as opaque.
#[verifier::external_type_specification]
#[verifier::external_body]
pub struct ExDecodedChunk(fastanvil::complete::Chunk);

/// `fastanvil::Error`, the error of the region container, taken as opaque.
#[verifier::external_type_specification]
#[verifier::external_body]
pub struct ExRegionError(fastanvil::Error);

/// `fastnbt::error::Error`, the error of the chunk decoder, taken as opaque.
#[verifier::external_type_specification]
#[verifier::external_body]
pub struct ExPayloadError(fastnbt::error::Error);

/// Bytes taken up by a region's location table: one entry of four bytes for
/// each of its 32 x 32 slots.
pub const LOCATION_TABLE_BYTES: usize = 4096;

/// The bytes that a region was opened on.
pub uninterp spec fn region_data(region: fastanvil::Region<std::io::Cursor<&[u8]>>) -> Seq<u8>;

/// The decompressed payload that `Region::read_chunk` yields for the allocated
/// slot `(x, z)` of a region stored in `data`, or `None` where it reports an
/// error instead.
pub uninterp spec fn slot_payload(data: Seq<u8>, x: int, z: int) -> Option<Seq<u8>>;

/// The three formats in which a chunk is parsed.
#[derive(Clone, Copy, Debug, PartialEq, Eq, Structural)]
pub enum Format {
    /// The format of game version 1.18 and later.
    Current,
    /// The format of game versions 1.13 to 1.17: a palette of block names in
    /// each section.
    Paletted,
    /// The format before game version 1.13: a number for each block.
    Numbered,
}

/// What one section of a parsed chunk in the current format says of itself.
#[derive(Clone, Copy, Debug, PartialEq, Eq, Structural)]
pub struct SectionOutline {
    /// The section's height, counted in sections.
    pub y: i8,
    /// Number of block names in the section's palette.
    pub blocks: usize,
    /// Number of biomes in the section's palette.
    pub biomes: usize,
}

/// What one section of a parsed chunk in the paletted format says of itself.
#[derive(Clone, Copy, Debug, PartialEq, Eq, Structural)]
pub struct PalettedOutline {
    /// Whether the section carries block states.
    pub has_states: bool,
    /// Number of block names in the section's palette.
    pub palette: usize,
}

/// The payload that a parsed chunk was parsed from.
pub uninterp spec fn java_source(chunk: fastanvil::JavaChunk) -> Seq<u8>;

/// The payload that a decoded chunk was decoded from.
pub uninterp spec fn chunk_source(chunk: fastanvil::complete::Chunk) -> Seq<u8>;

/// Whether `JavaChunk::from_bytes` parses `payload`.
pub uninterp spec fn payload_parses(payload: Seq<u8>) -> bool;

/// The format in which `payload` parses.
pub uninterp spec fn payload_format(payload: Seq<u8>) -> Format;

/// The version of the game that saved the chunk that `payload` parses to, where
/// the chunk says so.
pub uninterp spec fn payload_version(payload: Seq<u8>) -> Option<i32>;

/// The length of the height map of the chunk that `payload` parses to, where it
/// carries one.
pub uninterp spec fn payload_heightmap(payload: Seq<u8>) -> Option<usize>;

/// The number of sections listed in the chunk that `payload` parses to, where
/// it lists any.
pub uninterp spec fn payload_sections(payload: Seq<u8>) -> Option<usize>;

/// The heights, in blocks, that the chunk that `payload` parses to spans: from
/// the first up to, but without, the second.
pub uninterp spec fn payload_heights(payload: Seq<u8>) -> (int, int);

/// The outline of section number `i`, in list order, of the chunk in the
/// current format that `payload` parses to, or `None` where it has no such
/// section.
pub uninterp spec fn payload_section(payload: Seq<u8>, i: int) -> Option<SectionOutline>;

/// The number of palette indices that the block data of section number `i`
/// yields, at most one for each of its 4096 cells, or `None` where the section
/// carries no block data.
pub uninterp spec fn payload_indices(payload: Seq<u8>, i: int) -> Option<int>;

/// The outline of section number `i`, in list order, of the chunk in the
/// paletted format that `payload` parses to, or `None` where it has no such
/// section.
pub uninterp spec fn payload_paletted(payload: Seq<u8>, i: int) -> Option<PalettedOutline>;

/// Whether `Chunk::biome` finds a biome at local `(x, y, z)` of the chunk that
/// `payload` parses to.
pub uninterp spec fn payload_biome(payload: Seq<u8>, x: int, y: int, z: int) -> bool;

/// The block names, by local `(x, y, z)`, that `Chunk::block` finds in the
/// chunk that `complete::Chunk::from_bytes` decodes `payload` to. A position
/// without a block is not a key.
pub uninterp spec fn payload_blocks(payload: Seq<u8>) -> Map<(int, int, int), Seq<char>>;

/// Position of the location entry of slot `(x, z)`.
pub open spec fn slot_entry(x: int, z: int) -> int {
    4 * (x + 32 * z)
}

/// The sector at which the data of slot `(x, z)` starts: the first three bytes of
/// its location entry, big-endian.
pub open spec fn slot_sector(data: Seq<u8>, x: int, z: int) -> int {
    let e = slot_entry(x, z);
    data[e] * 65536 + data[e + 1] * 256 + data[e + 2]
}

/// Whether slot `(x, z)` holds a chunk: its location entry is not all zero.
pub open spec fn slot_allocated(data: Seq<u8>, x: int, z: int) -> bool {
    slot_sector(data, x, z) != 0 || data[slot_entry(x, z) + 3] != 0
}

/// The length field in front of the data of slot `(x, z)`, big-endian, where the
/// region is long enough to hold the five bytes of the slot's header.
pub open spec fn slot_length(data: Seq<u8>, x: int, z: int) -> Option<int> {
    let start = slot_sector(data, x, z) * 4096;
    if start + 5 <= data.len() {
        Some(
            data[start] * 16777216 + data[start + 1] * 65536 + data[start + 2] * 256 + data[start
                + 3],
        )
    } else {
        None
    }
}

/// Whether slot `(x, z)` is allocated but declares a length of zero. The length
/// counts the byte that names the compression, so it is never zero in a sound
/// region.
pub open spec fn slot_is_hollow(data: Seq<u8>, x: int, z: int) -> bool {
    slot_allocated(data, x, z) && slot_length(data, x, z) == Some(0int)
}

/// Calls `fastanvil::Region::from_stream` on a cursor over `bytes`.
///
/// Claimed: opening reads the whole location table and nothing else, so it
/// succeeds exactly when `bytes` is long enough to hold the table; the region it
/// gives reads from `bytes`.
#[verifier::external_body]
pub(crate) fn open_region<'a>(bytes: &'a [u8]) -> (res: Result<
    fastanvil::Region<std::io::Cursor<&'a [u8]>>,
    fastanvil::Error,
>)
    ensures
        res is Ok <==> bytes@.len() >= LOCATION_TABLE_BYTES,
        res matches Ok(region) ==> region_data(region) == bytes@,
{
    fastanvil::Region::from_stream(std::io::Cursor::new(bytes))
}

/// Calls `fastanvil::Region::read_chunk`.
///
/// Claimed: the region still reads from the same bytes afterwards; the answer is
/// `Ok(None)` exactly for a slot whose location entry is all zero; for any other
/// slot it is the payload named by `slot_payload`, or an error where that is
/// `None`. Left out: a slot that declares a length of zero, on which
/// `read_chunk` subtracts one from that length.
#[verifier::external_body]
pub(crate) fn read_slot(
    region: &mut fastanvil::Region<std::io::Cursor<&[u8]>>,
    x: usize,
    z: usize,
) -> (res: Result<Option<Vec<u8>>, fastanvil::Error>)
    requires
        x < 32,
        z < 32,
        region_data(*old(region)).len() >= LOCATION_TABLE_BYTES,
        !slot_is_hollow(region_data(*old(region)), x as int, z as int),
    ensures
        region_data(*final(region)) == region_data(*old(region)),
        match res {
            Ok(None) => !slot_allocated(region_data(*old(region)), x as int, z as int),
            Ok(Some(payload)) => slot_allocated(region_data(*old(region)), x as int, z as int)
                && slot_payload(region_data(*old(region)), x as int, z as int) == Some(payload@),
            Err(_) => slot_allocated(region_data(*old(region)), x as int, z as int)
                && slot_payload(region_data(*old(region)), x as int, z as int) is None,
        },
{
    region.read_chunk(x, z)
}

/// Calls `fastanvil::JavaChunk::from_bytes`.
///
/// Claimed: whether parsing succeeds depends on the payload alone; the chunk it
/// gives was parsed from `payload`. Left out: a payload that the walk does not
/// get through. The parser skips a value that it has no use for by descending
/// into it, one call for each level of nesting, and does not expect a list
/// that claims to hold end tags.
#[verifier::external_body]
pub(crate) fn parse_chunk(payload: &[u8]) -> (res: Result<
    fastanvil::JavaChunk,
    fastnbt::error::Error,
>)
    requires
        walks(payload@),
    ensures
        res is Ok == payload_parses(payload@),
        res matches Ok(chunk) ==> java_source(chunk) == payload@,
{
    fastanvil::JavaChunk::from_bytes(payload)
}

/// Tells the three variants of `fastanvil::JavaChunk` apart.
///
/// Claimed: the format depends on the payload alone.
#[verifier::external_body]
pub(crate) fn format_of(chunk: &fastanvil::JavaChunk) -> (format: Format)
    ensures
        format == payload_format(java_source(*chunk)),
{
    match chunk {
        fastanvil::JavaChunk::Post18(_) => Format::Current,
        fastanvil::JavaChunk::Pre18(_) => Format::Paletted,
        fastanvil::JavaChunk::Pre13(_) => Format::Numbered,
    }
}

/// Reads the field `data_version` of a parsed chunk.
///
/// Claimed: what is read depends on the payload alone.
#[verifier::external_body]
pub(crate) fn version_of(chunk: &fastanvil::JavaChunk) -> (version: Option<i32>)
    ensures
        version == payload_version(java_source(*chunk)),
{
    match chunk {
        fastanvil::JavaChunk::Post18(c) => Some(c.data_version),
        fastanvil::JavaChunk::Pre18(c) => Some(c.data_version),
        fastanvil::JavaChunk::Pre13(c) => c.data_version,
    }
}

/// Reads the field `heightmaps` of a parsed chunk, and the length of the field
/// `motion_blocking` in it.
///
/// Claimed: what is read depends on the payload alone.
#[verifier::external_body]
pub(crate) fn heightmap_len(chunk: &fastanvil::JavaChunk) -> (len: Option<usize>)
    ensures
        len == payload_heightmap(java_source(*chunk)),
{
    let maps = match chunk {
        fastanvil::JavaChunk::Post18(c) => &c.heightmaps,
        fastanvil::JavaChunk::Pre18(c) => &c.level.heightmaps,
        fastanvil::JavaChunk::Pre13(c) => &c.level.heightmaps,
    };
    maps.as_ref().and_then(|h| h.motion_blocking.as_ref()).map(|m| m.len())
}

/// Reads the field `sections` of a parsed chunk, and calls
/// `SectionTower::sections` on it.
///
/// Claimed: the number of sections depends on the payload alone.
#[verifier::external_body]
pub(crate) fn section_count(chunk: &fastanvil::JavaChunk) -> (n: Option<usize>)
    ensures
        n == payload_sections(java_source(*chunk)),
{
    match chunk {
        fastanvil::JavaChunk::Post18(c) => c.sections.as_ref().map(|t| t.sections().len()),
        fastanvil::JavaChunk::Pre18(c) => c.level.sections.as_ref().map(|t| t.sections().len()),
        fastanvil::JavaChunk::Pre13(c) => c.level.sections.as_ref().map(|t| t.sections().len()),
    }
}

/// Calls `fastanvil::Chunk::y_range` on a parsed chunk.
///
/// Claimed: the range depends on the payload alone.
#[verifier::external_body]
pub(crate) fn height_range(chunk: &fastanvil::JavaChunk) -> (heights: (isize, isize))
    ensures
        (heights.0 as int, heights.1 as int) == payload_heights(java_source(*chunk)),
{
    let range = fastanvil::Chunk::y_range(chunk);
    (range.start, range.end)
}

/// Reads the field `y` of section number `i` of a parsed chunk in the current
/// format, and calls `BlockData::palette` and `BiomeData::palette` on it.
///
/// Claimed: what is read depends on the payload and `i` alone.
#[verifier::external_body]
pub(crate) fn section_outline(chunk: &fastanvil::JavaChunk, i: usize) -> (s: Option<SectionOutline>)
    ensures
        s == payload_section(java_source(*chunk), i as int),
{
    match chunk {
        fastanvil::JavaChunk::Post18(c) => c.sections.as_ref().and_then(
            |t| t.sections().get(i),
        ).map(
            |s|
                SectionOutline {
                    y: s.y,
                    blocks: s.block_states.palette().len(),
                    biomes: s.biomes.palette().len(),
                },
        ),
        fastanvil::JavaChunk::Pre18(_) => None,
        fastanvil::JavaChunk::Pre13(_) => None,
    }
}

/// Calls `BlockData::try_iter_indices` on section number `i` of a parsed chunk
/// in the current format, and counts what the iterator yields.
///
/// Claimed: the count depends on the payload and `i` alone. Left out: a section
/// with an empty palette, for which `try_iter_indices` subtracts one from the
/// palette's length.
#[verifier::external_body]
pub(crate) fn block_index_count(chunk: &fastanvil::JavaChunk, i: usize) -> (n: Option<usize>)
    requires
        payload_section(java_source(*chunk), i as int) matches Some(s) && s.blocks > 0,
    ensures
        match n {
            Some(n) => payload_indices(java_source(*chunk), i as int) == Some(n as int),
            None => payload_indices(java_source(*chunk), i as int) is None,
        },
{
    match chunk {
        fastanvil::JavaChunk::Post18(c) => c.sections.as_ref().and_then(
            |t| t.sections().get(i),
        ).and_then(|s| s.block_states.try_iter_indices()).map(|indices| indices.count()),
        fastanvil::JavaChunk::Pre18(_) => None,
        fastanvil::JavaChunk::Pre13(_) => None,
    }
}

/// Reads the fields `block_states` and `palette` of section number `i` of a
/// parsed chunk in the paletted format.
///
/// Claimed: what is read depends on the payload and `i` alone.
#[verifier::external_body]
pub(crate) fn paletted_outline(chunk: &fastanvil::JavaChunk, i: usize) -> (s: Option<
    PalettedOutline,
>)
    ensures
        s == payload_paletted(java_source(*chunk), i as int),
{
    match chunk {
        fastanvil::JavaChunk::Pre18(c) => c.level.sections.as_ref().and_then(
            |t| t.sections().get(i),
        ).map(|s| PalettedOutline { has_states: s.block_states.is_some(), palette: s.palette.len() }),
        _ => None,
    }
}

/// Calls `fastanvil::Chunk::biome` on a parsed chunk.
///
/// Claimed: whether a biome is found depends on the payload and the position
/// alone. Left out: a chunk in the current format, for which the lookup
/// subtracts one from the length of a palette; a position outside a chunk's
/// 16 x 16 columns; and a chunk in the numbered format with fewer biomes than
/// the column's number, which the lookup indexes them by.
#[verifier::external_body]
pub(crate) fn biome_found(chunk: &fastanvil::JavaChunk, x: usize, y: isize, z: usize) -> (found:
    bool)
    requires
        payload_format(java_source(*chunk)) != Format::Current,
        x < 16,
        z < 16,
        payload_format(java_source(*chunk)) == Format::Numbered ==> column_has_biome(
            java_source(*chunk),
            x as int,
            z as int,
        ),
    ensures
        found == payload_biome(java_source(*chunk), x as int, y as int, z as int),
{
    fastanvil::Chunk::biome(chunk, x, y, z).is_some()
}

/// Calls `fastanvil::complete::Chunk::from_bytes`.
///
/// Claimed: a payload that parses is decoded, and the chunk it gives was
/// decoded from `payload`. Left out: every payload that is not sound. The
/// decoder unwraps the list of sections, unpacks a height map only of the
/// lengths that `heightmap_fits` names, computes with the length of a palette
/// wherever a section carries data or the chunk lacks a height map, unpacks
/// block states without asking how many there are, unwraps the biome of every
/// fourth position of a chunk in an older format, and gives a numbered block
/// its name by a table that does not cover every number.
#[verifier::external_body]
pub(crate) fn decode_chunk(payload: &[u8]) -> (res: Result<
    fastanvil::complete::Chunk,
    fastnbt::error::Error,
>)
    requires
        is_sound(payload@),
    ensures
        res is Ok,
        res matches Ok(chunk) ==> chunk_source(chunk) == payload@,
{
    fastanvil::complete::Chunk::from_bytes(payload)
}

/// Calls `fastanvil::Chunk::block` on a decoded chunk and hands out the block's
/// name.
///
/// Claimed: the answer is the chunk's block at that position, `None` where it has
/// none there. Left out: a chunk decoded from a payload that is not sound, and
/// a layer outside the 384 from 0 on. The lookup finds a section by dividing
/// the height above the lowest section by 16 and indexing the list of
/// sections, and a cell by indexing the section's block data.
#[verifier::external_body]
pub(crate) fn block_name_at(chunk: &fastanvil::complete::Chunk, x: usize, y: isize, z: usize) -> (name:
    Option<&str>)
    requires
        is_sound(chunk_source(*chunk)),
        0 <= y < 384,
    ensures
        match name {
            Some(n) => payload_blocks(chunk_source(*chunk)).contains_key(
                (x as int, y as int, z as int),
            ) && payload_blocks(chunk_source(*chunk))[(x as int, y as int, z as int)] == n@,
            None => !payload_blocks(chunk_source(*chunk)).contains_key(
                (x as int, y as int, z as int),
            ),
        },
{
    fastanvil::Chunk::block(chunk, x, y, z).map(|block| block.name())
}

} // verus!
