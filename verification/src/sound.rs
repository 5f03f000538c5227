//! Which chunk payloads are sound, that is, can be handed to the decoder and
//! have their blocks looked up afterwards.
//!
//! The decoder takes a good deal for granted of a chunk that parses. What it
//! takes for granted differs with the chunk's format, and is spelled out here
//! format by format, partly over what the parsed chunk says of itself and
//! partly over the payload's bytes, where the parsed chunk keeps to itself what
//! is needed. The test at the end decides soundness for a parsed chunk.

use crate::anvil::{
    biome_found, block_index_count, format_of, height_range, heightmap_len, java_source,
    paletted_outline, payload_biome, payload_format, payload_heightmap, payload_heights,
    payload_indices, payload_paletted, payload_parses, payload_section, payload_sections,
    payload_version, section_count, section_outline, version_of, Format,
};
use crate::nbt::{
    byte_named, bytes_named, compound_named, entry_named, find_byte, find_bytes, find_compound,
    find_entry, find_item, find_longs, item_named, longs_named, root_entries, root_of, walks,
    TAG_COMPOUND,
};
use vstd::prelude::*;
use vstd::string::StringSliceAdditionalSpecFns;

verus! {

/// The version that the decoder takes a chunk to be saved by: the one that the
/// chunk names, or 0.
pub open spec fn version_taken(payload: Seq<u8>) -> int {
    match payload_version(payload) {
        Some(v) => v as int,
        None => 0,
    }
}

/// Whether a height map of `len` entries is one that the decoder unpacks for a
/// chunk saved by version `version`.
pub open spec fn heightmap_fits(version: int, len: int) -> bool {
    if version == 2724 || version == 2730 || version >= 2845 {
        len == 37 || len == 43
    } else {
        len == 36 || len == 37
    }
}

/// Whether the chunk's height map, if it carries one, can be unpacked.
pub open spec fn heightmap_sound(payload: Seq<u8>) -> bool {
    payload_heightmap(payload) matches Some(len) ==> heightmap_fits(
        version_taken(payload),
        len as int,
    )
}

/// Whether section number `i` of a chunk in the current format carries data of
/// the kind `kind` (block states or biomes), as far as the payload's bytes
/// show that it does not: a section that cannot be found counts as carrying
/// data.
pub open spec fn section_carries(payload: Seq<u8>, i: int, kind: Seq<u8>) -> bool {
    match item_named(payload, root_entries(payload), "sections".spec_bytes(), i) {
        Some(section) => match entry_named(payload, section, kind) {
            Some((tag, at)) => tag != TAG_COMPOUND || entry_named(
                payload,
                at,
                "data".spec_bytes(),
            ) is Some,
            None => false,
        },
        None => true,
    }
}

/// Whether section number `i` of a chunk in the current format can be decoded.
/// With a palette of block names, its block data, where it carries any, covers
/// all 4096 cells. Without one, it carries no block data and the chunk has a
/// height map. Without a palette of biomes, it carries no biome data.
pub open spec fn section_fits(payload: Seq<u8>, i: int) -> bool {
    &&& payload_section(payload, i) matches Some(s)
    &&& if s.blocks == 0 {
        payload_heightmap(payload) is Some && !section_carries(
            payload,
            i,
            "block_states".spec_bytes(),
        )
    } else {
        payload_indices(payload, i) matches Some(n) ==> n == 4096
    }
    &&& s.biomes == 0 ==> !section_carries(payload, i, "biomes".spec_bytes())
}

/// The height of section number `i` of a chunk in the current format.
pub open spec fn section_height(payload: Seq<u8>, i: int) -> int {
    payload_section(payload, i)->0.y as int
}

/// The highest section that a block is looked up in: the one that holds the
/// topmost of a chunk's 384 layers.
pub const TOP_SECTION: i64 = 23;

/// How many sections one at height `high` lies above one at height `low`, as
/// far as blocks are looked up.
pub open spec fn reach(low: int, high: int) -> int {
    if high < TOP_SECTION {
        high - low
    } else {
        TOP_SECTION - low
    }
}

/// Whether a chunk in the current format is sound: it lists its sections; its
/// height map, if any, has a length that its version calls for; every section
/// can be decoded; and there are more sections than the highest section in
/// which blocks are looked up lies above the lowest. Blocks are looked up from
/// layer 0 up to the top section.
pub open spec fn current_sound(payload: Seq<u8>) -> bool {
    &&& payload_sections(payload) matches Some(n)
    &&& heightmap_sound(payload)
    &&& forall|i: int| 0 <= i < n ==> #[trigger] section_fits(payload, i)
    &&& forall|i: int, j: int|
        0 <= i < n && 0 <= j < n && #[trigger] section_height(payload, j) >= 0
            && #[trigger] section_height(payload, i) <= TOP_SECTION ==> reach(
            section_height(payload, i),
            section_height(payload, j),
        ) < n
}

/// The number of bits that the decoder takes an index into a palette of `len`
/// names to have, counting up from `bits` bits, which reach `reach` names.
pub open spec fn index_bits_from(len: int, bits: int, reach: int) -> int
    decreases
            if 0 < reach < len {
                len - reach
            } else {
                0
            },
{
    if reach >= len || reach <= 0 {
        bits
    } else {
        index_bits_from(len, bits + 1, 2 * reach)
    }
}

/// The number of bits that the decoder takes an index into a palette of `len`
/// names to have: as many as it takes to tell `len` names apart, and four at
/// least. The decoder itself rounds up the logarithm of `len`, which it takes
/// in floating point; that this gives the same number is taken on trust with
/// the decoder.
pub open spec fn index_bits(len: int) -> int {
    index_bits_from(len, 4, 16)
}

/// Whether block states of `longs` 64-bit numbers can be unpacked for a palette
/// of `palette` names: their number is one of those that the decoder knows as
/// padded, or they hold the bits of 4096 indices.
pub open spec fn states_fit(longs: int, palette: int) -> bool {
    longs == 256 || longs == 342 || longs == 410 || longs == 456 || longs == 512 || longs == 586
        || longs >= 64 * index_bits(palette)
}

/// The number of 64-bit numbers in the block states of section number `i` of a
/// chunk in the paletted format, as the payload's bytes show it.
pub open spec fn states_len(payload: Seq<u8>, i: int) -> Option<int> {
    match compound_named(payload, root_entries(payload), "Level".spec_bytes()) {
        Some(level) => match item_named(payload, level, "Sections".spec_bytes(), i) {
            Some(section) => longs_named(payload, section, "BlockStates".spec_bytes()),
            None => None,
        },
        None => None,
    }
}

/// Whether the block states of section number `i` of a chunk in the paletted
/// format, if it carries any, can be unpacked.
pub open spec fn paletted_fits(payload: Seq<u8>, i: int) -> bool {
    &&& payload_paletted(payload, i) matches Some(s)
    &&& s.has_states ==> (states_len(payload, i) matches Some(longs) && states_fit(
        longs,
        s.palette as int,
    ))
}

/// The first section of a chunk in the paletted format whose block states the
/// decoder unpacks: it passes over the first one listed, unless it has to work
/// out the height map.
pub open spec fn first_unpacked(payload: Seq<u8>) -> int {
    if payload_heightmap(payload) is Some {
        1
    } else {
        0
    }
}

/// Whether a biome is found in a chunk whose lowest layer is `low`, in layer
/// number `4 * k` from there, at row `4 * a` and column `4 * c`.
pub open spec fn biome_sampled(payload: Seq<u8>, low: int, k: int, a: int, c: int) -> bool {
    payload_biome(payload, 4 * a, low + 4 * k, 4 * c)
}

/// The topmost layer of a chunk that spans the layers from `low` up to, but
/// without, `high`, in which blocks are looked up: the topmost of all, or of
/// the 384 layers from 0 on.
pub open spec fn top_layer(high: int) -> int {
    if high < 384 {
        high - 1
    } else {
        383
    }
}

/// Whether the decoder, which holds the sections of a chunk in the paletted
/// format but for the first, has a section for every layer between `low` and
/// `high` in which blocks are looked up, and a height of 16 layers for each
/// section that it holds.
pub open spec fn span_fits(n: int, low: int, high: int) -> bool {
    &&& low <= high
    &&& (high - low) % 16 == 0
    &&& 16 * (n - 1) <= high - low
    &&& low < high && high > 0 && low < 384 ==> (top_layer(high) - low) / 16 < n - 1
}

/// Whether a chunk in the paletted format is sound: it lists its sections; its
/// height map, if any, has a length that its version calls for; the block
/// states that the decoder unpacks can be unpacked; and where it lists a
/// section at all, the layers that it spans fit the sections, and a biome is
/// found at every fourth position of every fourth layer.
pub open spec fn paletted_sound(payload: Seq<u8>) -> bool {
    &&& payload_sections(payload) matches Some(n)
    &&& heightmap_sound(payload)
    &&& forall|i: int| first_unpacked(payload) <= i < n ==> #[trigger] paletted_fits(payload, i)
    &&& n > 0 ==> {
        &&& span_fits(n as int, payload_heights(payload).0, payload_heights(payload).1)
        &&& forall|k: int, a: int, c: int|
            0 <= 4 * k < payload_heights(payload).1 - payload_heights(payload).0 && 0 <= a < 4 && 0
                <= c < 4 ==> #[trigger] biome_sampled(
                payload,
                payload_heights(payload).0,
                k,
                a,
                c,
            )
    }
}

/// One half of a byte: the upper four bits where `upper` holds, else the lower
/// four.
pub open spec fn nibble(byte: u8, upper: bool) -> int {
    if upper {
        byte as int / 16
    } else {
        byte as int % 16
    }
}

/// Whether the decoder has a name for the block of number `id` with the data
/// value `data`. Its table stops short for stone, dirt, saplings, the two
/// kinds of log, and slabs of stone and of wood.
pub open spec fn names_safely(id: int, data: int) -> bool {
    if id == 1 {
        data % 8 != 7
    } else if id == 3 {
        data % 4 != 3
    } else if id == 6 {
        data % 8 < 6
    } else if id == 17 || id == 162 {
        data < 4
    } else if id == 44 || id == 126 {
        data < 8
    } else {
        true
    }
}

/// Where the entries of section number `i` of a chunk in the numbered format
/// start, as the payload's bytes show it.
pub open spec fn numbered_section(payload: Seq<u8>, i: int) -> Option<int> {
    match compound_named(payload, root_entries(payload), "Level".spec_bytes()) {
        Some(level) => item_named(payload, level, "Sections".spec_bytes(), i),
        None => None,
    }
}

/// The height of section number `i` of a chunk in the numbered format, as the
/// byte that holds it.
pub open spec fn numbered_height(payload: Seq<u8>, i: int) -> Option<u8> {
    match numbered_section(payload, i) {
        Some(section) => byte_named(payload, section, "Y".spec_bytes()),
        None => None,
    }
}

/// Whether the byte at `start + k` is zero.
pub open spec fn is_zero_at(payload: Seq<u8>, start: int, k: int) -> bool {
    payload[start + k] == 0
}

/// Whether the section whose entries start at `section` holds no block number
/// above 255: it has no upper bits for the numbers, or they are all zero.
pub open spec fn numbers_are_low(payload: Seq<u8>, section: int) -> bool {
    entry_named(payload, section, "Add".spec_bytes()) is Some ==> match bytes_named(
        payload,
        section,
        "Add".spec_bytes(),
    ) {
        Some(found) => found.1 >= 2048 && zero_from(payload, found.0),
        None => false,
    }
}

/// Whether the 2048 bytes from `start` on are zero.
pub open spec fn zero_from(payload: Seq<u8>, start: int) -> bool {
    forall|k: int| 0 <= k < 2048 ==> #[trigger] is_zero_at(payload, start, k)
}

/// Whether the decoder has a name for the block in cell `k` of a section whose
/// block numbers start at `blocks` and whose data values, two to the byte,
/// start at `data`.
pub open spec fn cell_named(payload: Seq<u8>, blocks: int, data: int, k: int) -> bool {
    names_safely(payload[blocks + k] as int, nibble(payload[data + k / 2], k % 2 == 1))
}

/// Whether the decoder has a name for the block in each of the 4096 cells of the
/// section whose entries start at `section`: the section has a block number
/// and a data value for each.
pub open spec fn cells_named(payload: Seq<u8>, section: int) -> bool {
    match bytes_named(payload, section, "Blocks".spec_bytes()) {
        Some(blocks) => match bytes_named(payload, section, "Data".spec_bytes()) {
            Some(data) => blocks.1 >= 4096 && data.1 >= 2048 && named_from(
                payload,
                blocks.0,
                data.0,
            ),
            None => false,
        },
        None => false,
    }
}

/// Whether the decoder has a name for the block in each of the 4096 cells whose
/// block numbers start at `blocks` and whose data values start at `data`.
pub open spec fn named_from(payload: Seq<u8>, blocks: int, data: int) -> bool {
    forall|k: int| 0 <= k < 4096 ==> #[trigger] cell_named(payload, blocks, data, k)
}

/// Whether section number `i` of a chunk in the numbered format can be decoded:
/// it has a height, a block number below 256 and a data value for each of its
/// 4096 cells, and the decoder has a name for each of them.
pub open spec fn numbered_fits(payload: Seq<u8>, i: int) -> bool {
    match numbered_section(payload, i) {
        Some(section) => byte_named(payload, section, "Y".spec_bytes()) is Some
            && numbers_are_low(payload, section) && cells_named(payload, section),
        None => false,
    }
}

/// The number of biomes of a chunk in the numbered format, one for each column,
/// as the payload's bytes show it.
pub open spec fn numbered_biomes(payload: Seq<u8>) -> Option<int> {
    match compound_named(payload, root_entries(payload), "Level".spec_bytes()) {
        Some(level) => match bytes_named(payload, level, "Biomes".spec_bytes()) {
            Some((start, n)) => Some(n),
            None => None,
        },
        None => None,
    }
}

/// Whether a chunk in the numbered format holds a biome for column `(x, z)`.
pub open spec fn column_has_biome(payload: Seq<u8>, x: int, z: int) -> bool {
    numbered_biomes(payload) matches Some(n) && z * 16 + x < n
}

/// Whether a chunk in the numbered format is sound: it lists its sections; its
/// height map, if any, has a length that its version calls for; and where it
/// lists a section at all, the chunk spans one height of 16 blocks for each,
/// every section can be decoded, no two are at the same height, and a biome is
/// found at every fourth position of every fourth layer.
pub open spec fn numbered_sound(payload: Seq<u8>) -> bool {
    &&& payload_sections(payload) matches Some(n)
    &&& heightmap_sound(payload)
    &&& n > 0 ==> {
        &&& payload_heights(payload).1 - payload_heights(payload).0 == 16 * n
        &&& forall|i: int| 0 <= i < n ==> #[trigger] numbered_fits(payload, i)
        &&& forall|i: int, j: int|
            0 <= i < j < n ==> #[trigger] numbered_height(payload, i) != #[trigger] numbered_height(
                payload,
                j,
            )
        &&& column_has_biome(payload, 12, 12)
        &&& forall|k: int, a: int, c: int|
            0 <= k < 4 * n && 0 <= a < 4 && 0 <= c < 4 ==> #[trigger] biome_sampled(
                payload,
                payload_heights(payload).0,
                k,
                a,
                c,
            )
    }
}

/// Whether `payload` is a chunk that the decoder can be handed, and whose blocks
/// can then be looked up: the walk gets through it, it parses, and it is sound
/// for the format that it parses in.
pub open spec fn is_sound(payload: Seq<u8>) -> bool {
    &&& walks(payload)
    &&& payload_parses(payload)
    &&& match payload_format(payload) {
        Format::Current => current_sound(payload),
        Format::Paletted => paletted_sound(payload),
        Format::Numbered => numbered_sound(payload),
    }
}

fn heightmap_is_usual(version: i32, len: usize) -> (fits: bool)
    ensures
        fits == heightmap_fits(version as int, len as int),
{
    if version == 2724 || version == 2730 || version >= 2845 {
        len == 37 || len == 43
    } else {
        len == 36 || len == 37
    }
}

/// Whether the height map of a parsed chunk, if it carries one, can be
/// unpacked.
fn heightmap_is_sound(chunk: &fastanvil::JavaChunk) -> (sound: bool)
    ensures
        sound == heightmap_sound(java_source(*chunk)),
{
    let version: i32 = match version_of(chunk) {
        Some(v) => v,
        None => 0,
    };
    match heightmap_len(chunk) {
        Some(len) => heightmap_is_usual(version, len),
        None => true,
    }
}

/// Whether section number `i` carries data of the kind `kind`.
fn carries(payload: &[u8], i: usize, kind: &str) -> (found: bool)
    requires
        walks(payload@),
    ensures
        found == section_carries(payload@, i as int, kind.spec_bytes()),
{
    let root: usize = root_of(payload);
    match find_item(payload, root, "sections".as_bytes(), i) {
        Some(section) => match find_entry(payload, section, kind.as_bytes()) {
            Some((tag, at)) => tag != TAG_COMPOUND || find_entry(
                payload,
                at,
                "data".as_bytes(),
            ).is_some(),
            None => false,
        },
        None => true,
    }
}

/// Whether section number `i` of a parsed chunk in the current format can be
/// decoded.
fn section_is_fit(chunk: &fastanvil::JavaChunk, payload: &[u8], i: usize) -> (part: Option<i8>)
    requires
        walks(payload@),
        java_source(*chunk) == payload@,
    ensures
        part is Some == section_fits(payload@, i as int),
        part matches Some(y) ==> y as int == section_height(payload@, i as int),
{
    let part = match section_outline(chunk, i) {
        Some(part) => part,
        None => {
            return None;
        },
    };
    if part.blocks == 0 {
        if heightmap_len(chunk).is_none() || carries(payload, i, "block_states") {
            return None;
        }
    } else {
        match block_index_count(chunk, i) {
            Some(count) => {
                if count != 4096 {
                    return None;
                }
            },
            None => {},
        }
    }
    if part.biomes == 0 && carries(payload, i, "biomes") {
        return None;
    }
    Some(part.y)
}

/// Whether a parsed chunk in the current format is sound.
fn current_is_sound(chunk: &fastanvil::JavaChunk, payload: &[u8]) -> (sound: bool)
    requires
        walks(payload@),
        java_source(*chunk) == payload@,
    ensures
        sound == current_sound(payload@),
{
    let ghost p = payload@;
    let n: usize = match section_count(chunk) {
        Some(n) => n,
        None => {
            return false;
        },
    };
    if !heightmap_is_sound(chunk) {
        return false;
    }
    let mut lowest: i64 = 0;
    let mut highest: i64 = 0;
    let ghost mut lowest_at: int = 0;
    let ghost mut highest_at: int = 0;
    let mut i: usize = 0;
    while i < n
        invariant
            i <= n,
            p == payload@,
            walks(p),
            p == java_source(*chunk),
            payload_sections(p) == Some(n),
            heightmap_sound(p),
            forall|k: int| 0 <= k < i ==> #[trigger] section_fits(p, k),
            forall|k: int| 0 <= k < i ==> lowest <= #[trigger] section_height(p, k) <= highest,
            i > 0 ==> 0 <= lowest_at < i && section_height(p, lowest_at) == lowest,
            i > 0 ==> 0 <= highest_at < i && section_height(p, highest_at) == highest,
            -128 <= lowest <= 127,
            -128 <= highest <= 127,
            i > 0 ==> lowest <= highest,
        decreases n - i,
    {
        let y: i64 = match section_is_fit(chunk, payload, i) {
            Some(y) => y as i64,
            None => {
                assert(!section_fits(p, i as int));
                return false;
            },
        };
        if i == 0 || y < lowest {
            lowest = y;
            proof {
                lowest_at = i as int;
            }
        }
        if i == 0 || y > highest {
            highest = y;
            proof {
                highest_at = i as int;
            }
        }
        i = i + 1;
    }
    if n > 0 && highest >= 0 && lowest <= TOP_SECTION {
        let top: i64 = if highest < TOP_SECTION {
            highest
        } else {
            TOP_SECTION
        };
        if (top - lowest) as usize >= n {
            assert(reach(section_height(p, lowest_at), section_height(p, highest_at)) >= n);
            return false;
        }
    }
    true
}

/// The number of bits that the decoder takes an index into a palette of `len`
/// names to have.
fn bits_of_index(len: usize) -> (bits: u64)
    ensures
        bits == index_bits(len as int),
        4 <= bits <= 64,
{
    let mut bits: u64 = 4;
    let mut reach: u128 = 16;
    proof {
        vstd::arithmetic::power2::lemma2_to64();
    }
    while reach < len as u128
        invariant
            4 <= bits <= 64,
            reach == vstd::arithmetic::power2::pow2(bits as nat),
            index_bits(len as int) == index_bits_from(len as int, bits as int, reach as int),
            bits == 64 ==> reach >= len,
        decreases 64 - bits,
    {
        proof {
            vstd::arithmetic::power2::lemma_pow2_unfold((bits + 1) as nat);
            vstd::arithmetic::power2::lemma2_to64();
            vstd::arithmetic::power2::lemma2_to64_rest();
            vstd::arithmetic::power2::lemma_pow2_strictly_increases(bits as nat, 64);
        }
        bits = bits + 1;
        reach = reach * 2;
    }
    bits
}

/// Whether block states of `longs` 64-bit numbers can be unpacked for a palette
/// of `palette` names.
fn states_are_fit(longs: u64, palette: usize) -> (fit: bool)
    ensures
        fit == states_fit(longs as int, palette as int),
{
    if longs == 256 || longs == 342 || longs == 410 || longs == 456 || longs == 512 || longs
        == 586 {
        return true;
    }
    longs >= 64 * bits_of_index(palette)
}

/// The number of 64-bit numbers in the block states of section number `i`.
fn length_of_states(payload: &[u8], i: usize) -> (longs: Option<u64>)
    requires
        walks(payload@),
    ensures
        match longs {
            Some(n) => states_len(payload@, i as int) == Some(n as int),
            None => states_len(payload@, i as int) is None,
        },
{
    let root: usize = root_of(payload);
    match find_compound(payload, root, "Level".as_bytes()) {
        Some(level) => match find_item(payload, level, "Sections".as_bytes(), i) {
            Some(section) => find_longs(payload, section, "BlockStates".as_bytes()),
            None => None,
        },
        None => None,
    }
}

/// Whether the block states of section number `i` of a parsed chunk in the
/// paletted format, if it carries any, can be unpacked.
fn paletted_is_fit(chunk: &fastanvil::JavaChunk, payload: &[u8], i: usize) -> (fit: bool)
    requires
        walks(payload@),
        java_source(*chunk) == payload@,
    ensures
        fit == paletted_fits(payload@, i as int),
{
    match paletted_outline(chunk, i) {
        Some(part) => {
            if !part.has_states {
                return true;
            }
            match length_of_states(payload, i) {
                Some(longs) => states_are_fit(longs, part.palette),
                None => false,
            }
        },
        None => false,
    }
}

/// Whether the biome of every fourth column of a chunk can be asked for: the
/// chunk is in the paletted format, or in the numbered format with a biome for
/// each such column.
pub open spec fn biomes_can_be_sampled(payload: Seq<u8>) -> bool {
    payload_format(payload) == Format::Paletted || (payload_format(payload) == Format::Numbered
        && column_has_biome(payload, 12, 12))
}

/// Whether a biome is found at every fourth position of layer number `4 * k`
/// of a parsed chunk in an older format, counted from the layer `low`.
fn layer_has_biomes(chunk: &fastanvil::JavaChunk, low: isize, k: usize) -> (found: bool)
    requires
        biomes_can_be_sampled(java_source(*chunk)),
        low + 4 * k <= isize::MAX,
    ensures
        found == forall|a: int, c: int|
            0 <= a < 4 && 0 <= c < 4 ==> #[trigger] biome_sampled(
                java_source(*chunk),
                low as int,
                k as int,
                a,
                c,
            ),
{
    let ghost p = java_source(*chunk);
    let above: i128 = low as i128 + 4 * (k as i128);
    let y: isize = above as isize;
    let mut a: usize = 0;
    while a < 4
        invariant
            a <= 4,
            y == low + 4 * k,
            p == java_source(*chunk),
            biomes_can_be_sampled(p),
            forall|e: int, c: int|
                0 <= e < a && 0 <= c < 4 ==> #[trigger] biome_sampled(
                    p,
                    low as int,
                    k as int,
                    e,
                    c,
                ),
        decreases 4 - a,
    {
        let mut c: usize = 0;
        while c < 4
            invariant
                a < 4,
                c <= 4,
                y == low + 4 * k,
                p == java_source(*chunk),
                biomes_can_be_sampled(p),
                forall|e: int, g: int|
                    0 <= e < a && 0 <= g < 4 ==> #[trigger] biome_sampled(
                        p,
                        low as int,
                        k as int,
                        e,
                        g,
                    ),
                forall|g: int|
                    0 <= g < c ==> #[trigger] biome_sampled(p, low as int, k as int, a as int, g),
            decreases 4 - c,
        {
            if !biome_found(chunk, 4 * a, y, 4 * c) {
                assert(!biome_sampled(p, low as int, k as int, a as int, c as int));
                return false;
            }
            c = c + 1;
        }
        a = a + 1;
    }
    true
}

/// Whether a parsed chunk in the paletted format is sound.
fn paletted_is_sound(chunk: &fastanvil::JavaChunk, payload: &[u8]) -> (sound: bool)
    requires
        walks(payload@),
        java_source(*chunk) == payload@,
        payload_format(payload@) == Format::Paletted,
    ensures
        sound == paletted_sound(payload@),
{
    let ghost p = payload@;
    let n: usize = match section_count(chunk) {
        Some(n) => n,
        None => {
            return false;
        },
    };
    if !heightmap_is_sound(chunk) {
        return false;
    }
    let first: usize = if heightmap_len(chunk).is_some() {
        1
    } else {
        0
    };
    let mut i: usize = first;
    while i < n
        invariant
            first <= i,
            first == first_unpacked(p),
            p == payload@,
            walks(p),
            p == java_source(*chunk),
            payload_sections(p) == Some(n),
            forall|k: int| first <= k < i ==> #[trigger] paletted_fits(p, k),
        decreases n - i,
    {
        if !paletted_is_fit(chunk, payload, i) {
            assert(!paletted_fits(p, i as int));
            return false;
        }
        i = i + 1;
    }
    if n == 0 {
        return true;
    }
    let (low, high) = height_range(chunk);
    let span: i128 = high as i128 - low as i128;
    if span < 0 || span % 16 != 0 || 16 * ((n - 1) as i128) > span {
        return false;
    }
    if span > 0 && high > 0 && low < 384 {
        let top: i128 = if high < 384 {
            high as i128 - 1
        } else {
            383
        };
        if (top - low as i128) / 16 >= (n - 1) as i128 {
            return false;
        }
    }
    let layers: usize = (span / 4) as usize;
    let mut k: usize = 0;
    while k < layers
        invariant
            k <= layers,
            n > 0,
            p == payload@,
            span == high - low,
            span % 16 == 0,
            layers == span / 4,
            p == java_source(*chunk),
            biomes_can_be_sampled(p),
            payload_sections(p) == Some(n),
            payload_heights(p) == (low as int, high as int),
            forall|j: int, a: int, c: int|
                0 <= j < k && 0 <= a < 4 && 0 <= c < 4 ==> #[trigger] biome_sampled(
                    p,
                    low as int,
                    j,
                    a,
                    c,
                ),
        decreases layers - k,
    {
        if !layer_has_biomes(chunk, low, k) {
            let ghost (a, c) = choose|a: int, c: int|
                0 <= a < 4 && 0 <= c < 4 && !#[trigger] biome_sampled(
                    p,
                    low as int,
                    k as int,
                    a,
                    c,
                );
            assert(!biome_sampled(p, payload_heights(p).0, k as int, a, c));
            return false;
        }
        k = k + 1;
    }
    true
}

/// Whether the decoder has a name for the block of number `id` with the data
/// value `data`.
fn is_named_safely(id: u8, data: u8) -> (safe: bool)
    requires
        data < 16,
    ensures
        safe == names_safely(id as int, data as int),
{
    if id == 1 {
        data % 8 != 7
    } else if id == 3 {
        data % 4 != 3
    } else if id == 6 {
        data % 8 < 6
    } else if id == 17 || id == 162 {
        data < 4
    } else if id == 44 || id == 126 {
        data < 8
    } else {
        true
    }
}

/// Whether the section whose entries start at `section` holds no block number
/// above 255.
fn has_low_numbers(payload: &[u8], section: usize) -> (low: bool)
    requires
        section <= payload@.len(),
    ensures
        low == numbers_are_low(payload@, section as int),
{
    if find_entry(payload, section, "Add".as_bytes()).is_none() {
        return true;
    }
    let (start, n) = match find_bytes(payload, section, "Add".as_bytes()) {
        Some(found) => found,
        None => {
            return false;
        },
    };
    if n < 2048 {
        return false;
    }
    let total: usize = payload.len();
    let mut k: usize = 0;
    while k < 2048
        invariant
            k <= 2048,
            total == payload@.len(),
            start + 2048 <= payload@.len(),
            entry_named(payload@, section as int, "Add".spec_bytes()) is Some,
            bytes_named(payload@, section as int, "Add".spec_bytes()) == Some(
                (start as int, n as int),
            ),
            forall|j: int| 0 <= j < k ==> #[trigger] is_zero_at(payload@, start as int, j),
        decreases 2048 - k,
    {
        if payload[start + k] != 0 {
            assert(!is_zero_at(payload@, start as int, k as int));
            assert(!zero_from(payload@, start as int));
            return false;
        }
        k = k + 1;
    }
    true
}

/// Whether section number `i` of a chunk in the numbered format can be decoded;
/// if so, the byte that holds its height.
fn numbered_is_fit(payload: &[u8], i: usize) -> (height: Option<u8>)
    requires
        walks(payload@),
    ensures
        height is Some == numbered_fits(payload@, i as int),
        height is Some ==> height == numbered_height(payload@, i as int),
{
    let root: usize = root_of(payload);
    let level: usize = match find_compound(payload, root, "Level".as_bytes()) {
        Some(level) => level,
        None => {
            return None;
        },
    };
    let section: usize = match find_item(payload, level, "Sections".as_bytes(), i) {
        Some(section) => section,
        None => {
            return None;
        },
    };
    let y: u8 = match find_byte(payload, section, "Y".as_bytes()) {
        Some(y) => y,
        None => {
            return None;
        },
    };
    if !has_low_numbers(payload, section) {
        return None;
    }
    let (blocks, n) = match find_bytes(payload, section, "Blocks".as_bytes()) {
        Some(found) => found,
        None => {
            return None;
        },
    };
    let (data, m) = match find_bytes(payload, section, "Data".as_bytes()) {
        Some(found) => found,
        None => {
            return None;
        },
    };
    if n < 4096 || m < 2048 {
        return None;
    }
    let total: usize = payload.len();
    let mut k: usize = 0;
    while k < 4096
        invariant
            k <= 4096,
            total == payload@.len(),
            blocks + 4096 <= payload@.len(),
            data + 2048 <= payload@.len(),
            numbered_section(payload@, i as int) == Some(section as int),
            byte_named(payload@, section as int, "Y".spec_bytes()) == Some(y),
            numbers_are_low(payload@, section as int),
            bytes_named(payload@, section as int, "Blocks".spec_bytes()) == Some(
                (blocks as int, n as int),
            ),
            bytes_named(payload@, section as int, "Data".spec_bytes()) == Some(
                (data as int, m as int),
            ),
            forall|j: int| 0 <= j < k ==> #[trigger] cell_named(payload@, blocks as int, data as int, j),
        decreases 4096 - k,
    {
        let pair: u8 = payload[data + k / 2];
        let value: u8 = if k % 2 == 1 {
            pair / 16
        } else {
            pair % 16
        };
        if !is_named_safely(payload[blocks + k], value) {
            assert(!cell_named(payload@, blocks as int, data as int, k as int));
            assert(!named_from(payload@, blocks as int, data as int));
            return None;
        }
        k = k + 1;
    }
    Some(y)
}

/// Whether a parsed chunk in the numbered format is sound.
fn numbered_is_sound(chunk: &fastanvil::JavaChunk, payload: &[u8]) -> (sound: bool)
    requires
        walks(payload@),
        java_source(*chunk) == payload@,
        payload_format(payload@) == Format::Numbered,
    ensures
        sound == numbered_sound(payload@),
{
    let ghost p = payload@;
    let n: usize = match section_count(chunk) {
        Some(n) => n,
        None => {
            return false;
        },
    };
    if !heightmap_is_sound(chunk) {
        return false;
    }
    if n == 0 {
        return true;
    }
    let (low, high) = height_range(chunk);
    if (high as i128) - (low as i128) != 16 * (n as i128) {
        return false;
    }
    let mut heights: Vec<u8> = Vec::new();
    let mut i: usize = 0;
    while i < n
        invariant
            i <= n,
            n > 0,
            p == payload@,
            walks(p),
            payload_sections(p) == Some(n),
            heights@.len() == i,
            forall|k: int| 0 <= k < i ==> #[trigger] numbered_fits(p, k),
            forall|k: int| 0 <= k < i ==> #[trigger] numbered_height(p, k) == Some(heights@[k]),
            forall|a: int, b: int|
                0 <= a < b < i ==> #[trigger] numbered_height(p, a) != #[trigger] numbered_height(
                    p,
                    b,
                ),
        decreases n - i,
    {
        let y: u8 = match numbered_is_fit(payload, i) {
            Some(y) => y,
            None => {
                assert(!numbered_fits(p, i as int));
                return false;
            },
        };
        let mut j: usize = 0;
        while j < i
            invariant
                j <= i,
                i < n,
                p == payload@,
                payload_sections(p) == Some(n),
                heights@.len() == i,
                numbered_height(p, i as int) == Some(y),
                forall|k: int| 0 <= k < i ==> #[trigger] numbered_height(p, k) == Some(heights@[k]),
                forall|a: int| 0 <= a < j ==> #[trigger] numbered_height(p, a) != Some(y),
            decreases i - j,
        {
            if heights[j] == y {
                assert(numbered_height(p, j as int) == numbered_height(p, i as int));
                return false;
            }
            j = j + 1;
        }
        heights.push(y);
        i = i + 1;
    }
    let root: usize = root_of(payload);
    let biomes: usize = match find_compound(payload, root, "Level".as_bytes()) {
        Some(level) => match find_bytes(payload, level, "Biomes".as_bytes()) {
            Some((start, count)) => count,
            None => {
                return false;
            },
        },
        None => {
            return false;
        },
    };
    if biomes <= 204 {
        return false;
    }
    let layers: usize = 4 * n;
    let mut k: usize = 0;
    while k < layers
        invariant
            k <= layers,
            n > 0,
            p == payload@,
            payload_sections(p) == Some(n),
            layers == 4 * n,
            high - low == 16 * n,
            p == java_source(*chunk),
            biomes_can_be_sampled(p),
            payload_heights(p) == (low as int, high as int),
            forall|j: int, a: int, c: int|
                0 <= j < k && 0 <= a < 4 && 0 <= c < 4 ==> #[trigger] biome_sampled(
                    p,
                    low as int,
                    j,
                    a,
                    c,
                ),
        decreases layers - k,
    {
        if !layer_has_biomes(chunk, low, k) {
            let ghost (a, c) = choose|a: int, c: int|
                0 <= a < 4 && 0 <= c < 4 && !#[trigger] biome_sampled(
                    p,
                    low as int,
                    k as int,
                    a,
                    c,
                );
            assert(!biome_sampled(p, payload_heights(p).0, k as int, a, c));
            return false;
        }
        k = k + 1;
    }
    true
}

/// Whether a parsed chunk is one that the decoder can be handed.
pub(crate) fn chunk_is_sound(chunk: &fastanvil::JavaChunk, payload: &[u8]) -> (sound: bool)
    requires
        walks(payload@),
        payload_parses(payload@),
        java_source(*chunk) == payload@,
    ensures
        sound == is_sound(payload@),
{
    match format_of(chunk) {
        Format::Current => current_is_sound(chunk, payload),
        Format::Paletted => paletted_is_sound(chunk, payload),
        Format::Numbered => numbered_is_sound(chunk, payload),
    }
}

} // verus!
