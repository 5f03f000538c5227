//! Ingestion: from the bytes of a region file to chunks stored in the world.
//!
//! A region holds 32 x 32 slots, taken in turn with `x` as the outer and `z` as
//! the inner index. A slot that passes the optional chunk bounds and holds a
//! payload is decoded, its cells are turned into palette ids in index order, and
//! the array replaces whatever was stored at that chunk coordinate. A payload is
//! handed to the parser only once the walk has got through it, and to the
//! decoder only once it has been parsed and found sound. The
//! first slot that cannot be read or decoded ends the call; chunks stored
//! before it stay.

use crate::anvil::{
    block_name_at, chunk_source, decode_chunk, open_region, parse_chunk, payload_blocks,
    payload_parses, read_slot, region_data, slot_allocated, slot_is_hollow, slot_payload,
    LOCATION_TABLE_BYTES,
};
use crate::coords::{
    cell_coords, cell_x, cell_y, cell_z, chunk_in_bounds, chunk_passes, Vec2, CHUNK_CELLS,
};
use crate::nbt::{payload_walks, walks};
use crate::palette::{id_of, lemma_with_name, with_name};
use crate::sound::{chunk_is_sound, is_sound};
use crate::world::{cells_fit, McWorld, WorldView};
use vstd::prelude::*;

verus! {

/// The two ways in which reading a region fails.
#[derive(Clone, Copy, Debug, PartialEq, Eq, Structural)]
pub enum Failure {
    /// The region container is malformed: its location table is cut short, or a
    /// slot's data cannot be read or unpacked.
    Container,
    /// A slot's payload was read but is not a chunk that can be decoded.
    Chunk,
}

/// What went wrong and where, as far as the bytes of the region decide it.
#[derive(Clone, Copy, Debug, PartialEq, Eq, Structural)]
pub enum Fault {
    /// The region is too short to hold its location table.
    Truncated,
    /// The data of the slot at local `(x, z)` cannot be read or unpacked.
    Unreadable { x: usize, z: usize },
    /// The slot at local `(x, z)` is allocated but declares a length of zero.
    Hollow { x: usize, z: usize },
    /// The payload of the slot at local `(x, z)` does not parse as a chunk, or
    /// its values are nested too deep or too oddly to try.
    Malformed { x: usize, z: usize },
    /// The payload of the slot at local `(x, z)` parses, but not as a chunk
    /// that can be decoded.
    Unsound { x: usize, z: usize },
}

/// Why `read_region` gave up.
#[derive(Debug)]
#[allow(inconsistent_fields)]
pub enum IngestError {
    /// The region could not be opened; the codec's own error says why.
    Region(fastanvil::Error),
    /// The slot at local `(x, z)` could not be read; the codec's own error says
    /// why.
    Slot { x: usize, z: usize, error: fastanvil::Error },
    /// The slot at local `(x, z)` is allocated but declares no data at all.
    HollowSlot { x: usize, z: usize },
    /// The payload of the slot at local `(x, z)` could not be parsed; the
    /// codec's own error says why. There is none where the payload was not put
    /// to the parser, because its values are nested too deep or too oddly.
    Chunk { x: usize, z: usize, error: Option<fastnbt::error::Error> },
    /// The payload of the slot at local `(x, z)` parses, but it breaks what the
    /// decoder takes for granted of a chunk in its format: a list of sections
    /// without gaps, block data for every cell, a height map of the usual
    /// length.
    UnsoundChunk { x: usize, z: usize },
}

impl IngestError {
    /// What went wrong and where.
    pub open spec fn fault(&self) -> Fault {
        match self {
            IngestError::Region(_) => Fault::Truncated,
            IngestError::Slot { x, z, .. } => Fault::Unreadable { x: *x, z: *z },
            IngestError::HollowSlot { x, z } => Fault::Hollow { x: *x, z: *z },
            IngestError::Chunk { x, z, .. } => Fault::Malformed { x: *x, z: *z },
            IngestError::UnsoundChunk { x, z } => Fault::Unsound { x: *x, z: *z },
        }
    }

    /// Which of the two failures this is.
    pub open spec fn failure(&self) -> Failure {
        match self {
            IngestError::Chunk { .. } => Failure::Chunk,
            IngestError::UnsoundChunk { .. } => Failure::Chunk,
            _ => Failure::Container,
        }
    }

    /// Which of the two failures this is.
    #[verifier::when_used_as_spec(failure)]
    pub fn kind(&self) -> (f: Failure)
        ensures
            f == self.failure(),
    {
        match self {
            IngestError::Chunk { .. } => Failure::Chunk,
            IngestError::UnsoundChunk { .. } => Failure::Chunk,
            _ => Failure::Container,
        }
    }
}

/// What reading one slot of a region comes to.
pub enum SlotRead {
    /// No chunk is stored in the slot.
    Vacant,
    /// The slot's payload, unpacked.
    Payload(Seq<u8>),
    /// The slot is allocated but declares a length of zero.
    Hollow,
    /// The slot is allocated but its data cannot be read or unpacked.
    Unreadable,
}

/// What reading slot `(x, z)` of the region stored in `data` comes to.
pub open spec fn slot_read(data: Seq<u8>, x: int, z: int) -> SlotRead {
    if !slot_allocated(data, x, z) {
        SlotRead::Vacant
    } else if slot_is_hollow(data, x, z) {
        SlotRead::Hollow
    } else {
        match slot_payload(data, x, z) {
            Some(payload) => SlotRead::Payload(payload),
            None => SlotRead::Unreadable,
        }
    }
}

/// The names found in a chunk's cells, in index order: `None` where a cell has
/// no block.
pub open spec fn cells_of(blocks: Map<(int, int, int), Seq<char>>) -> Seq<Option<Seq<char>>> {
    Seq::new(
        CHUNK_CELLS as nat,
        |i: int|
            {
                let at = (cell_x(i), cell_y(i), cell_z(i));
                if blocks.contains_key(at) {
                    Some(blocks[at])
                } else {
                    None
                }
            },
    )
}

/// The names of a chunk given as a list: cell `i` has the `i`-th entry, and no
/// block where the list is too short to say.
pub open spec fn cells_listed(names: Seq<Option<String>>) -> Seq<Option<Seq<char>>> {
    Seq::new(
        CHUNK_CELLS as nat,
        |i: int|
            if i < names.len() {
                match names[i] {
                    Some(name) => Some(name@),
                    None => None,
                }
            } else {
                None
            },
    )
}

/// The palette after the names in `cells` were looked up in turn, each new name
/// joining at the end.
pub open spec fn absorb(palette: Seq<Seq<char>>, cells: Seq<Option<Seq<char>>>) -> Seq<Seq<char>>
    decreases cells.len(),
{
    if cells.len() == 0 {
        palette
    } else {
        let before = absorb(palette, cells.drop_last());
        match cells.last() {
            Some(name) => with_name(before, name),
            None => before,
        }
    }
}

/// The array that stands for `cells` under `palette`: the id of each cell's name,
/// and 0 for a cell without a block.
pub open spec fn encode(palette: Seq<Seq<char>>, cells: Seq<Option<Seq<char>>>) -> Seq<usize> {
    Seq::new(
        cells.len(),
        |i: int|
            match cells[i] {
                Some(name) => id_of(palette, name) as usize,
                None => 0usize,
            },
    )
}

/// The world after the chunk at `at` was ingested from `cells`: the palette has
/// absorbed the names, and the chunk's array, encoded under that palette, stands
/// in place of any array stored at `at` before.
pub open spec fn with_chunk(w: WorldView, at: (int, int), cells: Seq<Option<Seq<char>>>) -> WorldView {
    let palette = absorb(w.palette, cells);
    WorldView { palette, chunks: w.chunks.insert(at, encode(palette, cells)) }
}

/// A world part of the way through a region, and the failure that ended the
/// reading, if one did.
pub struct Ingested {
    pub world: WorldView,
    pub failure: Option<Fault>,
}

/// The chunk coordinate of slot `(x, z)` of the region at `region`.
pub open spec fn slot_coord(region: Vec2, x: int, z: int) -> (int, int) {
    (region.x * 32 + x, region.z * 32 + z)
}

/// The effect of slot `(x, z)` on the world `w`.
pub open spec fn after_slot(
    w: WorldView,
    region: Vec2,
    min: Option<Vec2>,
    max: Option<Vec2>,
    data: Seq<u8>,
    x: int,
    z: int,
) -> Ingested {
    let at = slot_coord(region, x, z);
    if !chunk_in_bounds(at.0, at.1, min, max) {
        Ingested { world: w, failure: None }
    } else {
        match slot_read(data, x, z) {
            SlotRead::Vacant => Ingested { world: w, failure: None },
            SlotRead::Hollow => Ingested {
                world: w,
                failure: Some(Fault::Hollow { x: x as usize, z: z as usize }),
            },
            SlotRead::Unreadable => Ingested {
                world: w,
                failure: Some(Fault::Unreadable { x: x as usize, z: z as usize }),
            },
            SlotRead::Payload(payload) => if !walks(payload) || !payload_parses(payload) {
                Ingested {
                    world: w,
                    failure: Some(Fault::Malformed { x: x as usize, z: z as usize }),
                }
            } else if !is_sound(payload) {
                Ingested {
                    world: w,
                    failure: Some(Fault::Unsound { x: x as usize, z: z as usize }),
                }
            } else {
                Ingested {
                    world: with_chunk(w, at, cells_of(payload_blocks(payload))),
                    failure: None,
                }
            },
        }
    }
}

/// The effect of the first `n` slots, slot number `k` being the one at
/// `(k / 32, k % 32)`. Nothing happens after a failure.
pub open spec fn after_slots(
    w: WorldView,
    region: Vec2,
    min: Option<Vec2>,
    max: Option<Vec2>,
    data: Seq<u8>,
    n: nat,
) -> Ingested
    decreases n,
{
    if n == 0 {
        Ingested { world: w, failure: None }
    } else {
        let before = after_slots(w, region, min, max, data, (n - 1) as nat);
        if before.failure is Some {
            before
        } else {
            after_slot(before.world, region, min, max, data, (n - 1) / 32, (n - 1) % 32)
        }
    }
}

/// The effect of reading the region stored in `data`: nothing but a failure
/// where `data` is too short for a location table, else that of all 1024 slots.
pub open spec fn after_region(
    w: WorldView,
    region: Vec2,
    min: Option<Vec2>,
    max: Option<Vec2>,
    data: Seq<u8>,
) -> Ingested {
    if data.len() < LOCATION_TABLE_BYTES {
        Ingested { world: w, failure: Some(Fault::Truncated) }
    } else {
        after_slots(w, region, min, max, data, 1024)
    }
}

/// Once a slot has failed, the slots after it change nothing.
pub proof fn lemma_failure_ends(
    w: WorldView,
    region: Vec2,
    min: Option<Vec2>,
    max: Option<Vec2>,
    data: Seq<u8>,
    n: nat,
    m: nat,
)
    requires
        n <= m,
        after_slots(w, region, min, max, data, n).failure is Some,
    ensures
        after_slots(w, region, min, max, data, m) == after_slots(w, region, min, max, data, n),
    decreases m,
{
    if n < m {
        lemma_failure_ends(w, region, min, max, data, n, (m - 1) as nat);
    }
}

/// Absorbing names keeps a palette free of repeats, keeps every name it had at
/// its id, and makes every absorbed name known.
pub proof fn lemma_absorb(palette: Seq<Seq<char>>, cells: Seq<Option<Seq<char>>>)
    requires
        palette.no_duplicates(),
    ensures
        absorb(palette, cells).no_duplicates(),
        palette.len() <= absorb(palette, cells).len(),
        forall|name: Seq<char>| #[trigger]
            palette.contains(name) ==> absorb(palette, cells).contains(name) && id_of(
                absorb(palette, cells),
                name,
            ) == id_of(palette, name),
        forall|i: int|
            0 <= i < cells.len() ==> (#[trigger] cells[i] matches Some(name) ==> absorb(
                palette,
                cells,
            ).contains(name)),
    decreases cells.len(),
{
    if cells.len() > 0 {
        let rest = cells.drop_last();
        let before = absorb(palette, rest);
        lemma_absorb(palette, rest);
        match cells.last() {
            Some(name) => {
                lemma_with_name(before, name);
            },
            None => {},
        }
        let after = absorb(palette, cells);
        assert forall|i: int| 0 <= i < cells.len() implies (#[trigger] cells[i] matches Some(
            name,
        ) ==> after.contains(name)) by {
            if i < rest.len() {
                assert(rest[i] == cells[i]);
            }
        }
    }
}

/// The array that stands for a chunk's cells fits the palette that has absorbed
/// them.
pub proof fn lemma_encode_fits(palette: Seq<Seq<char>>, cells: Seq<Option<Seq<char>>>)
    requires
        palette.no_duplicates(),
        cells.len() == CHUNK_CELLS,
    ensures
        cells_fit(encode(absorb(palette, cells), cells), absorb(palette, cells).len()),
{
    lemma_absorb(palette, cells);
    let after = absorb(palette, cells);
    assert forall|i: int| 0 <= i < cells.len() implies encode(after, cells)[i] == 0 || (
    #[trigger] encode(after, cells)[i]) < after.len() by {
        match cells[i] {
            Some(name) => {
                assert(after.contains(name));
            },
            None => {},
        }
    }
}

/// Whether `after` agrees with `before` at every chunk coordinate that the
/// bounds shut out: no chunk has appeared there, and a chunk stored there is as
/// it was.
pub open spec fn untouched_outside(
    before: WorldView,
    after: WorldView,
    min: Option<Vec2>,
    max: Option<Vec2>,
) -> bool {
    forall|c: (int, int)|
        !chunk_in_bounds(c.0, c.1, min, max) ==> (#[trigger] after.chunks.contains_key(c))
            == before.chunks.contains_key(c) && (before.chunks.contains_key(c) ==> after.chunks[c]
            == before.chunks[c])
}

/// Reading a region leaves alone every chunk coordinate that the bounds shut
/// out: no chunk appears there, and a chunk stored there stays as it was.
pub proof fn law_bounds_shut_out(
    w: WorldView,
    region: Vec2,
    min: Option<Vec2>,
    max: Option<Vec2>,
    data: Seq<u8>,
    c: (int, int),
)
    requires
        !chunk_in_bounds(c.0, c.1, min, max),
    ensures
        after_region(w, region, min, max, data).world.chunks.contains_key(c)
            == w.chunks.contains_key(c),
        w.chunks.contains_key(c) ==> after_region(w, region, min, max, data).world.chunks[c]
            == w.chunks[c],
{
    lemma_slots_shut_out(w, region, min, max, data, 1024, c);
}

proof fn lemma_slots_shut_out(
    w: WorldView,
    region: Vec2,
    min: Option<Vec2>,
    max: Option<Vec2>,
    data: Seq<u8>,
    n: nat,
    c: (int, int),
)
    requires
        !chunk_in_bounds(c.0, c.1, min, max),
    ensures
        after_slots(w, region, min, max, data, n).world.chunks.contains_key(c)
            == w.chunks.contains_key(c),
        w.chunks.contains_key(c) ==> after_slots(w, region, min, max, data, n).world.chunks[c]
            == w.chunks[c],
    decreases n,
{
    if n > 0 {
        lemma_slots_shut_out(w, region, min, max, data, (n - 1) as nat, c);
    }
}

/// Absorbing names leaves the palette it started from as the beginning of the
/// palette it ends with.
pub proof fn lemma_absorb_extends(palette: Seq<Seq<char>>, cells: Seq<Option<Seq<char>>>)
    requires
        palette.no_duplicates(),
    ensures
        absorb(palette, cells).no_duplicates(),
        palette.len() <= absorb(palette, cells).len(),
        forall|i: int| 0 <= i < palette.len() ==> #[trigger] absorb(palette, cells)[i] == palette[i],
{
    lemma_absorb(palette, cells);
    let after = absorb(palette, cells);
    assert forall|i: int| 0 <= i < palette.len() implies #[trigger] after[i] == palette[i] by {
        crate::palette::lemma_id_at(palette, i);
        assert(after.contains(palette[i]));
    }
}

/// Reading a region keeps the palette free of repeats and every name at its id:
/// the palette before is the beginning of the palette after, whether or not
/// the reading fails.
pub proof fn law_region_keeps_ids(
    w: WorldView,
    region: Vec2,
    min: Option<Vec2>,
    max: Option<Vec2>,
    data: Seq<u8>,
)
    requires
        w.palette.no_duplicates(),
    ensures
        after_region(w, region, min, max, data).world.palette.no_duplicates(),
        w.palette.len() <= after_region(w, region, min, max, data).world.palette.len(),
        forall|i: int|
            0 <= i < w.palette.len() ==> #[trigger] after_region(
                w,
                region,
                min,
                max,
                data,
            ).world.palette[i] == w.palette[i],
{
    lemma_slots_keep_ids(w, region, min, max, data, 1024);
}

proof fn lemma_slots_keep_ids(
    w: WorldView,
    region: Vec2,
    min: Option<Vec2>,
    max: Option<Vec2>,
    data: Seq<u8>,
    n: nat,
)
    requires
        w.palette.no_duplicates(),
    ensures
        after_slots(w, region, min, max, data, n).world.palette.no_duplicates(),
        w.palette.len() <= after_slots(w, region, min, max, data, n).world.palette.len(),
        forall|i: int|
            0 <= i < w.palette.len() ==> #[trigger] after_slots(
                w,
                region,
                min,
                max,
                data,
                n,
            ).world.palette[i] == w.palette[i],
    decreases n,
{
    if n > 0 {
        lemma_slots_keep_ids(w, region, min, max, data, (n - 1) as nat);
        let before = after_slots(w, region, min, max, data, (n - 1) as nat);
        let after = after_slots(w, region, min, max, data, n);
        if after.world.palette != before.world.palette {
            let x = (n - 1) / 32;
            let z = (n - 1) % 32;
            let payload = slot_payload(data, x as int, z as int)->0;
            lemma_absorb_extends(before.world.palette, cells_of(payload_blocks(payload)));
        }
    }
}

impl Fault {
    /// The slot that the fault lies in, where it lies in one.
    pub open spec fn slot(self) -> Option<(int, int)> {
        match self {
            Fault::Truncated => None,
            Fault::Unreadable { x, z } => Some((x as int, z as int)),
            Fault::Hollow { x, z } => Some((x as int, z as int)),
            Fault::Malformed { x, z } => Some((x as int, z as int)),
            Fault::Unsound { x, z } => Some((x as int, z as int)),
        }
    }
}

/// A failure names the first slot that failed: no slot before it failed, and
/// it is that slot which fails in that way. A hollow slot is one that declares
/// a length of zero.
pub proof fn law_fault_is_first(
    w: WorldView,
    region: Vec2,
    min: Option<Vec2>,
    max: Option<Vec2>,
    data: Seq<u8>,
    n: nat,
    fault: Fault,
)
    requires
        n <= 1024,
        after_slots(w, region, min, max, data, n).failure == Some(fault),
    ensures
        fault.slot() matches Some(at) && 0 <= at.0 < 32 && 0 <= at.1 < 32 && at.0 * 32 + at.1 < n
            && after_slots(w, region, min, max, data, (at.0 * 32 + at.1) as nat).failure is None
            && after_slot(
            after_slots(w, region, min, max, data, (at.0 * 32 + at.1) as nat).world,
            region,
            min,
            max,
            data,
            at.0,
            at.1,
        ).failure == Some(fault) && (fault is Hollow ==> slot_is_hollow(data, at.0, at.1)),
    decreases n,
{
    if n > 0 {
        let before = after_slots(w, region, min, max, data, (n - 1) as nat);
        if before.failure is Some {
            law_fault_is_first(w, region, min, max, data, (n - 1) as nat, fault);
        } else {
            let x = (n - 1) / 32;
            let z = (n - 1) % 32;
            assert(x * 32 + z == n - 1);
        }
    }
}

/// Where the names of a chunk come from.
enum CellSource<'a> {
    /// A chunk that the codec decoded.
    Decoded(&'a fastanvil::complete::Chunk),
    /// A list of names in index order.
    Listed(&'a Vec<Option<String>>),
}

impl<'a> CellSource<'a> {
    spec fn cells(&self) -> Seq<Option<Seq<char>>> {
        match self {
            CellSource::Decoded(chunk) => cells_of(payload_blocks(chunk_source(**chunk))),
            CellSource::Listed(names) => cells_listed(names@),
        }
    }

    /// Whether names can be asked of the source: a decoded chunk must come from
    /// a sound payload.
    spec fn ready(&self) -> bool {
        match self {
            CellSource::Decoded(chunk) => is_sound(chunk_source(**chunk)),
            CellSource::Listed(_) => true,
        }
    }

    fn name_at(&self, i: usize) -> (name: Option<&str>)
        requires
            i < CHUNK_CELLS,
            self.ready(),
        ensures
            match name {
                Some(n) => self.cells()[i as int] == Some(n@),
                None => self.cells()[i as int] is None,
            },
    {
        match self {
            CellSource::Decoded(chunk) => {
                let (x, y, z) = cell_coords(i);
                block_name_at(chunk, x, y as isize, z)
            },
            CellSource::Listed(names) => {
                if i < names.len() {
                    match &names[i] {
                        Some(name) => Some(name.as_str()),
                        None => None,
                    }
                } else {
                    None
                }
            },
        }
    }
}

/// Reads slot `(x, z)` of a region, without handing the codec a slot that
/// declares a length of zero.
fn fetch_slot(
    region: &mut fastanvil::Region<std::io::Cursor<&[u8]>>,
    bytes: &[u8],
    x: usize,
    z: usize,
) -> (res: Result<Option<Vec<u8>>, IngestError>)
    requires
        x < 32,
        z < 32,
        bytes@.len() >= LOCATION_TABLE_BYTES,
        region_data(*old(region)) == bytes@,
    ensures
        region_data(*final(region)) == bytes@,
        match res {
            Ok(None) => slot_read(bytes@, x as int, z as int) == SlotRead::Vacant,
            Ok(Some(payload)) => slot_read(bytes@, x as int, z as int) == SlotRead::Payload(
                payload@,
            ),
            Err(e) => match slot_read(bytes@, x as int, z as int) {
                SlotRead::Hollow => e.fault() == (Fault::Hollow { x, z }),
                SlotRead::Unreadable => e.fault() == (Fault::Unreadable { x, z }),
                _ => false,
            },
        },
{
    if declares_nothing(bytes, x, z) {
        return Err(IngestError::HollowSlot { x, z });
    }
    match read_slot(region, x, z) {
        Ok(payload) => Ok(payload),
        Err(error) => Err(IngestError::Slot { x, z, error }),
    }
}

/// Whether a height map of `len` entries is one that the decoder unpacks for a
/// chunk saved by version `version`.
/// Whether slot `(x, z)` is allocated but declares a length of zero.
fn declares_nothing(bytes: &[u8], x: usize, z: usize) -> (hollow: bool)
    requires
        x < 32,
        z < 32,
        bytes@.len() >= LOCATION_TABLE_BYTES,
    ensures
        hollow == slot_is_hollow(bytes@, x as int, z as int),
{
    let e: usize = 4 * (x + 32 * z);
    let sector: u64 = bytes[e] as u64 * 65536 + bytes[e + 1] as u64 * 256 + bytes[e + 2] as u64;
    if sector == 0 && bytes[e + 3] == 0 {
        return false;
    }
    let start: u64 = sector * 4096;
    if start + 5 > bytes.len() as u64 {
        return false;
    }
    let s: usize = start as usize;
    bytes[s] == 0 && bytes[s + 1] == 0 && bytes[s + 2] == 0 && bytes[s + 3] == 0
}

impl McWorld {
    /// Turns the names of one chunk into an array of ids, cell by cell in index
    /// order, adding each new name to the palette.
    fn encode_cells(&mut self, source: &CellSource) -> (cells: Vec<usize>)
        requires
            old(self).wf(),
            source.ready(),
        ensures
            final(self).wf(),
            final(self)@.chunks == old(self)@.chunks,
            final(self)@.palette == absorb(old(self)@.palette, source.cells()),
            cells@ == encode(final(self)@.palette, source.cells()),
            cells_fit(cells@, final(self)@.palette.len()),
    {
        let ghost start = self@;
        let ghost grid = source.cells();
        let mut cells: Vec<usize> = vec![0usize; CHUNK_CELLS];
        let mut i: usize = 0;
        proof {
            assert(grid.take(0) =~= Seq::empty());
        }
        while i < CHUNK_CELLS
            invariant
                i <= CHUNK_CELLS,
                source.ready(),
                grid == source.cells(),
                grid.len() == CHUNK_CELLS,
                self.wf(),
                self@.chunks == start.chunks,
                self@.palette == absorb(start.palette, grid.take(i as int)),
                cells@.len() == CHUNK_CELLS,
                forall|j: int| 0 <= j < i ==> #[trigger] cells@[j] == encode(self@.palette, grid)[j],
                forall|j: int|
                    0 <= j < i ==> (#[trigger] grid[j] matches Some(name)
                        ==> self@.palette.contains(name)),
                forall|j: int| i <= j < CHUNK_CELLS ==> #[trigger] cells@[j] == 0,
            decreases CHUNK_CELLS - i,
        {
            let ghost before = self@.palette;
            proof {
                assert(grid.take(i + 1).drop_last() =~= grid.take(i as int));
                assert(grid.take(i + 1).last() == grid[i as int]);
            }
            match source.name_at(i) {
                Some(name) => {
                    proof {
                        lemma_with_name(before, name@);
                    }
                    let id: usize = self.intern(name);
                    cells.set(i, id);
                },
                None => {},
            }
            proof {
                assert forall|j: int| 0 <= j < i implies #[trigger] cells@[j] == encode(
                    self@.palette,
                    grid,
                )[j] by {
                    assert(cells@[j] == encode(before, grid)[j]);
                    match grid[j] {
                        Some(other) => {
                            assert(before.contains(other));
                        },
                        None => {},
                    }
                }
            }
            i = i + 1;
        }
        proof {
            assert(grid.take(CHUNK_CELLS as int) =~= grid);
            assert(cells@ =~= encode(self@.palette, grid));
            lemma_encode_fits(start.palette, grid);
        }
        cells
    }

    /// Ingests one chunk from a list of names in index order: `names[i]` is the
    /// block of cell `i`, `None` where the cell has none. Cells past the end of
    /// the list have no block, and entries past the last cell are ignored.
    pub fn ingest_chunk(&mut self, pos: Vec2, names: &Vec<Option<String>>)
        requires
            old(self).wf(),
        ensures
            final(self).wf(),
            final(self)@ == with_chunk(
                old(self)@,
                (pos.x as int, pos.z as int),
                cells_listed(names@),
            ),
    {
        let source = CellSource::Listed(names);
        let cells = self.encode_cells(&source);
        self.store(pos.x as i64, pos.z as i64, cells);
    }

    /// Ingests slot `(x, z)` of a region, if it passes the bounds and holds a
    /// chunk.
    fn ingest_slot(
        &mut self,
        region: &mut fastanvil::Region<std::io::Cursor<&[u8]>>,
        bytes: &[u8],
        region_pos: Vec2,
        min_chunk_pos: &Option<Vec2>,
        max_chunk_pos: &Option<Vec2>,
        x: usize,
        z: usize,
    ) -> (res: Result<(), IngestError>)
        requires
            old(self).wf(),
            x < 32,
            z < 32,
            bytes@.len() >= LOCATION_TABLE_BYTES,
            region_data(*old(region)) == bytes@,
        ensures
            final(self).wf(),
            region_data(*final(region)) == bytes@,
            final(self)@ == after_slot(
                old(self)@,
                region_pos,
                *min_chunk_pos,
                *max_chunk_pos,
                bytes@,
                x as int,
                z as int,
            ).world,
            match res {
                Ok(_) => after_slot(
                    old(self)@,
                    region_pos,
                    *min_chunk_pos,
                    *max_chunk_pos,
                    bytes@,
                    x as int,
                    z as int,
                ).failure is None,
                Err(e) => after_slot(
                    old(self)@,
                    region_pos,
                    *min_chunk_pos,
                    *max_chunk_pos,
                    bytes@,
                    x as int,
                    z as int,
                ).failure == Some(e.fault()),
            },
    {
        let cx: i64 = region_pos.x as i64 * 32 + x as i64;
        let cz: i64 = region_pos.z as i64 * 32 + z as i64;
        if !chunk_passes(cx, cz, min_chunk_pos, max_chunk_pos) {
            return Ok(());
        }
        let payload = match fetch_slot(region, bytes, x, z) {
            Ok(Some(payload)) => payload,
            Ok(None) => {
                return Ok(());
            },
            Err(e) => {
                return Err(e);
            },
        };
        if !payload_walks(payload.as_slice()) {
            return Err(IngestError::Chunk { x, z, error: None });
        }
        let parsed = match parse_chunk(payload.as_slice()) {
            Ok(parsed) => parsed,
            Err(error) => {
                return Err(IngestError::Chunk { x, z, error: Some(error) });
            },
        };
        if !chunk_is_sound(&parsed, payload.as_slice()) {
            return Err(IngestError::UnsoundChunk { x, z });
        }
        let chunk = match decode_chunk(payload.as_slice()) {
            Ok(chunk) => chunk,
            Err(error) => {
                return Err(IngestError::Chunk { x, z, error: Some(error) });
            },
        };
        let source = CellSource::Decoded(&chunk);
        let cells = self.encode_cells(&source);
        self.store(cx, cz, cells);
        Ok(())
    }

    /// Ingests the region file `bytes`, which holds the region at `region_pos`.
    ///
    /// Chunks outside the optional inclusive bounds `min_chunk_pos` and
    /// `max_chunk_pos` are passed over. The call fails where the container or a
    /// chunk in it cannot be decoded; what was stored before the failure stays.
    pub fn read_region(
        &mut self,
        region_pos: Vec2,
        min_chunk_pos: Option<Vec2>,
        max_chunk_pos: Option<Vec2>,
        bytes: &[u8],
    ) -> (res: Result<(), IngestError>)
        requires
            old(self).wf(),
        ensures
            final(self).wf(),
            final(self)@ == after_region(
                old(self)@,
                region_pos,
                min_chunk_pos,
                max_chunk_pos,
                bytes@,
            ).world,
            match res {
                Ok(_) => after_region(
                    old(self)@,
                    region_pos,
                    min_chunk_pos,
                    max_chunk_pos,
                    bytes@,
                ).failure is None,
                Err(e) => after_region(
                    old(self)@,
                    region_pos,
                    min_chunk_pos,
                    max_chunk_pos,
                    bytes@,
                ).failure == Some(e.fault()),
            },
            untouched_outside(old(self)@, final(self)@, min_chunk_pos, max_chunk_pos),
    {
        let ghost start = self@;
        let res = self.read_slots(region_pos, min_chunk_pos, max_chunk_pos, bytes);
        proof {
            assert forall|c: (int, int)|
                !chunk_in_bounds(c.0, c.1, min_chunk_pos, max_chunk_pos) implies (
            #[trigger] self@.chunks.contains_key(c)) == start.chunks.contains_key(c) && (
            start.chunks.contains_key(c) ==> self@.chunks[c] == start.chunks[c]) by {
                law_bounds_shut_out(start, region_pos, min_chunk_pos, max_chunk_pos, bytes@, c);
            }
            assert(untouched_outside(start, self@, min_chunk_pos, max_chunk_pos));
        }
        res
    }

    /// Opens the region and ingests its slots in turn.
    fn read_slots(
        &mut self,
        region_pos: Vec2,
        min_chunk_pos: Option<Vec2>,
        max_chunk_pos: Option<Vec2>,
        bytes: &[u8],
    ) -> (res: Result<(), IngestError>)
        requires
            old(self).wf(),
        ensures
            final(self).wf(),
            final(self)@ == after_region(
                old(self)@,
                region_pos,
                min_chunk_pos,
                max_chunk_pos,
                bytes@,
            ).world,
            match res {
                Ok(_) => after_region(
                    old(self)@,
                    region_pos,
                    min_chunk_pos,
                    max_chunk_pos,
                    bytes@,
                ).failure is None,
                Err(e) => after_region(
                    old(self)@,
                    region_pos,
                    min_chunk_pos,
                    max_chunk_pos,
                    bytes@,
                ).failure == Some(e.fault()),
            },
    {
        let ghost start = self@;
        let mut region = match open_region(bytes) {
            Ok(region) => region,
            Err(e) => {
                return Err(IngestError::Region(e));
            },
        };
        let mut x: usize = 0;
        while x < 32
            invariant
                x <= 32,
                start == old(self)@,
                self.wf(),
                bytes@.len() >= LOCATION_TABLE_BYTES,
                region_data(region) == bytes@,
                after_slots(
                    start,
                    region_pos,
                    min_chunk_pos,
                    max_chunk_pos,
                    bytes@,
                    (x * 32) as nat,
                ) == (Ingested { world: self@, failure: None }),
            decreases 32 - x,
        {
            let mut z: usize = 0;
            while z < 32
                invariant
                    x < 32,
                    z <= 32,
                    start == old(self)@,
                    self.wf(),
                    bytes@.len() >= LOCATION_TABLE_BYTES,
                    region_data(region) == bytes@,
                    after_slots(
                        start,
                        region_pos,
                        min_chunk_pos,
                        max_chunk_pos,
                        bytes@,
                        (x * 32 + z) as nat,
                    ) == (Ingested { world: self@, failure: None }),
                decreases 32 - z,
            {
                let ghost n = (x * 32 + z) as nat;
                let ghost before = self@;
                let step = self.ingest_slot(
                    &mut region,
                    bytes,
                    region_pos,
                    &min_chunk_pos,
                    &max_chunk_pos,
                    x,
                    z,
                );
                proof {
                    assert(n / 32 == x && n % 32 == z);
                    assert((n + 1 - 1) as nat == n);
                    assert(after_slots(
                        start,
                        region_pos,
                        min_chunk_pos,
                        max_chunk_pos,
                        bytes@,
                        n + 1,
                    ) == after_slot(
                        before,
                        region_pos,
                        min_chunk_pos,
                        max_chunk_pos,
                        bytes@,
                        x as int,
                        z as int,
                    ));
                }
                match step {
                    Ok(_) => {},
                    Err(e) => {
                        proof {
                            lemma_failure_ends(
                                start,
                                region_pos,
                                min_chunk_pos,
                                max_chunk_pos,
                                bytes@,
                                n + 1,
                                1024,
                            );
                        }
                        return Err(e);
                    },
                }
                z = z + 1;
            }
            x = x + 1;
        }
        Ok(())
    }
}

} // verus!
