//! The world: one palette and the chunks stored so far, each chunk an array of
//! palette ids.
//!
//! Chunks are only ever added or replaced. A cell of a stored chunk holds the id
//! of the block name found there, or 0 where no block was found.

use crate::coords::{Vec2, CHUNK_CELLS};
use crate::palette::{id_of, with_name, Palette};
use std::collections::HashMap;
use vstd::prelude::*;

verus! {

/// What a world holds: the palette's names in id order, and the chunk arrays by
/// chunk coordinate `(x, z)`.
pub struct WorldView {
    pub palette: Seq<Seq<char>>,
    pub chunks: Map<(int, int), Seq<usize>>,
}

/// The smallest and largest chunk `x`, and the smallest and largest chunk `z`, of
/// the stored chunks. The two axes are measured on their own: no chunk need sit
/// in a corner.
#[derive(Clone, Copy, Debug, PartialEq, Eq, Structural)]
pub struct Extent {
    pub min_x: i64,
    pub max_x: i64,
    pub min_z: i64,
    pub max_z: i64,
}

/// Smallest chunk coordinate along an axis: that of the first chunk of the
/// region at the smallest 32-bit region coordinate.
pub const COORD_MIN: i64 = -68719476736;

/// Largest chunk coordinate along an axis: that of the last chunk of the region
/// at the largest 32-bit region coordinate.
pub const COORD_MAX: i64 = 68719476735;

/// Whether `c` is a chunk coordinate: on each axis, 32 times a 32-bit region
/// coordinate plus an offset below 32.
pub open spec fn is_coord(c: (int, int)) -> bool {
    &&& COORD_MIN <= c.0 <= COORD_MAX
    &&& COORD_MIN <= c.1 <= COORD_MAX
}

/// Whether `e` gives the extent of the coordinates in `dom`.
pub open spec fn is_extent(dom: Set<(int, int)>, e: Extent) -> bool {
    &&& exists|c: (int, int)| #[trigger] dom.contains(c) && c.0 == e.min_x
    &&& exists|c: (int, int)| #[trigger] dom.contains(c) && c.0 == e.max_x
    &&& exists|c: (int, int)| #[trigger] dom.contains(c) && c.1 == e.min_z
    &&& exists|c: (int, int)| #[trigger] dom.contains(c) && c.1 == e.max_z
    &&& forall|c: (int, int)| #[trigger]
        dom.contains(c) ==> e.min_x <= c.0 <= e.max_x && e.min_z <= c.1 <= e.max_z
}

/// A set of coordinates has at most one extent.
pub proof fn lemma_extent_unique(dom: Set<(int, int)>, a: Extent, b: Extent)
    requires
        is_extent(dom, a),
        is_extent(dom, b),
    ensures
        a == b,
{
}

/// Whether an array can be stored as a chunk under a palette of `names` names:
/// it has one entry per cell, and each entry is 0 or an id of the palette.
pub open spec fn cells_fit(cells: Seq<usize>, names: nat) -> bool {
    &&& cells.len() == CHUNK_CELLS
    &&& forall|i: int| 0 <= i < cells.len() ==> cells[i] == 0 || #[trigger] cells[i] < names
}

impl WorldView {
    /// The world with nothing in it.
    pub open spec fn empty() -> WorldView {
        WorldView { palette: Seq::empty(), chunks: Map::empty() }
    }

    /// What every world satisfies: no name occurs twice in the palette, chunks
    /// sit at chunk coordinates, and every chunk array fits the palette.
    pub open spec fn valid(self) -> bool {
        &&& self.palette.no_duplicates()
        &&& forall|c: (int, int)| #[trigger] self.chunks.contains_key(c) ==> is_coord(c)
        &&& forall|c: (int, int)| #[trigger]
            self.chunks.contains_key(c) ==> cells_fit(self.chunks[c], self.palette.len())
    }

    /// Whether no chunk is stored.
    pub open spec fn is_blank(self) -> bool {
        forall|c: (int, int)| !self.chunks.contains_key(c)
    }

    /// The id in the cell at local `(x, y, z)` of the chunk at `c`.
    pub open spec fn cell(self, c: (int, int), x: int, y: int, z: int) -> usize {
        self.chunks[c][crate::coords::cell_index(x, y, z)]
    }
}

/// The single integer under which the chunk at `(x, z)` is filed.
pub open spec fn key_of(x: int, z: int) -> int {
    x * 137438953472 + (z + 68719476736)
}

/// The chunk `x` that a key was made from.
pub open spec fn key_x(k: int) -> int {
    k / 137438953472
}

/// The chunk `z` that a key was made from.
pub open spec fn key_z(k: int) -> int {
    k % 137438953472 - 68719476736
}

proof fn lemma_key_roundtrip(x: int, z: int)
    requires
        is_coord((x, z)),
    ensures
        i128::MIN <= key_of(x, z) <= i128::MAX,
        key_x(key_of(x, z)) == x,
        key_z(key_of(x, z)) == z,
{
}

fn chunk_key(x: i64, z: i64) -> (k: i128)
    requires
        is_coord((x as int, z as int)),
    ensures
        k == key_of(x as int, z as int),
{
    x as i128 * 137438953472 + (z as i128 + 68719476736)
}

/// The extent after a chunk at `(x, z)` joins chunks of extent `e`.
fn widen(e: Option<Extent>, x: i64, z: i64) -> (w: Extent)
    ensures
        w == (match e {
            Some(e) => Extent {
                min_x: if x < e.min_x { x } else { e.min_x },
                max_x: if x > e.max_x { x } else { e.max_x },
                min_z: if z < e.min_z { z } else { e.min_z },
                max_z: if z > e.max_z { z } else { e.max_z },
            },
            None => Extent { min_x: x, max_x: x, min_z: z, max_z: z },
        }),
{
    match e {
        Some(e) => Extent {
            min_x: if x < e.min_x { x } else { e.min_x },
            max_x: if x > e.max_x { x } else { e.max_x },
            min_z: if z < e.min_z { z } else { e.min_z },
            max_z: if z > e.max_z { z } else { e.max_z },
        },
        None => Extent { min_x: x, max_x: x, min_z: z, max_z: z },
    }
}

/// A voxel world: a palette of block names and the chunks ingested so far.
pub struct McWorld {
    palette: Palette,
    chunks: HashMap<i128, Vec<usize>>,
    extent: Option<Extent>,
}

impl View for McWorld {
    type V = WorldView;

    closed spec fn view(&self) -> WorldView {
        WorldView {
            palette: self.palette@,
            chunks: Map::new(
                |c: (int, int)| is_coord(c) && self.chunks@.contains_key(key_of(c.0, c.1) as i128),
                |c: (int, int)| self.chunks@[key_of(c.0, c.1) as i128]@,
            ),
        }
    }
}

impl McWorld {
    /// The stored data is consistent: the palette's lookup table agrees with its
    /// names, every chunk is filed under the key of a chunk coordinate, and the
    /// recorded extent is that of the stored chunks.
    pub closed spec fn inv(&self) -> bool {
        &&& self.palette.wf()
        &&& forall|k: i128| #[trigger]
            self.chunks@.contains_key(k) ==> is_coord((key_x(k as int), key_z(k as int))) && k
                == key_of(key_x(k as int), key_z(k as int))
        &&& match self.extent {
            Some(e) => is_extent(self@.chunks.dom(), e),
            None => self@.is_blank(),
        }
    }

    /// The world is consistent, and what it holds is a valid world.
    pub open spec fn wf(&self) -> bool {
        self.inv() && self@.valid()
    }

    /// An empty world.
    pub fn new() -> (world: McWorld)
        ensures
            world.wf(),
            world@ == WorldView::empty(),
    {
        let world = McWorld { palette: Palette::new(), chunks: HashMap::new(), extent: None };
        proof {
            assert(world@.chunks =~= Map::empty());
        }
        world
    }

    /// The palette.
    pub fn palette(&self) -> (p: &Palette)
        ensures
            p@ == self@.palette,
            self.wf() ==> p.wf(),
    {
        &self.palette
    }

    /// Whether no chunk is stored.
    pub fn is_empty(&self) -> (b: bool)
        requires
            self.wf(),
        ensures
            b == self@.is_blank(),
    {
        proof {
            match self.extent {
                Some(e) => {
                    let c = choose|c: (int, int)| #[trigger]
                        self@.chunks.dom().contains(c) && c.0 == e.min_x;
                    assert(self@.chunks.contains_key(c));
                },
                None => {},
            }
        }
        self.extent.is_none()
    }

    /// The extent of the stored chunks, if there are any.
    pub fn extent(&self) -> (e: Option<Extent>)
        requires
            self.wf(),
        ensures
            match e {
                Some(e) => is_extent(self@.chunks.dom(), e),
                None => self@.is_blank(),
            },
    {
        self.extent
    }

    /// The array of the chunk at `(x, z)`, if one is stored there.
    pub fn chunk(&self, x: i64, z: i64) -> (cells: Option<&Vec<usize>>)
        requires
            self.wf(),
        ensures
            match cells {
                Some(cells) => self@.chunks.contains_key((x as int, z as int)) && cells@
                    == self@.chunks[(x as int, z as int)],
                None => !self@.chunks.contains_key((x as int, z as int)),
            },
    {
        broadcast use vstd::std_specs::hash::group_hash_axioms;

        if x < COORD_MIN || x > COORD_MAX || z < COORD_MIN || z > COORD_MAX {
            return None;
        }
        let key: i128 = chunk_key(x, z);
        proof {
            lemma_key_roundtrip(x as int, z as int);
        }
        self.chunks.get(&key)
    }

    /// Whether a chunk is stored at `pos`.
    pub fn has_chunk(&self, pos: Vec2) -> (b: bool)
        requires
            self.wf(),
        ensures
            b == self@.chunks.contains_key((pos.x as int, pos.z as int)),
    {
        self.chunk(pos.x as i64, pos.z as i64).is_some()
    }

    /// The id of `name` in the palette, to which the name is added if it is new.
    /// No chunk changes.
    pub(crate) fn intern(&mut self, name: &str) -> (id: usize)
        requires
            old(self).wf(),
        ensures
            final(self).wf(),
            final(self)@.palette == with_name(old(self)@.palette, name@),
            final(self)@.chunks == old(self)@.chunks,
            id == id_of(final(self)@.palette, name@),
            id < final(self)@.palette.len(),
    {
        let ghost before = *self;
        let id: usize = self.palette.get_or_create(name);
        proof {
            crate::palette::lemma_with_name(before@.palette, name@);
            assert(self@.chunks =~= before@.chunks);
            assert forall|c: (int, int)| #[trigger] self@.chunks.contains_key(c) implies cells_fit(
                self@.chunks[c],
                self@.palette.len(),
            ) by {
                assert(before@.chunks.contains_key(c));
                assert(cells_fit(before@.chunks[c], before@.palette.len()));
            }
        }
        id
    }

    /// Stores `cells` as the chunk at `(x, z)`, in place of any chunk stored
    /// there before. Nothing else changes.
    pub(crate) fn store(&mut self, x: i64, z: i64, cells: Vec<usize>)
        requires
            old(self).wf(),
            is_coord((x as int, z as int)),
            cells_fit(cells@, old(self)@.palette.len()),
        ensures
            final(self).wf(),
            final(self)@.palette == old(self)@.palette,
            final(self)@.chunks == old(self)@.chunks.insert((x as int, z as int), cells@),
    {
        broadcast use vstd::std_specs::hash::group_hash_axioms;

        let ghost before = *self;
        let ghost at = (x as int, z as int);
        let key: i128 = chunk_key(x, z);
        let extent = widen(self.extent, x, z);
        proof {
            lemma_key_roundtrip(x as int, z as int);
        }
        self.chunks.insert(key, cells);
        self.extent = Some(extent);
        proof {
            assert forall|c: (int, int)| is_coord(c) && c != at implies key_of(c.0, c.1)
                != key_of(at.0, at.1) by {
                lemma_key_roundtrip(c.0, c.1);
            }
            assert(self@.chunks =~= before@.chunks.insert(at, cells@));
            assert(self@.chunks.dom().contains(at));
            match before.extent {
                Some(e) => {
                    let c0 = choose|c: (int, int)| #[trigger]
                        before@.chunks.dom().contains(c) && c.0 == e.min_x;
                    let c1 = choose|c: (int, int)| #[trigger]
                        before@.chunks.dom().contains(c) && c.0 == e.max_x;
                    let c2 = choose|c: (int, int)| #[trigger]
                        before@.chunks.dom().contains(c) && c.1 == e.min_z;
                    let c3 = choose|c: (int, int)| #[trigger]
                        before@.chunks.dom().contains(c) && c.1 == e.max_z;
                    assert(self@.chunks.dom().contains(c0));
                    assert(self@.chunks.dom().contains(c1));
                    assert(self@.chunks.dom().contains(c2));
                    assert(self@.chunks.dom().contains(c3));
                    assert forall|c: (int, int)| #[trigger]
                        self@.chunks.dom().contains(c) implies extent.min_x <= c.0 <= extent.max_x
                        && extent.min_z <= c.1 <= extent.max_z by {
                        if c != at {
                            assert(before@.chunks.dom().contains(c));
                        }
                    }
                },
                None => {
                    assert forall|c: (int, int)| #[trigger]
                        self@.chunks.dom().contains(c) implies c == at by {
                        if c != at {
                            assert(before@.chunks.contains_key(c));
                        }
                    }
                },
            }
            assert(is_extent(self@.chunks.dom(), extent));
        }
    }
}

} // verus!
