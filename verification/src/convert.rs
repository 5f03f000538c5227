//! Conversion: from stored chunks to a sparse set of placements, each a target
//! id at a position relative to an origin.
//!
//! With both corners of a box given, the cells inside the box are converted and
//! positions are measured from the centre of the box horizontally and from its
//! floor vertically. Otherwise every stored cell is converted, and positions are
//! measured horizontally from the centre of the extent of the stored chunk
//! coordinates, and vertically from 0.

use crate::coords::{
    block_to_chunk, cell_coords, cell_index, centre, centre_of, chunk_of, in_box, is_local,
    lemma_cell_coords, lemma_cell_index, local_of, Vec3, CHUNK_CELLS,
};
use crate::rules::{allowed, lemma_some_target, resolve, target_of, Rule};
use crate::world::{
    is_coord, is_extent, lemma_extent_unique, Extent, McWorld, WorldView, COORD_MAX, COORD_MIN,
};
use vstd::prelude::*;

verus! {

/// One entry of the output: the target id `target` at the relative position
/// `(dx, dy, dz)`.
#[derive(Clone, Copy, Debug, PartialEq, Eq, Hash, Structural)]
pub struct Placement {
    pub dx: i64,
    pub dy: i64,
    pub dz: i64,
    pub target: u16,
}

/// The absolute position of the cell that a placement was made from, given the
/// origin that its coordinates are measured from.
pub open spec fn source(p: Placement, origin: (int, int, int)) -> (int, int, int) {
    (p.dx + origin.0, p.dy + origin.1, p.dz + origin.2)
}

/// The id stored in the cell at the absolute position `g`, if the chunk that
/// holds the position is stored.
pub open spec fn id_at(w: WorldView, g: (int, int, int)) -> Option<usize> {
    let c = (chunk_of(g.0), chunk_of(g.2));
    if 0 <= g.1 < 384 && w.chunks.contains_key(c) {
        Some(w.cell(c, local_of(g.0), g.1, local_of(g.2)))
    } else {
        None
    }
}

/// The target id for the cell at the absolute position `g`, where `targets`
/// gives the target id of each palette id. An id that the palette does not hold
/// has no target.
pub open spec fn target_at(w: WorldView, targets: Seq<Option<u16>>, g: (int, int, int)) -> Option<
    u16,
> {
    match id_at(w, g) {
        Some(id) => if id < targets.len() {
            targets[id as int]
        } else {
            None
        },
        None => None,
    }
}

/// Whether the position `g` is to be converted: inside the box where there is
/// one, anywhere where there is none.
pub open spec fn in_scope(scope: Option<(Vec3, Vec3)>, g: (int, int, int)) -> bool {
    match scope {
        Some((lo, hi)) => in_box(g.0, g.1, g.2, lo, hi),
        None => true,
    }
}

/// Whether `p` belongs in the output: its source is in scope and has the target
/// id that `p` carries.
pub open spec fn belongs(
    w: WorldView,
    scope: Option<(Vec3, Vec3)>,
    origin: (int, int, int),
    targets: Seq<Option<u16>>,
    p: Placement,
) -> bool {
    in_scope(scope, source(p, origin)) && target_at(w, targets, source(p, origin)) == Some(
        p.target,
    )
}

/// Whether `out` lists, each once, exactly the placements that belong in the
/// output.
pub open spec fn is_conversion(
    w: WorldView,
    scope: Option<(Vec3, Vec3)>,
    origin: (int, int, int),
    targets: Seq<Option<u16>>,
    out: Seq<Placement>,
) -> bool {
    &&& out.no_duplicates()
    &&& forall|p: Placement| #[trigger] out.contains(p) <==> belongs(w, scope, origin, targets, p)
}

/// The origin for the box from `lo` to `hi`: its centre horizontally, its floor
/// vertically.
pub open spec fn box_origin(lo: Vec3, hi: Vec3) -> (int, int, int) {
    (centre(lo.x as int, hi.x as int), lo.y as int, centre(lo.z as int, hi.z as int))
}

/// The origin for a world of extent `e`: horizontally the centre of the extent,
/// which is counted in chunks, and 0 vertically.
pub open spec fn extent_origin(e: Extent) -> (int, int, int) {
    (centre(e.min_x as int, e.max_x as int), 0, centre(e.min_z as int, e.max_z as int))
}

/// The extent of the stored chunks of a world that holds some.
pub open spec fn extent_of(w: WorldView) -> Extent {
    choose|e: Extent| is_extent(w.chunks.dom(), e)
}

/// The box that a conversion is bounded by: the one from `min_pos` to `max_pos`
/// where both are given, none where either is missing.
pub open spec fn scope_of(min_pos: Option<Vec3>, max_pos: Option<Vec3>) -> Option<(Vec3, Vec3)> {
    match (min_pos, max_pos) {
        (Some(lo), Some(hi)) => Some((lo, hi)),
        _ => None,
    }
}

/// The origin that a conversion measures positions from: that of the box where
/// there is one, else that of the extent of the stored chunks.
pub open spec fn origin_of(w: WorldView, min_pos: Option<Vec3>, max_pos: Option<Vec3>) -> (
    int,
    int,
    int,
) {
    match (min_pos, max_pos) {
        (Some(lo), Some(hi)) => box_origin(lo, hi),
        _ => extent_origin(extent_of(w)),
    }
}

/// Whether `out` is the conversion of the world `w` for the given corners. Of a
/// world without chunks it is empty.
pub open spec fn converts(
    w: WorldView,
    min_pos: Option<Vec3>,
    max_pos: Option<Vec3>,
    targets: Seq<Option<u16>>,
    out: Seq<Placement>,
) -> bool {
    is_conversion(w, scope_of(min_pos, max_pos), origin_of(w, min_pos, max_pos), targets, out)
}

/// The block name in the cell at the absolute position `g`, where the cell is
/// stored and holds an id of the palette.
pub open spec fn name_at(w: WorldView, g: (int, int, int)) -> Option<Seq<char>> {
    match id_at(w, g) {
        Some(id) => if id < w.palette.len() {
            Some(w.palette[id as int])
        } else {
            None
        },
        None => None,
    }
}

/// The target id of each palette id where every name is portable: that which
/// `rules` give its name.
pub open spec fn targets_of(palette: Seq<Seq<char>>, rules: Seq<Rule>) -> Seq<Option<u16>> {
    Seq::new(palette.len(), |id: int| target_of(rules, palette[id]))
}

/// Whether `targets` gives each palette id a target id that `rules` can give
/// its name.
pub open spec fn resolves(palette: Seq<Seq<char>>, rules: Seq<Rule>, targets: Seq<Option<u16>>) -> bool {
    &&& targets.len() == palette.len()
    &&& forall|id: int|
        0 <= id < palette.len() ==> allowed(rules, palette[id], #[trigger] targets[id])
}

/// Some table of target ids resolves every palette.
pub proof fn lemma_some_targets(palette: Seq<Seq<char>>, rules: Seq<Rule>)
    ensures
        resolves(palette, rules, targets_of(palette, rules)),
{
    assert forall|id: int| 0 <= id < palette.len() implies allowed(
        rules,
        palette[id],
        #[trigger] targets_of(palette, rules)[id],
    ) by {
        lemma_some_target(rules, palette[id]);
    }
}

/// Whether the source of `p` is cell number `i` of the chunk at `(cx, cz)`.
pub open spec fn from_cell(p: Placement, origin: (int, int, int), cx: int, cz: int, i: int) -> bool {
    let g = source(p, origin);
    &&& chunk_of(g.0) == cx
    &&& chunk_of(g.2) == cz
    &&& 0 <= g.1 < 384
    &&& cell_index(local_of(g.0), g.1, local_of(g.2)) == i
}

/// Whether the source of `p` lies in a chunk that comes before `(cx, cz)` when
/// the chunks of `x0..=x1` by `z0..=z1` are taken with `x` as the outer and `z`
/// as the inner index.
pub open spec fn from_before(
    p: Placement,
    origin: (int, int, int),
    x0: int,
    z0: int,
    z1: int,
    cx: int,
    cz: int,
) -> bool {
    let g = source(p, origin);
    &&& z0 <= chunk_of(g.2) <= z1
    &&& x0 <= chunk_of(g.0)
    &&& chunk_of(g.0) < cx || (chunk_of(g.0) == cx && chunk_of(g.2) < cz)
}

/// The placement whose source is the cell at local `(x, y, z)` of the chunk at
/// `(cx, cz)` is the only placement with that source and target.
proof fn lemma_cell_placement(
    p: Placement,
    origin: (int, int, int),
    cx: int,
    cz: int,
    x: int,
    y: int,
    z: int,
)
    requires
        is_local(x, y, z),
        from_cell(p, origin, cx, cz, cell_index(x, y, z)),
    ensures
        source(p, origin) == (cx * 16 + x, y, cz * 16 + z),
{
    let g = source(p, origin);
    lemma_cell_index(local_of(g.0), g.1, local_of(g.2));
    lemma_cell_index(x, y, z);
}

/// A position in the chunk at `(cx, cz)` with local offsets `(x, z)`.
proof fn lemma_chunk_position(cx: int, cz: int, x: int, y: int, z: int)
    requires
        is_local(x, y, z),
    ensures
        chunk_of(cx * 16 + x) == cx,
        chunk_of(cz * 16 + z) == cz,
        local_of(cx * 16 + x) == x,
        local_of(cz * 16 + z) == z,
{
}

impl McWorld {
    /// Adds to `out` the placements of the chunk at `(cx, cz)`, whose array is
    /// `cells`, in index order.
    fn convert_chunk(
        &self,
        cells: &Vec<usize>,
        cx: i64,
        cz: i64,
        scope: &Option<(Vec3, Vec3)>,
        origin: (i64, i64, i64),
        targets: &Vec<Option<u16>>,
        out: &mut Vec<Placement>,
    )
        requires
            self.wf(),
            is_coord((cx as int, cz as int)),
            self@.chunks.contains_key((cx as int, cz as int)),
            cells@ == self@.chunks[(cx as int, cz as int)],
            COORD_MIN * 16 <= origin.0 <= COORD_MAX * 16,
            COORD_MIN * 16 <= origin.1 <= COORD_MAX * 16,
            COORD_MIN * 16 <= origin.2 <= COORD_MAX * 16,
            old(out)@.no_duplicates(),
            forall|p: Placement| #[trigger]
                old(out)@.contains(p) ==> !(chunk_of(
                    source(p, (origin.0 as int, origin.1 as int, origin.2 as int)).0,
                ) == cx && chunk_of(
                    source(p, (origin.0 as int, origin.1 as int, origin.2 as int)).2,
                ) == cz),
        ensures
            final(out)@.no_duplicates(),
            forall|p: Placement| #[trigger]
                final(out)@.contains(p) <==> old(out)@.contains(p) || (belongs(
                    self@,
                    *scope,
                    (origin.0 as int, origin.1 as int, origin.2 as int),
                    targets@,
                    p,
                ) && chunk_of(source(p, (origin.0 as int, origin.1 as int, origin.2 as int)).0)
                    == cx && chunk_of(
                    source(p, (origin.0 as int, origin.1 as int, origin.2 as int)).2,
                ) == cz),
    {
        let ghost o = (origin.0 as int, origin.1 as int, origin.2 as int);
        let ghost w = self@;
        let ghost t = targets@;
        let ghost start = out@;
        let mut i: usize = 0;
        while i < CHUNK_CELLS
            invariant
                i <= CHUNK_CELLS,
                w == self@,
                t == targets@,
                o == (origin.0 as int, origin.1 as int, origin.2 as int),
                w.valid(),
                is_coord((cx as int, cz as int)),
                w.chunks.contains_key((cx as int, cz as int)),
                cells@ == w.chunks[(cx as int, cz as int)],
                cells@.len() == CHUNK_CELLS,
                COORD_MIN * 16 <= origin.0 <= COORD_MAX * 16,
                COORD_MIN * 16 <= origin.1 <= COORD_MAX * 16,
                COORD_MIN * 16 <= origin.2 <= COORD_MAX * 16,
                out@.no_duplicates(),
                forall|p: Placement| #[trigger]
                    start.contains(p) ==> !(chunk_of(source(p, o).0) == cx && chunk_of(
                        source(p, o).2,
                    ) == cz),
                forall|p: Placement| #[trigger]
                    out@.contains(p) <==> start.contains(p) || (belongs(w, *scope, o, t, p)
                        && exists|k: int| 0 <= k < i && from_cell(p, o, cx as int, cz as int, k)),
            decreases CHUNK_CELLS - i,
        {
            let (x, y, z) = cell_coords(i);
            let gx: i64 = cx * 16 + x as i64;
            let gy: i64 = y as i64;
            let gz: i64 = cz * 16 + z as i64;
            let inside: bool = match scope {
                Some((lo, hi)) => lo.x as i64 <= gx && gx <= hi.x as i64 && lo.y as i64 <= gy && gy
                    <= hi.y as i64 && lo.z as i64 <= gz && gz <= hi.z as i64,
                None => true,
            };
            let id: usize = cells[i];
            let target: Option<u16> = if inside && id < targets.len() {
                targets[id]
            } else {
                None
            };
            let ghost before = out@;
            let ghost g = (gx as int, gy as int, gz as int);
            proof {
                lemma_cell_coords(i as int);
                lemma_chunk_position(cx as int, cz as int, x as int, y as int, z as int);
                assert(id_at(w, g) == Some(id));
                assert(in_scope(*scope, g) == inside);
            }
            match target {
                Some(target) => {
                    let p = Placement { dx: gx - origin.0, dy: gy - origin.1, dz: gz - origin.2, target };
                    proof {
                        assert(source(p, o) == g);
                        assert(from_cell(p, o, cx as int, cz as int, i as int));
                        assert(belongs(w, *scope, o, t, p));
                        if before.contains(p) {
                            let k = choose|k: int|
                                0 <= k < i && from_cell(p, o, cx as int, cz as int, k);
                            assert(false);
                        }
                    }
                    out.push(p);
                    proof {
                        assert forall|q: Placement| #[trigger]
                            out@.contains(q) <==> start.contains(q) || (belongs(w, *scope, o, t, q)
                                && exists|k: int|
                                0 <= k < i + 1 && from_cell(q, o, cx as int, cz as int, k)) by {
                            vstd::seq_lib::lemma_seq_contains_after_push(before, p, q);
                            if belongs(w, *scope, o, t, q) && from_cell(
                                q,
                                o,
                                cx as int,
                                cz as int,
                                i as int,
                            ) {
                                lemma_cell_placement(
                                    q,
                                    o,
                                    cx as int,
                                    cz as int,
                                    x as int,
                                    y as int,
                                    z as int,
                                );
                                assert(q == p);
                            }
                        }
                    }
                },
                None => {
                    proof {
                        assert forall|q: Placement| #[trigger]
                            out@.contains(q) <==> start.contains(q) || (belongs(w, *scope, o, t, q)
                                && exists|k: int|
                                0 <= k < i + 1 && from_cell(q, o, cx as int, cz as int, k)) by {
                            if belongs(w, *scope, o, t, q) && from_cell(
                                q,
                                o,
                                cx as int,
                                cz as int,
                                i as int,
                            ) {
                                lemma_cell_placement(
                                    q,
                                    o,
                                    cx as int,
                                    cz as int,
                                    x as int,
                                    y as int,
                                    z as int,
                                );
                                assert(source(q, o) == g);
                                assert(false);
                            }
                        }
                    }
                },
            }
            i = i + 1;
        }
        proof {
            assert forall|p: Placement| #[trigger]
                out@.contains(p) <==> start.contains(p) || (belongs(w, *scope, o, t, p) && chunk_of(
                    source(p, o).0,
                ) == cx && chunk_of(source(p, o).2) == cz) by {
                let g = source(p, o);
                if belongs(w, *scope, o, t, p) && chunk_of(g.0) == cx && chunk_of(g.2) == cz {
                    let k = cell_index(local_of(g.0), g.1, local_of(g.2));
                    lemma_cell_index(local_of(g.0), g.1, local_of(g.2));
                    assert(from_cell(p, o, cx as int, cz as int, k));
                }
            }
        }
    }

    /// The placements of the stored chunks in `x0..=x1` by `z0..=z1`, taken with
    /// `x` as the outer and `z` as the inner index.
    fn sweep(
        &self,
        x0: i64,
        x1: i64,
        z0: i64,
        z1: i64,
        scope: &Option<(Vec3, Vec3)>,
        origin: (i64, i64, i64),
        targets: &Vec<Option<u16>>,
    ) -> (out: Vec<Placement>)
        requires
            self.wf(),
            COORD_MIN <= x0 <= COORD_MAX,
            COORD_MIN <= x1 <= COORD_MAX,
            COORD_MIN <= z0 <= COORD_MAX,
            COORD_MIN <= z1 <= COORD_MAX,
            COORD_MIN * 16 <= origin.0 <= COORD_MAX * 16,
            COORD_MIN * 16 <= origin.1 <= COORD_MAX * 16,
            COORD_MIN * 16 <= origin.2 <= COORD_MAX * 16,
        ensures
            out@.no_duplicates(),
            forall|p: Placement| #[trigger]
                out@.contains(p) <==> belongs(
                    self@,
                    *scope,
                    (origin.0 as int, origin.1 as int, origin.2 as int),
                    targets@,
                    p,
                ) && x0 <= chunk_of(
                    source(p, (origin.0 as int, origin.1 as int, origin.2 as int)).0,
                ) <= x1 && z0 <= chunk_of(
                    source(p, (origin.0 as int, origin.1 as int, origin.2 as int)).2,
                ) <= z1,
    {
        let ghost o = (origin.0 as int, origin.1 as int, origin.2 as int);
        let ghost w = self@;
        let ghost t = targets@;
        let mut out: Vec<Placement> = Vec::new();
        let mut cx: i64 = x0;
        while cx <= x1
            invariant
                x0 <= cx,
                cx <= x1 + 1 || cx == x0,
                self.wf(),
                w == self@,
                t == targets@,
                o == (origin.0 as int, origin.1 as int, origin.2 as int),
                COORD_MIN <= x0 <= COORD_MAX,
                COORD_MIN <= x1 <= COORD_MAX,
                COORD_MIN <= z0 <= COORD_MAX,
                COORD_MIN <= z1 <= COORD_MAX,
                COORD_MIN * 16 <= origin.0 <= COORD_MAX * 16,
                COORD_MIN * 16 <= origin.1 <= COORD_MAX * 16,
                COORD_MIN * 16 <= origin.2 <= COORD_MAX * 16,
                out@.no_duplicates(),
                forall|p: Placement| #[trigger]
                    out@.contains(p) <==> belongs(w, *scope, o, t, p) && from_before(
                        p,
                        o,
                        x0 as int,
                        z0 as int,
                        z1 as int,
                        cx as int,
                        z0 as int,
                    ),
            decreases x1 + 1 - cx,
        {
            let mut cz: i64 = z0;
            while cz <= z1
                invariant
                    x0 <= cx <= x1,
                    z0 <= cz,
                    cz <= z1 + 1 || cz == z0,
                    self.wf(),
                    w == self@,
                    t == targets@,
                    o == (origin.0 as int, origin.1 as int, origin.2 as int),
                    COORD_MIN <= x0 <= COORD_MAX,
                    COORD_MIN <= x1 <= COORD_MAX,
                    COORD_MIN <= z0 <= COORD_MAX,
                    COORD_MIN <= z1 <= COORD_MAX,
                    COORD_MIN * 16 <= origin.0 <= COORD_MAX * 16,
                    COORD_MIN * 16 <= origin.1 <= COORD_MAX * 16,
                    COORD_MIN * 16 <= origin.2 <= COORD_MAX * 16,
                    out@.no_duplicates(),
                    forall|p: Placement| #[trigger]
                        out@.contains(p) <==> belongs(w, *scope, o, t, p) && from_before(
                            p,
                            o,
                            x0 as int,
                            z0 as int,
                            z1 as int,
                            cx as int,
                            cz as int,
                        ),
                decreases z1 + 1 - cz,
            {
                match self.chunk(cx, cz) {
                    Some(cells) => {
                        self.convert_chunk(cells, cx, cz, scope, origin, targets, &mut out);
                    },
                    None => {},
                }
                cz = cz + 1;
            }
            cx = cx + 1;
        }
        out
    }

    /// The block name in the cell at the absolute position `pos`, if the chunk
    /// that holds the position is stored and the cell holds an id of the
    /// palette.
    pub fn name_at(&self, pos: Vec3) -> (name: Option<&String>)
        requires
            self.wf(),
        ensures
            match name {
                Some(n) => name_at(self@, (pos.x as int, pos.y as int, pos.z as int)) == Some(n@),
                None => name_at(self@, (pos.x as int, pos.y as int, pos.z as int)) is None,
            },
    {
        if pos.y < 0 || pos.y >= 384 {
            return None;
        }
        let cx: i64 = block_to_chunk(pos.x) as i64;
        let cz: i64 = block_to_chunk(pos.z) as i64;
        let x: i64 = pos.x as i64 - cx * 16;
        let z: i64 = pos.z as i64 - cz * 16;
        match self.chunk(cx, cz) {
            Some(cells) => {
                proof {
                    lemma_cell_index(x as int, pos.y as int, z as int);
                }
                let i: usize = (z * 6144 + pos.y as i64 * 16 + x) as usize;
                self.palette().name(cells[i])
            },
            None => None,
        }
    }

    /// The target id of each palette id under `rules`.
    pub fn resolve_targets(&self, rules: &Vec<Rule>) -> (targets: Vec<Option<u16>>)
        requires
            self.wf(),
        ensures
            resolves(self@.palette, rules@, targets@),
    {
        let palette = self.palette();
        let mut targets: Vec<Option<u16>> = Vec::new();
        let mut id: usize = 0;
        while id < palette.len()
            invariant
                id <= palette@.len(),
                palette@ == self@.palette,
                targets@.len() == id,
                forall|k: int|
                    0 <= k < id ==> allowed(rules@, palette@[k], #[trigger] targets@[k]),
            decreases palette@.len() - id,
        {
            let target: Option<u16> = match palette.name(id) {
                Some(name) => resolve(rules, name),
                None => None,
            };
            targets.push(target);
            id = id + 1;
        }
        targets
    }

    /// Converts the world, given the target id of each palette id: `targets[id]`
    /// is the target id for cells that hold `id`, `None` where such cells are
    /// left out. Ids past the end of `targets` are left out.
    pub fn convert_with_targets(
        &self,
        min_pos: Option<Vec3>,
        max_pos: Option<Vec3>,
        targets: &Vec<Option<u16>>,
    ) -> (out: Vec<Placement>)
        requires
            self.wf(),
        ensures
            converts(self@, min_pos, max_pos, targets@, out@),
    {
        match (min_pos, max_pos) {
            (Some(lo), Some(hi)) => {
                let scope = Some((lo, hi));
                let origin = (centre_of(lo.x as i64, hi.x as i64), lo.y as i64, centre_of(
                    lo.z as i64,
                    hi.z as i64,
                ));
                self.sweep(
                    block_to_chunk(lo.x) as i64,
                    block_to_chunk(hi.x) as i64,
                    block_to_chunk(lo.z) as i64,
                    block_to_chunk(hi.z) as i64,
                    &scope,
                    origin,
                    targets,
                )
            },
            _ => {
                match self.extent() {
                    None => {
                        let out: Vec<Placement> = Vec::new();
                        proof {
                            let o = origin_of(self@, min_pos, max_pos);
                            assert forall|p: Placement| !belongs(self@, None, o, targets@, p) by {
                                let g = source(p, o);
                                assert(!self@.chunks.contains_key((chunk_of(g.0), chunk_of(g.2))));
                            }
                        }
                        out
                    },
                    Some(e) => {
                        proof {
                            let c0 = choose|c: (int, int)| #[trigger]
                                self@.chunks.dom().contains(c) && c.0 == e.min_x;
                            let c1 = choose|c: (int, int)| #[trigger]
                                self@.chunks.dom().contains(c) && c.0 == e.max_x;
                            let c2 = choose|c: (int, int)| #[trigger]
                                self@.chunks.dom().contains(c) && c.1 == e.min_z;
                            let c3 = choose|c: (int, int)| #[trigger]
                                self@.chunks.dom().contains(c) && c.1 == e.max_z;
                            assert(self@.chunks.contains_key(c0) && self@.chunks.contains_key(c1));
                            assert(self@.chunks.contains_key(c2) && self@.chunks.contains_key(c3));
                        }
                        let origin = (centre_of(e.min_x, e.max_x), 0i64, centre_of(
                            e.min_z,
                            e.max_z,
                        ));
                        let out = self.sweep(
                            e.min_x,
                            e.max_x,
                            e.min_z,
                            e.max_z,
                            &None,
                            origin,
                            targets,
                        );
                        proof {
                            let o = extent_origin(e);
                            assert forall|p: Placement| #[trigger]
                                out@.contains(p) <==> belongs(self@, None, o, targets@, p) by {
                                let g = source(p, o);
                                if belongs(self@, None, o, targets@, p) {
                                    assert(self@.chunks.dom().contains(
                                        (chunk_of(g.0), chunk_of(g.2)),
                                    ));
                                }
                            }
                            lemma_extent_unique(self@.chunks.dom(), e, extent_of(self@));
                        }
                        out
                    },
                }
            },
        }
    }

    /// Converts the world under `rules`, which are tried in the order given.
    ///
    /// With both `min_pos` and `max_pos` given, the cells inside that box are
    /// converted; with either missing, every stored cell is. A cell reaches the
    /// output if its block is not air and the matcher says yes to a rule for
    /// the block's name; the first such rule gives the target id.
    pub fn convert(&self, min_pos: Option<Vec3>, max_pos: Option<Vec3>, rules: &Vec<Rule>) -> (out:
        Vec<Placement>)
        requires
            self.wf(),
        ensures
            exists|targets: Seq<Option<u16>>|
                resolves(self@.palette, rules@, targets) && #[trigger] converts(
                    self@,
                    min_pos,
                    max_pos,
                    targets,
                    out@,
                ),
    {
        if self.is_empty() {
            let out: Vec<Placement> = Vec::new();
            proof {
                let o = origin_of(self@, min_pos, max_pos);
                let t = targets_of(self@.palette, rules@);
                lemma_some_targets(self@.palette, rules@);
                assert forall|p: Placement|
                    !belongs(self@, scope_of(min_pos, max_pos), o, t, p) by {
                    let g = source(p, o);
                    assert(!self@.chunks.contains_key((chunk_of(g.0), chunk_of(g.2))));
                }
                assert(converts(self@, min_pos, max_pos, t, out@));
            }
            return out;
        }
        let targets = self.resolve_targets(rules);
        let out = self.convert_with_targets(min_pos, max_pos, &targets);
        proof {
            assert(resolves(self@.palette, rules@, targets@) && converts(
                self@,
                min_pos,
                max_pos,
                targets@,
                out@,
            ));
        }
        out
    }
}

} // verus!
