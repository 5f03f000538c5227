//! What holds of the library as a whole, stated over the same models that the
//! functions' own contracts use, and proved from them.

use crate::convert::{
    converts, name_at, origin_of, resolves, source, targets_of, Placement,
};
use crate::coords::{in_box, Vec3};
use crate::ingest::{absorb, encode, lemma_absorb, with_chunk};
use crate::palette::{id_of, lemma_with_name, with_name};
use crate::rules::{air, law_first_match_wins, portable, Rule};
use crate::world::WorldView;
use vstd::prelude::*;

verus! {

/// A list of names as the cells of a chunk, each cell holding a block.
pub open spec fn as_cells(names: Seq<Seq<char>>) -> Seq<Option<Seq<char>>> {
    names.map_values(|name: Seq<char>| Some(name))
}

/// The palette after the names of `seen` were looked up, in turn, in an empty
/// palette.
pub open spec fn discovered(seen: Seq<Seq<char>>) -> Seq<Seq<char>> {
    absorb(Seq::<Seq<char>>::empty(), as_cells(seen))
}

/// Looking a name up a second time gives the id that the first lookup gave, and
/// leaves the palette as the first lookup left it.
pub proof fn law_lookup_repeats(palette: Seq<Seq<char>>, name: Seq<char>)
    requires
        palette.no_duplicates(),
    ensures
        with_name(with_name(palette, name), name) == with_name(palette, name),
        id_of(with_name(with_name(palette, name), name), name) == id_of(
            with_name(palette, name),
            name,
        ),
{
    lemma_with_name(palette, name);
}

/// A name keeps its id whatever is looked up after it.
pub proof fn law_id_is_kept(palette: Seq<Seq<char>>, name: Seq<char>, later: Seq<Seq<char>>)
    requires
        palette.no_duplicates(),
    ensures
        id_of(absorb(with_name(palette, name), as_cells(later)), name) == id_of(
            with_name(palette, name),
            name,
        ),
{
    lemma_with_name(palette, name);
    lemma_absorb(with_name(palette, name), as_cells(later));
}

/// After any list of names was looked up in an empty palette, the palette holds
/// each distinct name once: its ids are the numbers below the count of distinct
/// names, each name has one of them, and each of them is the id of a name.
pub proof fn law_ids_are_dense(seen: Seq<Seq<char>>)
    ensures
        discovered(seen).no_duplicates(),
        discovered(seen).to_set() == seen.to_set(),
        discovered(seen).len() == seen.to_set().len(),
        forall|i: int|
            0 <= i < seen.len() ==> 0 <= id_of(
                discovered(seen),
                #[trigger] seen[i],
            ) < seen.to_set().len(),
        forall|id: int|
            0 <= id < seen.to_set().len() ==> seen.contains(
                #[trigger] discovered(seen)[id],
            ) && id_of(
                discovered(seen),
                discovered(seen)[id],
            ) == id,
{
    let palette = discovered(seen);
    lemma_absorbed_names(seen);
    palette.unique_seq_to_set();
    assert forall|i: int| 0 <= i < seen.len() implies 0 <= id_of(palette, #[trigger] seen[i])
        < seen.to_set().len() by {
        assert(seen.to_set().contains(seen[i]));
        assert(palette.contains(seen[i]));
    }
    assert forall|id: int| 0 <= id < seen.to_set().len() implies seen.contains(
        #[trigger] palette[id],
    ) && id_of(palette, palette[id]) == id by {
        assert(palette.to_set().contains(palette[id]));
        assert(seen.to_set().contains(palette[id]));
        crate::palette::lemma_id_at(palette, id);
    }
}

/// The palette that has absorbed a list of names holds those names and no
/// others, each once.
proof fn lemma_absorbed_names(seen: Seq<Seq<char>>)
    ensures
        discovered(seen).no_duplicates(),
        discovered(seen).to_set() == seen.to_set(),
    decreases seen.len(),
{
    let cells = as_cells(seen);
    let palette = discovered(seen);
    if seen.len() == 0 {
        assert(palette.to_set() =~= seen.to_set());
    } else {
        let rest = seen.drop_last();
        let name = seen.last();
        assert(cells.drop_last() =~= as_cells(rest));
        assert(cells.last() == Some(name));
        lemma_absorbed_names(rest);
        let before = discovered(rest);
        lemma_with_name(before, name);
        assert(palette == with_name(before, name));
        assert forall|n: Seq<char>| palette.to_set().contains(n) <==> seen.to_set().contains(
            n,
        ) by {
            if palette.contains(n) {
                let i = palette.index_of(n);
                if i < before.len() && before[i] == n {
                    assert(before.to_set().contains(n));
                    assert(rest.contains(n));
                    let j = rest.index_of(n);
                    assert(seen[j] == n);
                } else {
                    assert(n == name);
                    assert(seen[seen.len() - 1] == n);
                }
            }
            if seen.contains(n) {
                let j = seen.index_of(n);
                if j < rest.len() {
                    assert(rest[j] == n);
                    assert(rest.to_set().contains(n));
                    assert(before.contains(n));
                } else {
                    assert(n == name);
                }
            }
        }
        assert(palette.to_set() =~= seen.to_set());
    }
}

/// Ingesting a chunk where one is stored replaces it: the array that was there
/// has no part in the result, which is what ingesting into the same world
/// without that chunk gives.
pub proof fn law_ingest_replaces(
    w: WorldView,
    at: (int, int),
    first: Seq<Option<Seq<char>>>,
    second: Seq<Option<Seq<char>>>,
)
    ensures
        with_chunk(with_chunk(w, at, first), at, second).chunks[at] == encode(
            with_chunk(with_chunk(w, at, first), at, second).palette,
            second,
        ),
        with_chunk(with_chunk(w, at, first), at, second) == with_chunk(
            WorldView {
                palette: with_chunk(w, at, first).palette,
                chunks: with_chunk(w, at, first).chunks.remove(at),
            },
            at,
            second,
        ),
{
    let once = with_chunk(w, at, first);
    let twice = with_chunk(once, at, second);
    let bare = WorldView { palette: once.palette, chunks: once.chunks.remove(at) };
    assert(with_chunk(bare, at, second).chunks =~= twice.chunks);
}

/// Every placement of a bounded conversion comes from inside the box: adding
/// the origin back to its coordinates gives a position between the corners.
pub proof fn law_output_stays_in_box(
    w: WorldView,
    lo: Vec3,
    hi: Vec3,
    targets: Seq<Option<u16>>,
    out: Seq<Placement>,
    p: Placement,
)
    requires
        converts(w, Some(lo), Some(hi), targets, out),
        out.contains(p),
    ensures
        in_box(
            source(p, origin_of(w, Some(lo), Some(hi))).0,
            source(p, origin_of(w, Some(lo), Some(hi))).1,
            source(p, origin_of(w, Some(lo), Some(hi))).2,
            lo,
            hi,
        ),
{
}

/// No placement of a conversion under rules comes from air: the cell that it
/// was made from holds a name, and the name is not that of air.
pub proof fn law_air_left_out(
    w: WorldView,
    min_pos: Option<Vec3>,
    max_pos: Option<Vec3>,
    rules: Seq<Rule>,
    targets: Seq<Option<u16>>,
    out: Seq<Placement>,
    p: Placement,
)
    requires
        resolves(w.palette, rules, targets),
        converts(w, min_pos, max_pos, targets, out),
        out.contains(p),
    ensures
        name_at(w, source(p, origin_of(w, min_pos, max_pos))) is Some,
        name_at(w, source(p, origin_of(w, min_pos, max_pos))) != Some(air()),
{
}

/// Where no name of the palette holds a backslash, a conversion under rules is
/// the conversion under the table that gives each name the target id of the
/// first rule whose pattern matches it.
pub proof fn law_first_match_decides(
    w: WorldView,
    min_pos: Option<Vec3>,
    max_pos: Option<Vec3>,
    rules: Seq<Rule>,
    targets: Seq<Option<u16>>,
    out: Seq<Placement>,
)
    requires
        forall|id: int| 0 <= id < w.palette.len() ==> portable(#[trigger] w.palette[id]),
        resolves(w.palette, rules, targets),
        converts(w, min_pos, max_pos, targets, out),
    ensures
        targets == targets_of(w.palette, rules),
        converts(w, min_pos, max_pos, targets_of(w.palette, rules), out),
{
    assert forall|id: int| 0 <= id < w.palette.len() implies targets[id] == targets_of(
        w.palette,
        rules,
    )[id] by {
        law_first_match_wins(rules, w.palette[id], targets[id]);
    }
    assert(targets =~= targets_of(w.palette, rules));
}

} // verus!
