//! Which chunks are kept on display around the player.
//!
//! The chunks within a short distance of the player are meshed and put on
//! display. A chunk on display stays there until the player is a longer
//! distance away, so that chunks at the edge do not flicker.

use vstd::prelude::*;
use vstd::seq_lib::{lemma_seq_concat_contains_all_elements, lemma_seq_contains_after_push};

use crate::command::AristideCmd;
use crate::coords::ChunkCoords;
use crate::generator::Generator;
use crate::pipeline::{lemma_requested_stages, requested};
use crate::seqs::{lemma_filter_no_duplicates, lemma_filter_step, lemma_push_no_duplicates};
use crate::stage::ChunkStage;
use crate::visibility::{consistent, stage_of, tagged, WorldView};
use crate::world::World;

verus! {

/// A chunk on display is dropped when it is further than this from the
/// player, in chunks.
pub const POP_OUT: i32 = 16;

/// A chunk is put on display when it is no further than this from the
/// player, in chunks.
pub const POP_IN: i32 = 8;

/// The chunks that are on display, each once, in the order in which they
/// were put there.
pub struct RenderedChunks {
    chunks: Vec<ChunkCoords>,
}

impl View for RenderedChunks {
    type V = Seq<ChunkCoords>;

    closed spec fn view(&self) -> Seq<ChunkCoords> {
        self.chunks@
    }
}

/// Tells of a chunk whether it is close enough to `center` to stay on
/// display.
pub open spec fn stays(center: ChunkCoords) -> spec_fn(ChunkCoords) -> bool {
    |cc: ChunkCoords| cc.within(center, POP_OUT as int)
}

/// Tells of a chunk whether it is too far from `center` to stay on
/// display.
pub open spec fn leaves(center: ChunkCoords) -> spec_fn(ChunkCoords) -> bool {
    |cc: ChunkCoords| !cc.within(center, POP_OUT as int)
}

/// Tells of a chunk whether it is close enough to `center` to be put on
/// display and is not among `rendered`.
pub open spec fn enters(rendered: Seq<ChunkCoords>, center: ChunkCoords) -> spec_fn(
    ChunkCoords,
) -> bool {
    |cc: ChunkCoords| cc.within(center, POP_IN as int) && !rendered.contains(cc)
}

/// The chunks of the square that is scanned for chunks to put on display,
/// in the order of the scan: `x` ascending, and for each `x` the `z`
/// ascending. The square reaches `POP_IN` chunks from `center` on every
/// side, so it is 17 chunks wide and holds 289.
pub open spec fn scan(center: ChunkCoords) -> Seq<ChunkCoords> {
    Seq::new(
        289,
        |i: int|
            ChunkCoords {
                x: (center.x - POP_IN + i / 17) as i32,
                z: (center.z - POP_IN + i % 17) as i32,
            },
    )
}

/// The chunks that leave the display when the player stands in the chunk
/// `center`, in the order in which they were on display.
pub open spec fn departures(rendered: Seq<ChunkCoords>, center: ChunkCoords) -> Seq<ChunkCoords> {
    rendered.filter(leaves(center))
}

/// The chunks that enter the display when the player stands in the chunk
/// `center`, in the order of the scan.
pub open spec fn arrivals(rendered: Seq<ChunkCoords>, center: ChunkCoords) -> Seq<ChunkCoords> {
    scan(center).filter(enters(rendered, center))
}

/// The notes that put the chunks of `list` on display, in order.
pub open spec fn show_notes(list: Seq<ChunkCoords>) -> Seq<AristideCmd> {
    list.map_values(|cc: ChunkCoords| AristideCmd::RenderChunk(cc, true))
}

/// The notes that take the chunks of `list` off display, in order.
pub open spec fn hide_notes(list: Seq<ChunkCoords>) -> Seq<AristideCmd> {
    list.map_values(|cc: ChunkCoords| AristideCmd::RenderChunk(cc, false))
}

/// True if `worlds` lists the states that the world goes through while
/// the chunks of `list` are requested to be meshed, one after the other,
/// from `before` to `after`.
pub open spec fn passes_through<A: Fn(i32, i32) -> i32>(
    generator: Generator<A>,
    before: WorldView,
    after: WorldView,
    list: Seq<ChunkCoords>,
    worlds: Seq<WorldView>,
) -> bool {
    &&& worlds.len() == list.len() + 1
    &&& worlds[0] == before
    &&& worlds[list.len() as int] == after
    &&& forall|i: int|
        0 <= i < list.len() ==> requested(
            generator,
            worlds[i],
            #[trigger] worlds[i + 1],
            list[i],
            ChunkStage::Meshed,
        )
}

/// True if `after` is what requests to mesh the chunks of `list`, one
/// after the other, make of `before`.
pub open spec fn requested_all<A: Fn(i32, i32) -> i32>(
    generator: Generator<A>,
    before: WorldView,
    after: WorldView,
    list: Seq<ChunkCoords>,
) -> bool {
    exists|worlds: Seq<WorldView>| passes_through(generator, before, after, list, worlds)
}

/// While the chunks of a list are requested to be meshed, no chunk goes
/// back to an earlier stage, and each chunk of the list is meshed from its
/// turn on.
proof fn lemma_passes_through<A: Fn(i32, i32) -> i32>(
    generator: Generator<A>,
    before: WorldView,
    after: WorldView,
    list: Seq<ChunkCoords>,
    worlds: Seq<WorldView>,
    n: int,
)
    requires
        passes_through(generator, before, after, list, worlds),
        0 <= n <= list.len(),
    ensures
        forall|cc: ChunkCoords| #[trigger] stage_of(worlds[n], cc).at_least(stage_of(before, cc)),
        forall|i: int|
            0 <= i < n ==> stage_of(worlds[n], #[trigger] list[i]) == ChunkStage::Meshed,
    decreases n,
{
    if n > 0 {
        lemma_passes_through(generator, before, after, list, worlds, n - 1);
        let m = n - 1;
        assert(requested(generator, worlds[m], worlds[m + 1], list[m], ChunkStage::Meshed));
        lemma_requested_stages(generator, worlds[m], worlds[n], list[m], ChunkStage::Meshed);
        assert forall|cc: ChunkCoords| #[trigger]
            stage_of(worlds[n], cc).at_least(stage_of(before, cc)) by {
            assert(stage_of(worlds[m], cc).at_least(stage_of(before, cc)));
            assert(stage_of(worlds[n], cc).at_least(stage_of(worlds[m], cc)));
        }
        assert forall|i: int| 0 <= i < n implies stage_of(worlds[n], #[trigger] list[i])
            == ChunkStage::Meshed by {
            if i < m {
                assert(stage_of(worlds[m], list[i]) == ChunkStage::Meshed);
                assert(stage_of(worlds[n], list[i]).at_least(stage_of(worlds[m], list[i])));
            }
        }
    }
}

/// After requests to mesh the chunks of a list, each of them is meshed,
/// and no chunk is at an earlier stage than before.
pub proof fn lemma_requested_all<A: Fn(i32, i32) -> i32>(
    generator: Generator<A>,
    before: WorldView,
    after: WorldView,
    list: Seq<ChunkCoords>,
)
    requires
        requested_all(generator, before, after, list),
    ensures
        forall|cc: ChunkCoords| #[trigger] stage_of(after, cc).at_least(stage_of(before, cc)),
        forall|i: int|
            0 <= i < list.len() ==> stage_of(after, #[trigger] list[i]) == ChunkStage::Meshed,
        list.len() == 0 ==> after == before,
{
    let worlds = choose|worlds: Seq<WorldView>|
        passes_through(generator, before, after, list, worlds);
    lemma_passes_through(generator, before, after, list, worlds, list.len() as int);
}

/// A chunk within a distance of another is within that distance along
/// each axis.
pub proof fn lemma_within_square(cc: ChunkCoords, center: ChunkCoords, range: int)
    requires
        0 <= range,
        cc.within(center, range),
    ensures
        center.x - range <= cc.x <= center.x + range,
        center.z - range <= cc.z <= center.z + range,
{
    let dx = cc.x - center.x;
    let dz = cc.z - center.z;
    assert(-range <= dx <= range && -range <= dz <= range) by (nonlinear_arith)
        requires
            dx * dx + dz * dz <= range * range,
            0 <= range,
    ;
}

/// True if the scan of the square around `center`, which goes through `x`
/// ascending and for each `x` through `z` ascending, has passed the chunk
/// `cc` when it stands at `(x, z)`.
spec fn scanned(center: ChunkCoords, x: int, z: int, cc: ChunkCoords) -> bool {
    &&& center.x - POP_IN <= cc.x <= center.x + POP_IN
    &&& center.z - POP_IN <= cc.z <= center.z + POP_IN
    &&& (cc.x < x || (cc.x == x && cc.z < z))
}

/// Tells whether `cc` is in the list.
fn listed(list: &Vec<ChunkCoords>, cc: ChunkCoords) -> (r: bool)
    ensures
        r == list@.contains(cc),
{
    let mut i: usize = 0;
    while i < list.len()
        invariant
            0 <= i <= list.len(),
            forall|j: int| 0 <= j < i ==> list@[j] != cc,
        decreases list.len() - i,
    {
        if list[i] == cc {
            return true;
        }
        i += 1;
    }
    false
}

impl RenderedChunks {
    #[verifier::type_invariant]
    spec fn each_once(self) -> bool {
        self.chunks@.no_duplicates()
    }

    /// Returns the empty display.
    pub fn new() -> (r: Self)
        ensures
            r@ == Seq::<ChunkCoords>::empty(),
    {
        RenderedChunks { chunks: Vec::new() }
    }

    /// Tells whether the chunk `cc` is on display.
    pub fn contains(&self, cc: ChunkCoords) -> (r: bool)
        ensures
            r == self@.contains(cc),
            self@.no_duplicates(),
    {
        proof {
            use_type_invariant(self);
        }
        listed(&self.chunks, cc)
    }

    /// Returns the number of chunks on display.
    pub fn len(&self) -> (r: usize)
        ensures
            r == self@.len(),
    {
        self.chunks.len()
    }

    /// Brings the display up to date with a player who stands in the chunk
    /// `center`, and returns the notes for the part of the program that
    /// draws.
    ///
    /// The chunks on display that are further than `POP_OUT` from the
    /// center are taken off, with a note each. Then the square around the
    /// center is scanned, and each chunk no further than `POP_IN` from the
    /// center that is not on display is meshed, put on display, and noted.
    pub fn update<A: Fn(i32, i32) -> i32>(
        &mut self,
        world: &mut World<A>,
        center: ChunkCoords,
    ) -> (notes: Vec<AristideCmd>)
        requires
            old(world).generator().wf(),
            i32::MIN <= center.x - POP_IN,
            center.x + POP_IN < i32::MAX,
            i32::MIN <= center.z - POP_IN,
            center.z + POP_IN < i32::MAX,
        ensures
            final(world).generator() == old(world).generator(),
            final(self)@ == old(self)@.filter(stays(center)) + arrivals(old(self)@, center),
            final(self)@.no_duplicates(),
            notes@ == hide_notes(departures(old(self)@, center)) + show_notes(
                arrivals(old(self)@, center),
            ),
            requested_all(
                *old(world).generator(),
                old(world)@,
                final(world)@,
                arrivals(old(self)@, center),
            ),
            forall|cc: ChunkCoords|
                final(self)@.contains(cc) && !old(self)@.contains(cc) ==> stage_of(
                    final(world)@,
                    cc,
                ) == ChunkStage::Meshed,
            forall|cc: ChunkCoords| #[trigger]
                stage_of(final(world)@, cc).at_least(stage_of(old(world)@, cc)),
            consistent(old(world)@) ==> consistent(final(world)@),
            tagged(old(world)@) ==> tagged(final(world)@),
    {
        proof {
            use_type_invariant(&*self);
            reveal(Seq::filter);
        }
        let ghost before = self.chunks@;
        let ghost cells = scan(center);
        let ghost wanted = enters(before, center);
        proof {
            lemma_filter_step(cells, wanted, 0);
            assert(before.subrange(0, 0).filter(leaves(center)) == Seq::<ChunkCoords>::empty());
            assert(before.subrange(0, 0).filter(stays(center)) == Seq::<ChunkCoords>::empty());
        }
        let mut notes: Vec<AristideCmd> = Vec::new();
        let mut kept: Vec<ChunkCoords> = Vec::new();
        let ghost mut hidden: Seq<ChunkCoords> = Seq::empty();
        let mut i: usize = 0;
        assert(before.subrange(0, 0) =~= Seq::<ChunkCoords>::empty());
        while i < self.chunks.len()
            invariant
                0 <= i <= self.chunks.len(),
                self.chunks@ == before,
                before.no_duplicates(),
                notes@ == hide_notes(hidden),
                hidden == before.subrange(0, i as int).filter(leaves(center)),
                kept@ == before.subrange(0, i as int).filter(stays(center)),
                kept@.no_duplicates(),
                forall|cc: ChunkCoords| #[trigger]
                    kept@.contains(cc) <==> before.subrange(0, i as int).contains(cc)
                        && cc.within(center, POP_OUT as int),
            decreases self.chunks.len() - i,
        {
            let chunk = self.chunks[i];
            let ghost seen = before.subrange(0, i as int);
            let ghost next = before.subrange(0, i + 1);
            let ghost held = kept@;
            proof {
                lemma_filter_step(before, leaves(center), i as int);
                lemma_filter_step(before, stays(center), i as int);
                assert(next =~= seen.push(chunk));
                assert(!seen.contains(chunk)) by {
                    if seen.contains(chunk) {
                        let j = choose|j: int| 0 <= j < seen.len() && seen[j] == chunk;
                        assert(before[j] == before[i as int]);
                    }
                }
                assert(!held.contains(chunk));
            }
            if chunk.in_range(center, POP_OUT) {
                kept.push(chunk);
                proof {
                    lemma_push_no_duplicates(held, chunk);
                }
            } else {
                notes.push(AristideCmd::RenderChunk(chunk, false));
                proof {
                    hidden = hidden.push(chunk);
                    assert(notes@ =~= hide_notes(hidden));
                }
            }
            proof {
                assert forall|cc: ChunkCoords| #[trigger]
                    kept@.contains(cc) <==> next.contains(cc) && cc.within(center, POP_OUT as int) by {
                    lemma_seq_contains_after_push(seen, chunk, cc);
                    lemma_seq_contains_after_push(held, chunk, cc);
                    assert(held.contains(cc) <==> seen.contains(cc) && cc.within(
                        center,
                        POP_OUT as int,
                    ));
                }
            }
            i += 1;
        }
        let ghost stayed = kept@;
        let ghost mut shown: Seq<ChunkCoords> = Seq::empty();
        let ghost mut worlds: Seq<WorldView> = seq![world@];
        proof {
            assert(before.subrange(0, before.len() as int) =~= before);
            assert(notes@ =~= hide_notes(hidden) + show_notes(shown));
            assert(kept@ =~= stayed + shown);
        }
        let mut x: i32 = center.x - POP_IN;
        while x <= center.x + POP_IN
            invariant
                center.x - POP_IN <= x <= center.x + POP_IN + 1,
                i32::MIN <= center.x - POP_IN,
                center.x + POP_IN < i32::MAX,
                i32::MIN <= center.z - POP_IN,
                center.z + POP_IN < i32::MAX,
                cells == scan(center),
                wanted == enters(before, center),
                stayed == before.filter(stays(center)),
                forall|cc: ChunkCoords| #[trigger]
                    stayed.contains(cc) <==> before.contains(cc) && cc.within(
                        center,
                        POP_OUT as int,
                    ),
                world.generator() == old(world).generator(),
                world.generator().wf(),
                notes@ == hide_notes(hidden) + show_notes(shown),
                kept@ == stayed + shown,
                kept@.no_duplicates(),
                shown == cells.subrange(0, (x - (center.x - POP_IN)) * 17).filter(wanted),
                forall|cc: ChunkCoords|
                    shown.contains(cc) ==> scanned(center, x as int, center.z - POP_IN, cc),
                passes_through(*old(world).generator(), old(world)@, world@, shown, worlds),
                consistent(old(world)@) ==> consistent(world@),
                tagged(old(world)@) ==> tagged(world@),
            decreases center.x + POP_IN + 1 - x,
        {
            let mut z: i32 = center.z - POP_IN;
            while z <= center.z + POP_IN
                invariant
                    center.x - POP_IN <= x <= center.x + POP_IN,
                    center.z - POP_IN <= z <= center.z + POP_IN + 1,
                    i32::MIN <= center.x - POP_IN,
                    center.x + POP_IN < i32::MAX,
                    i32::MIN <= center.z - POP_IN,
                    center.z + POP_IN < i32::MAX,
                    cells == scan(center),
                    wanted == enters(before, center),
                    stayed == before.filter(stays(center)),
                    forall|cc: ChunkCoords| #[trigger]
                        stayed.contains(cc) <==> before.contains(cc) && cc.within(
                            center,
                            POP_OUT as int,
                        ),
                    world.generator() == old(world).generator(),
                    world.generator().wf(),
                    notes@ == hide_notes(hidden) + show_notes(shown),
                    kept@ == stayed + shown,
                    kept@.no_duplicates(),
                    shown == cells.subrange(
                        0,
                        (x - (center.x - POP_IN)) * 17 + (z - (center.z - POP_IN)),
                    ).filter(wanted),
                    forall|cc: ChunkCoords|
                        shown.contains(cc) ==> scanned(center, x as int, z as int, cc),
                    passes_through(*old(world).generator(), old(world)@, world@, shown, worlds),
                    consistent(old(world)@) ==> consistent(world@),
                    tagged(old(world)@) ==> tagged(world@),
                decreases center.z + POP_IN + 1 - z,
            {
                let chunk = ChunkCoords { x, z };
                let ghost k = (x - (center.x - POP_IN)) * 17 + (z - (center.z - POP_IN));
                let ghost earlier = shown;
                let ghost held = kept@;
                proof {
                    assert(0 <= k < 289);
                    assert(k / 17 == x - (center.x - POP_IN) && k % 17 == z - (center.z - POP_IN));
                    assert(cells[k] == chunk);
                    lemma_filter_step(cells, wanted, k);
                    assert(!earlier.contains(chunk)) by {
                        if earlier.contains(chunk) {
                            assert(scanned(center, x as int, z as int, chunk));
                        }
                    }
                    lemma_seq_concat_contains_all_elements(stayed, earlier, chunk);
                    if chunk.within(center, POP_IN as int) {
                        lemma_within_wider(chunk, center);
                    }
                    assert(wanted(chunk) == (chunk.within(center, POP_IN as int)
                        && !held.contains(chunk)));
                }
                if chunk.in_range(center, POP_IN) {
                    if !listed(&kept, chunk) {
                        kept.push(chunk);
                        world.request_chunk_stage(chunk, ChunkStage::Meshed);
                        notes.push(AristideCmd::RenderChunk(chunk, true));
                        proof {
                            let ghost passed = worlds;
                            shown = earlier.push(chunk);
                            worlds = passed.push(world@);
                            assert forall|i: int| 0 <= i < shown.len() implies requested(
                                *old(world).generator(),
                                worlds[i],
                                #[trigger] worlds[i + 1],
                                shown[i],
                                ChunkStage::Meshed,
                            ) by {
                                if i < earlier.len() {
                                    assert(worlds[i] == passed[i]);
                                    assert(worlds[i + 1] == passed[i + 1]);
                                    assert(shown[i] == earlier[i]);
                                }
                            }
                            assert(notes@ =~= hide_notes(hidden) + show_notes(shown));
                            assert(kept@ =~= stayed + shown);
                            lemma_push_no_duplicates(held, chunk);
                        }
                    }
                }
                proof {
                    assert forall|cc: ChunkCoords| shown.contains(cc) implies scanned(
                        center,
                        x as int,
                        z + 1,
                        cc,
                    ) by {
                        lemma_seq_contains_after_push(earlier, chunk, cc);
                        if earlier.contains(cc) {
                            assert(scanned(center, x as int, z as int, cc));
                        }
                    }
                }
                z += 1;
            }
            proof {
                let top = center.z + POP_IN + 1;
                let bottom = center.z - POP_IN;
                let next = x + 1;
                assert forall|cc: ChunkCoords| #[trigger]
                    scanned(center, x as int, top, cc) <==> scanned(center, next, bottom, cc) by {}
            }
            x += 1;
        }
        proof {
            lemma_filter_step(cells, wanted, 0);
            assert(shown == arrivals(before, center));
            assert(hidden == departures(before, center));
            assert(requested_all(*old(world).generator(), old(world)@, world@, shown));
            lemma_requested_all(*old(world).generator(), old(world)@, world@, shown);
            assert forall|cc: ChunkCoords|
                kept@.contains(cc) && !before.contains(cc) implies stage_of(world@, cc)
                == ChunkStage::Meshed by {
                lemma_seq_concat_contains_all_elements(stayed, shown, cc);
                let i = choose|i: int| 0 <= i < shown.len() && shown[i] == cc;
                assert(stage_of(world@, shown[i]) == ChunkStage::Meshed);
            }
        }
        self.chunks = kept;
        notes
    }
}

/// A chunk enters the display exactly if it is no further than `POP_IN`
/// from the center and not on display, and no chunk enters twice.
pub proof fn lemma_arrivals(rendered: Seq<ChunkCoords>, center: ChunkCoords, cc: ChunkCoords)
    requires
        i32::MIN <= center.x - POP_IN,
        center.x + POP_IN <= i32::MAX,
        i32::MIN <= center.z - POP_IN,
        center.z + POP_IN <= i32::MAX,
    ensures
        arrivals(rendered, center).contains(cc) <==> cc.within(center, POP_IN as int)
            && !rendered.contains(cc),
        arrivals(rendered, center).no_duplicates(),
{
    let cells = scan(center);
    let wanted = enters(rendered, center);
    assert(cells.no_duplicates()) by {
        assert forall|i: int, j: int| 0 <= i < cells.len() && 0 <= j < cells.len() && i != j
            implies cells[i] != cells[j] by {
            assert(i == 17 * (i / 17) + i % 17);
            assert(j == 17 * (j / 17) + j % 17);
        }
    }
    lemma_filter_no_duplicates(cells, wanted);
    if cc.within(center, POP_IN as int) && !rendered.contains(cc) {
        lemma_within_square(cc, center, POP_IN as int);
        let k = (cc.x - (center.x - POP_IN)) * 17 + (cc.z - (center.z - POP_IN));
        assert(0 <= k < 289 && k / 17 == cc.x - (center.x - POP_IN) && k % 17 == cc.z - (center.z
            - POP_IN));
        assert(cells[k] == cc);
        assert(wanted(cells[k]));
        cells.lemma_filter_contains(wanted, k);
    }
    if arrivals(rendered, center).contains(cc) {
        let i = choose|i: int|
            0 <= i < arrivals(rendered, center).len() && arrivals(rendered, center)[i] == cc;
        cells.lemma_filter_pred(wanted, i);
    }
}

/// A chunk leaves the display exactly if it is on display and further
/// than `POP_OUT` from the center, and it stays exactly if it is on
/// display and no further than that.
pub proof fn lemma_departures(rendered: Seq<ChunkCoords>, center: ChunkCoords, cc: ChunkCoords)
    ensures
        departures(rendered, center).contains(cc) <==> rendered.contains(cc) && !cc.within(
            center,
            POP_OUT as int,
        ),
        rendered.filter(stays(center)).contains(cc) <==> rendered.contains(cc) && cc.within(
            center,
            POP_OUT as int,
        ),
{
    let gone = departures(rendered, center);
    let kept = rendered.filter(stays(center));
    if gone.contains(cc) {
        let i = choose|i: int| 0 <= i < gone.len() && gone[i] == cc;
        rendered.lemma_filter_pred(leaves(center), i);
        rendered.lemma_filter_contains_rev(leaves(center), cc);
    }
    if kept.contains(cc) {
        let i = choose|i: int| 0 <= i < kept.len() && kept[i] == cc;
        rendered.lemma_filter_pred(stays(center), i);
        rendered.lemma_filter_contains_rev(stays(center), cc);
    }
    if rendered.contains(cc) {
        let i = choose|i: int| 0 <= i < rendered.len() && rendered[i] == cc;
        if cc.within(center, POP_OUT as int) {
            rendered.lemma_filter_contains(stays(center), i);
        } else {
            rendered.lemma_filter_contains(leaves(center), i);
        }
    }
}

/// A chunk within the shorter distance is within the longer one.
proof fn lemma_within_wider(cc: ChunkCoords, center: ChunkCoords)
    requires
        cc.within(center, POP_IN as int),
    ensures
        cc.within(center, POP_OUT as int),
{
    let near = POP_IN as int;
    let far = POP_OUT as int;
    assert(near * near <= far * far) by (nonlinear_arith)
        requires
            near == 8,
            far == 16,
    ;
}

} // verus!
