//! The functional model of the simulation.
//!
//! Ghost state and spec functions give the monthly update pipeline its exact
//! meaning: every draw of the generator, every field mutation and every
//! phase is a mathematical function of the forest state. The executable
//! engine in `forest` is proved to compute precisely these functions, which
//! is what makes the simulation reproducible from a seed.

use vstd::prelude::*;

use crate::cell::{
    bear_val, de_age_spec, jack_level, place_spec, remove_spec, set_jack_spec, spec_maul_chance,
    spec_tree_kind, tree_age, wf_cell, BEAR_MASK, BEAR_REMOVE_MASK, BEAR_SHIFT, JACK_MASK,
    JACK_MAX_LEVEL, JACK_REMOVE_MASK, JACK_SHIFT, TREE_MASK, TREE_REMOVE_MASK, TREE_SHIFT,
};
use crate::grid::adjacent_indices;
use crate::random::{next_state, pick_index};
use crate::tree::{harvest_amount_of, harvest_chance_of, spawn_chance_of, TreeKind};

verus! {

/// The largest grid the engine accepts: small enough that a year of lumber
/// and mauls always fits the 32-bit counters.
pub const MAX_CELLS: usize = 0x0800_0000;

/// The mid-phase state a monthly phase folds over: the grid, the generator
/// state and the two yearly counters.
#[verifier::ext_equal]
pub ghost struct Sim {
    pub map: Seq<u16>,
    pub rng: u64,
    pub lumber: int,
    pub mauls: int,
}

/// The whole observable state of a forest.
#[verifier::ext_equal]
pub ghost struct ForestView {
    pub map: Seq<u16>,
    pub rng: u64,
    pub width: int,
    pub height: int,
    pub months: int,
    pub lumber: int,
    pub mauls: int,
}

/// The phase state carved out of a full view.
pub open spec fn sim_of(v: ForestView) -> Sim {
    Sim { map: v.map, rng: v.rng, lumber: v.lumber, mauls: v.mauls }
}

/// The view with its phase state replaced.
pub open spec fn with_sim(v: ForestView, s: Sim) -> ForestView {
    ForestView {
        map: s.map,
        rng: s.rng,
        lumber: s.lumber,
        mauls: s.mauls,
        width: v.width,
        height: v.height,
        months: v.months,
    }
}

/// A sequence of cell indices as mathematical integers.
pub open spec fn as_ints(s: Seq<usize>) -> Seq<int> {
    s.map_values(|u: usize| u as int)
}

/// Every cell of the map is well formed.
pub open spec fn wf_map(map: Seq<u16>) -> bool {
    forall|i: int| 0 <= i < map.len() ==> wf_cell(#[trigger] map[i])
}

/// A percent roll: the generator's output narrowed to 32 bits, modulo 100.
pub open spec fn roll(s: u64) -> int {
    ((s as u32) as int) % 100
}

/// The indices below `n` whose field under `mask` is occupied, ascending.
pub open spec fn positions_upto(map: Seq<u16>, mask: u16, shift: u16, n: int) -> Seq<int>
    decreases n,
{
    if n <= 0 {
        Seq::empty()
    } else {
        positions_upto(map, mask, shift, n - 1) + if (map[n - 1] & mask) >> shift > 0 {
            seq![n - 1]
        } else {
            Seq::empty()
        }
    }
}

/// The snapshot a phase iterates over: all indices with the field occupied.
pub open spec fn entity_positions(map: Seq<u16>, mask: u16, shift: u16) -> Seq<int> {
    positions_upto(map, mask, shift, map.len() as int)
}

/// The first `n` of the given positions whose field under `mask` is zero.
pub open spec fn free_upto(map: Seq<u16>, ps: Seq<int>, mask: u16, n: int) -> Seq<int>
    decreases n,
{
    if n <= 0 {
        Seq::empty()
    } else {
        free_upto(map, ps, mask, n - 1) + if map[ps[n - 1]] & mask == 0 {
            seq![ps[n - 1]]
        } else {
            Seq::empty()
        }
    }
}

/// The wander candidates: the given positions whose field under `mask` is zero.
pub open spec fn free_positions(map: Seq<u16>, ps: Seq<int>, mask: u16) -> Seq<int> {
    free_upto(map, ps, mask, ps.len() as int)
}

/// The indices below `n` whose whole cell is zero, ascending.
pub open spec fn open_upto(map: Seq<u16>, n: int) -> Seq<int>
    decreases n,
{
    if n <= 0 {
        Seq::empty()
    } else {
        open_upto(map, n - 1) + if map[n - 1] == 0 {
            seq![n - 1]
        } else {
            Seq::empty()
        }
    }
}

/// The fully open cells: no bear, jack or tree at all.
pub open spec fn open_cells(map: Seq<u16>) -> Seq<int> {
    open_upto(map, map.len() as int)
}

/// The map after one unit is added to the field at `shift` of cell `i`.
pub open spec fn place_at(map: Seq<u16>, i: int, shift: u16) -> Seq<u16> {
    map.update(i, place_spec(map[i], shift))
}

/// The map after an entity moves: its field is cleared at `from` and set to
/// one at `to`.
pub open spec fn move_spec(map: Seq<u16>, from: int, to: int, remove_mask: u16, shift: u16) -> Seq<
    u16,
> {
    let m1 = map.update(from, remove_spec(map[from], remove_mask));
    m1.update(to, place_spec(m1[to], shift))
}

/// Updating one cell with a well-formed value keeps the map well formed.
pub proof fn lemma_wf_update(map: Seq<u16>, i: int, c: u16)
    requires
        wf_map(map),
        wf_cell(c),
        0 <= i < map.len(),
    ensures
        wf_map(map.update(i, c)),
{
    assert forall|j: int| 0 <= j < map.update(i, c).len() implies wf_cell(
        #[trigger] map.update(i, c)[j],
    ) by {
        if j != i {
            assert(map.update(i, c)[j] == map[j]);
        }
    }
}

/// The occupied-position snapshot lists indices below `n`, strictly
/// ascending, each with the field under `mask` occupied.
pub proof fn lemma_positions_upto_props(map: Seq<u16>, mask: u16, shift: u16, n: int)
    ensures
        positions_upto(map, mask, shift, n).len() <= (if n >= 0 {
            n
        } else {
            0
        }),
        forall|k: int|
            0 <= k < positions_upto(map, mask, shift, n).len() ==> {
                let p = #[trigger] positions_upto(map, mask, shift, n)[k];
                0 <= p < n && (map[p] & mask) >> shift > 0
            },
        forall|k1: int, k2: int|
            0 <= k1 < k2 < positions_upto(map, mask, shift, n).len() ==> positions_upto(
                map,
                mask,
                shift,
                n,
            )[k1] < positions_upto(map, mask, shift, n)[k2],
    decreases n,
{
    if n > 0 {
        lemma_positions_upto_props(map, mask, shift, n - 1);
    }
}

/// Every candidate the filter keeps has a zero field under `mask` and comes
/// from the given positions.
pub proof fn lemma_free_upto_props(map: Seq<u16>, ps: Seq<int>, mask: u16, n: int)
    requires
        n <= ps.len(),
    ensures
        forall|k: int|
            0 <= k < free_upto(map, ps, mask, n).len() ==> {
                let p = #[trigger] free_upto(map, ps, mask, n)[k];
                ps.contains(p) && map[p] & mask == 0
            },
    decreases n,
{
    if n > 0 {
        lemma_free_upto_props(map, ps, mask, n - 1);
        let f = free_upto(map, ps, mask, n);
        let f1 = free_upto(map, ps, mask, n - 1);
        assert forall|k: int| 0 <= k < f.len() implies {
            let p = #[trigger] f[k];
            ps.contains(p) && map[p] & mask == 0
        } by {
            if k < f1.len() {
                assert(f[k] == f1[k]);
            } else {
                assert(f[k] == ps[n - 1]);
                assert(0 <= n - 1 < ps.len());
                assert(ps.contains(ps[n - 1]));
            }
        }
    }
}

/// Every open cell the scan finds is an index below `n` holding zero.
pub proof fn lemma_open_upto_props(map: Seq<u16>, n: int)
    ensures
        forall|k: int|
            0 <= k < open_upto(map, n).len() ==> {
                let p = #[trigger] open_upto(map, n)[k];
                0 <= p < n && map[p] == 0
            },
    decreases n,
{
    if n > 0 {
        lemma_open_upto_props(map, n - 1);
        let f = open_upto(map, n);
        let f1 = open_upto(map, n - 1);
        assert forall|k: int| 0 <= k < f.len() implies {
            let p = #[trigger] f[k];
            0 <= p < n && map[p] == 0
        } by {
            if k < f1.len() {
                assert(f[k] == f1[k]);
            } else {
                assert(f[k] == n - 1);
            }
        }
    }
}

/// One tree's month: age by one (saturating at 255), then roll for a spawn;
/// on success pick a tree-free neighbour, if any, and place an age-1 sapling.
pub open spec fn tree_step(s: Sim, i: int, w: int, h: int) -> Sim {
    let cell = s.map[i];
    let aged = if tree_age(cell) < 255 {
        s.map.update(i, place_spec(cell, TREE_SHIFT))
    } else {
        s.map
    };
    let chance = spawn_chance_of(spec_tree_kind(tree_age(cell)));
    let r = roll(s.rng);
    let rng1 = next_state(s.rng);
    if r <= chance {
        let cands = free_positions(aged, adjacent_indices(i, w, h), TREE_MASK);
        if cands.len() > 0 {
            let c = cands[pick_index(rng1, cands.len() as int)];
            Sim { map: place_at(aged, c, TREE_SHIFT), rng: next_state(rng1), ..s }
        } else {
            Sim { map: aged, rng: rng1, ..s }
        }
    } else {
        Sim { map: aged, rng: rng1, ..s }
    }
}

/// The tree phase applied to the first `k` snapshot positions.
pub open spec fn tree_steps_upto(s: Sim, ps: Seq<int>, k: int, w: int, h: int) -> Sim
    decreases k,
{
    if k <= 0 {
        s
    } else {
        tree_step(tree_steps_upto(s, ps, k - 1, w, h), ps[k - 1], w, h)
    }
}

/// The tree phase: every cell holding a tree, snapshotted up front, takes a
/// `tree_step` in ascending index order.
pub open spec fn tree_phase(s: Sim, w: int, h: int) -> Sim {
    let ps = entity_positions(s.map, TREE_MASK, TREE_SHIFT);
    tree_steps_upto(s, ps, ps.len() as int, w, h)
}

/// The new level of a jack that just harvested: raised by the harvest
/// amount, capped.
pub open spec fn leveled_up(lv: u16, amt: u32) -> u16 {
    if lv + amt <= JACK_MAX_LEVEL {
        (lv + amt) as u16
    } else {
        JACK_MAX_LEVEL
    }
}

/// The age a damaged tree is knocked back to: the start of its stage's range.
pub open spec fn de_age_target(kind: TreeKind) -> u16 {
    match kind {
        TreeKind::Empty => 0,
        TreeKind::Sapling => 1,
        TreeKind::Mature => 12,
        TreeKind::Elder => 120,
    }
}

/// A jack has just moved onto a tree at `dest`: roll for a harvest. On
/// success the tree field clears, the lumber counter grows by the yield and
/// the jack levels up by it; on failure the tree is knocked back to the
/// start of its stage.
pub open spec fn jack_tree_encounter(s: Sim, dest: int) -> Sim {
    let cell = s.map[dest];
    let kind = spec_tree_kind(tree_age(cell));
    let r = roll(s.rng);
    let rng1 = next_state(s.rng);
    if r < harvest_chance_of(kind) {
        let amt = harvest_amount_of(kind);
        let cleared = remove_spec(cell, TREE_REMOVE_MASK);
        let lv = jack_level(cleared);
        let leveled = if lv <= JACK_MAX_LEVEL {
            set_jack_spec(cleared, leveled_up(lv, amt))
        } else {
            cleared
        };
        Sim { map: s.map.update(dest, leveled), rng: rng1, lumber: s.lumber + amt, ..s }
    } else {
        Sim { map: s.map.update(dest, de_age_spec(cell, de_age_target(kind))), rng: rng1, ..s }
    }
}

/// One jack's month: up to `budget` wander steps among jack-free neighbours;
/// landing on a tree ends the month with a harvest roll, no candidates ends
/// it quietly.
pub open spec fn jack_wander(s: Sim, pos: int, budget: nat, w: int, h: int) -> Sim
    decreases budget,
{
    if budget == 0 {
        s
    } else {
        let cands = free_positions(s.map, adjacent_indices(pos, w, h), JACK_MASK);
        if cands.len() == 0 {
            s
        } else {
            let dest = cands[pick_index(s.rng, cands.len() as int)];
            let moved = move_spec(s.map, pos, dest, JACK_REMOVE_MASK, JACK_SHIFT);
            let s1 = Sim { map: moved, rng: next_state(s.rng), ..s };
            if tree_age(moved[dest]) > 0 {
                jack_tree_encounter(s1, dest)
            } else {
                jack_wander(s1, dest, (budget - 1) as nat, w, h)
            }
        }
    }
}

/// Monthly wander budget of a jack.
pub const JACK_WANDERS_PER_MONTH: u32 = 3;

/// Retry budget for one wander step; structurally unreachable because the
/// candidate list is verified non-empty before any draw, and kept as a
/// safeguard.
pub const JACK_WANDER_ATTEMPTS: u32 = 2;

/// Monthly wander budget of a bear.
pub const BEAR_WANDERS_PER_MONTH: u32 = 3;

/// Retry budget for one bear wander step; unreachable like the jacks'.
pub const BEAR_WANDER_ATTEMPTS: u32 = 2;

/// The jack phase applied to the first `k` snapshot positions.
pub open spec fn jack_steps_upto(s: Sim, ps: Seq<int>, k: int, w: int, h: int) -> Sim
    decreases k,
{
    if k <= 0 {
        s
    } else {
        jack_wander(
            jack_steps_upto(s, ps, k - 1, w, h),
            ps[k - 1],
            JACK_WANDERS_PER_MONTH as nat,
            w,
            h,
        )
    }
}

/// The jack phase: every cell holding a jack, snapshotted up front, wanders
/// in ascending index order.
pub open spec fn jack_phase(s: Sim, w: int, h: int) -> Sim {
    let ps = entity_positions(s.map, JACK_MASK, JACK_SHIFT);
    jack_steps_upto(s, ps, ps.len() as int, w, h)
}

/// A bear has just moved onto a jack at `dest`: roll for a maul. On success
/// the jack field clears and the maul counter grows; otherwise the jack
/// drops one level, never below one.
pub open spec fn bear_jack_encounter(s: Sim, dest: int) -> Sim {
    let cell = s.map[dest];
    let r = roll(s.rng);
    let rng1 = next_state(s.rng);
    if r < spec_maul_chance(jack_level(cell)) {
        Sim {
            map: s.map.update(dest, remove_spec(cell, JACK_REMOVE_MASK)),
            rng: rng1,
            mauls: s.mauls + 1,
            ..s
        }
    } else {
        let lv = jack_level(cell);
        let demoted = if lv > 1 {
            set_jack_spec(cell, (lv - 1) as u16)
        } else {
            cell
        };
        Sim { map: s.map.update(dest, demoted), rng: rng1, ..s }
    }
}

/// One bear's month, mirroring the jacks' wander over bear-free neighbours.
pub open spec fn bear_wander(s: Sim, pos: int, budget: nat, w: int, h: int) -> Sim
    decreases budget,
{
    if budget == 0 {
        s
    } else {
        let cands = free_positions(s.map, adjacent_indices(pos, w, h), BEAR_MASK);
        if cands.len() == 0 {
            s
        } else {
            let dest = cands[pick_index(s.rng, cands.len() as int)];
            let moved = move_spec(s.map, pos, dest, BEAR_REMOVE_MASK, BEAR_SHIFT);
            let s1 = Sim { map: moved, rng: next_state(s.rng), ..s };
            if jack_level(moved[dest]) > 0 {
                bear_jack_encounter(s1, dest)
            } else {
                bear_wander(s1, dest, (budget - 1) as nat, w, h)
            }
        }
    }
}

/// The bear phase applied to the first `k` snapshot positions.
pub open spec fn bear_steps_upto(s: Sim, ps: Seq<int>, k: int, w: int, h: int) -> Sim
    decreases k,
{
    if k <= 0 {
        s
    } else {
        bear_wander(
            bear_steps_upto(s, ps, k - 1, w, h),
            ps[k - 1],
            BEAR_WANDERS_PER_MONTH as nat,
            w,
            h,
        )
    }
}

/// The bear phase: every cell holding a bear, snapshotted up front, wanders
/// in ascending index order.
pub open spec fn bear_phase(s: Sim, w: int, h: int) -> Sim {
    let ps = entity_positions(s.map, BEAR_MASK, BEAR_SHIFT);
    bear_steps_upto(s, ps, ps.len() as int, w, h)
}

/// One yearly hire: a new level-1 jack at a randomly picked fully open cell,
/// silently skipped when no cell is open.
pub open spec fn hire_one(s: Sim) -> Sim {
    let open = open_cells(s.map);
    if open.len() > 0 {
        let c = open[pick_index(s.rng, open.len() as int)];
        Sim { map: place_at(s.map, c, JACK_SHIFT), rng: next_state(s.rng), ..s }
    } else {
        s
    }
}

/// The first `k` yearly hires.
pub open spec fn hire_upto(s: Sim, k: int) -> Sim
    decreases k,
{
    if k <= 0 {
        s
    } else {
        hire_one(hire_upto(s, k - 1))
    }
}

/// Yearly population control. Jacks: with more lumber than jacks, hire one
/// jack per ten excess lumber; otherwise fire one random jack unless only
/// one is left. Bears: a maul-free year adds a bear at an open cell,
/// otherwise one random bear leaves (possibly the last). Both counters then
/// reset to zero.
pub open spec fn yearly_events(s: Sim) -> Sim {
    let jacks = entity_positions(s.map, JACK_MASK, JACK_SHIFT);
    let s1 = if s.lumber > jacks.len() {
        hire_upto(s, (s.lumber - jacks.len() as int) / 10)
    } else if jacks.len() > 1 {
        let c = jacks[pick_index(s.rng, jacks.len() as int)];
        Sim {
            map: s.map.update(c, remove_spec(s.map[c], JACK_REMOVE_MASK)),
            rng: next_state(s.rng),
            ..s
        }
    } else {
        s
    };
    let bears = entity_positions(s1.map, BEAR_MASK, BEAR_SHIFT);
    let s2 = if s1.mauls == 0 {
        let open = open_cells(s1.map);
        if open.len() > 0 {
            let c = open[pick_index(s1.rng, open.len() as int)];
            Sim { map: place_at(s1.map, c, BEAR_SHIFT), rng: next_state(s1.rng), ..s1 }
        } else {
            s1
        }
    } else {
        if bears.len() > 0 {
            let c = bears[pick_index(s1.rng, bears.len() as int)];
            Sim {
                map: s1.map.update(c, remove_spec(s1.map[c], BEAR_REMOVE_MASK)),
                rng: next_state(s1.rng),
                ..s1
            }
        } else {
            s1
        }
    };
    Sim { lumber: 0, mauls: 0, ..s2 }
}

/// One month: the month counter steps, then the tree, jack and bear phases
/// run in that fixed order, and every twelfth month ends with the yearly
/// events.
pub open spec fn next_month(v: ForestView) -> ForestView {
    let months1 = v.months + 1;
    let s1 = bear_phase(
        jack_phase(tree_phase(sim_of(v), v.width, v.height), v.width, v.height),
        v.width,
        v.height,
    );
    let s2 = if months1 % 12 == 0 {
        yearly_events(s1)
    } else {
        s1
    };
    ForestView {
        map: s2.map,
        rng: s2.rng,
        width: v.width,
        height: v.height,
        months: months1,
        lumber: s2.lumber,
        mauls: s2.mauls,
    }
}

/// The view after `n` further months.
pub open spec fn months_later(v: ForestView, n: nat) -> ForestView
    decreases n,
{
    if n == 0 {
        v
    } else {
        months_later(next_month(v), (n - 1) as nat)
    }
}

/// How many draws one initial placement may burn before falling back to a
/// deterministic scan: the full cycle length of the 64-bit generator.
pub open spec fn sample_fuel() -> nat {
    u64::MAX as nat
}

/// Rejection sampling with fuel: draw a cell index; if the field under
/// `mask` is free there, yield it, else draw again. Returns the sampled
/// index, if any, and the generator state after the consumed draws.
pub open spec fn sample_rounds(
    map: Seq<u16>,
    mask: u16,
    shift: u16,
    st: u64,
    fuel: nat,
) -> (Option<int>, u64)
    decreases fuel,
{
    if fuel == 0 {
        (None::<int>, st)
    } else {
        let i = pick_index(st, map.len() as int);
        if (map[i] & mask) >> shift == 0 {
            (Some(i), next_state(st))
        } else {
            sample_rounds(map, mask, shift, next_state(st), (fuel - 1) as nat)
        }
    }
}

/// The lowest index at or above `i` whose field under `mask` is free.
pub open spec fn first_free_from(map: Seq<u16>, mask: u16, shift: u16, i: int) -> Option<int>
    decreases map.len() - i,
{
    if i < 0 || i >= map.len() {
        None::<int>
    } else if (map[i] & mask) >> shift == 0 {
        Some(i)
    } else {
        first_free_from(map, mask, shift, i + 1)
    }
}

/// The lowest index whose field under `mask` is free, if any.
pub open spec fn first_free(map: Seq<u16>, mask: u16, shift: u16) -> Option<int> {
    first_free_from(map, mask, shift, 0)
}

/// One initial placement: skipped outright when `placed` entities already
/// fill the map, else a sampled free cell gains one unit of the field. If
/// the generator's whole cycle of draws never hits a free cell, the lowest
/// free cell takes the entity instead, so a placement is only ever skipped
/// when the field is occupied in every cell.
pub open spec fn place_random(map: Seq<u16>, st: u64, placed: int, mask: u16, shift: u16) -> (
    Seq<u16>,
    u64,
) {
    if placed == map.len() {
        (map, st)
    } else {
        let (res, st1) = sample_rounds(map, mask, shift, st, sample_fuel());
        match res {
            Some(i) => (place_at(map, i, shift), st1),
            None => match first_free(map, mask, shift) {
                Some(i) => (place_at(map, i, shift), st1),
                None => (map, st1),
            },
        }
    }
}

/// The first `k` initial placements of one entity type.
pub open spec fn place_n(map: Seq<u16>, st: u64, k: int, mask: u16, shift: u16) -> (Seq<u16>, u64)
    decreases k,
{
    if k <= 0 {
        (map, st)
    } else {
        let (m1, s1) = place_n(map, st, k - 1, mask, shift);
        place_random(m1, s1, k - 1, mask, shift)
    }
}

/// Initial bear population: two percent of the cells, rounded up.
pub open spec fn starting_bears(cells: int) -> int {
    (cells + 49) / 50
}

/// Initial jack population: ten percent of the cells, rounded up.
pub open spec fn starting_jacks(cells: int) -> int {
    (cells + 9) / 10
}

/// Initial tree population: half of the cells, rounded up.
pub open spec fn starting_trees(cells: int) -> int {
    (cells + 1) / 2
}

/// The freshly constructed forest: an all-zero grid populated by placing, in
/// this exact order, the starting bears, jacks and trees.
pub open spec fn init_view(seed: u64, w: int, h: int) -> ForestView {
    let cells = w * h;
    let map0 = Seq::new(cells as nat, |i: int| 0u16);
    let (m1, s1) = place_n(map0, seed, starting_bears(cells), BEAR_MASK, BEAR_SHIFT);
    let (m2, s2) = place_n(m1, s1, starting_jacks(cells), JACK_MASK, JACK_SHIFT);
    let (m3, s3) = place_n(m2, s2, starting_trees(cells), TREE_MASK, TREE_SHIFT);
    ForestView { map: m3, rng: s3, width: w, height: h, months: 0, lumber: 0, mauls: 0 }
}

} // verus!
