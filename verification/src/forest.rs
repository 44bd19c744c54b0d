//! The simulation engine: a `Forest` owns the packed grid, the deterministic
//! generator and the running counters, and advances one month per `update`
//! call. Every public operation is specified against the functional model in
//! `model`.

use vstd::prelude::*;

use crate::cell;
use crate::tree::TreeKind;
use crate::cell::{
    bear_val, jack_level, tree_age, BEAR_MASK, BEAR_REMOVE_MASK, BEAR_SHIFT, JACK_MASK,
    JACK_MAX_LEVEL, JACK_REMOVE_MASK, JACK_SHIFT, NONE_MASK, TREE_MASK, TREE_REMOVE_MASK,
    TREE_SHIFT,
};
use crate::grid::{adjacent_indices, lemma_adjacent_indices_props, lemma_index_in_grid};
use crate::model::{
    as_ints, entity_positions, free_positions, free_upto, lemma_free_upto_props,
    lemma_open_upto_props, lemma_positions_upto_props, lemma_wf_update, open_cells, open_upto,
    place_at, positions_upto, wf_map, ForestView, Sim, MAX_CELLS,
};
use crate::random::{next_state, pick_index, Random};

verus! {

/// The grid ecosystem: cells, generator, dimensions and counters. Created
/// once with `new`, mutated only by `update`.
pub struct Forest {
    rng: Random,
    map: Vec<u16>,
    width: usize,
    height: usize,
    months_elapsed: u32,
    yearly_lumber: u32,
    yearly_mauls: u32,
}

impl View for Forest {
    type V = ForestView;

    closed spec fn view(&self) -> ForestView {
        ForestView {
            map: self.map@,
            rng: self.rng@,
            width: self.width as int,
            height: self.height as int,
            months: self.months_elapsed as int,
            lumber: self.yearly_lumber as int,
            mauls: self.yearly_mauls as int,
        }
    }
}

impl Forest {
    /// The structural invariant every forest keeps: a non-empty grid of
    /// bounded size whose cells are well formed, and yearly counters bounded
    /// by what the months since the last yearly reset can have produced.
    pub open spec fn wf(&self) -> bool {
        &&& 1 <= self@.width
        &&& 1 <= self@.height
        &&& self@.map.len() == self@.width * self@.height
        &&& self@.map.len() <= MAX_CELLS as int
        &&& wf_map(self@.map)
        &&& 0 <= self@.months <= u32::MAX
        &&& 0 <= self@.lumber <= 2 * self@.map.len() * (self@.months % 12)
        &&& 0 <= self@.mauls <= self@.map.len() * (self@.months % 12)
    }

    /// Read-only snapshot of the raw cell array.
    pub fn map(&self) -> (r: &Vec<u16>)
        ensures
            r@ == self@.map,
    {
        &self.map
    }

    pub fn width(&self) -> (r: usize)
        ensures
            r == self@.width,
    {
        self.width
    }

    pub fn height(&self) -> (r: usize)
        ensures
            r == self@.height,
    {
        self.height
    }

    pub fn months_elapsed(&self) -> (r: u32)
        ensures
            r == self@.months,
    {
        self.months_elapsed
    }

    pub fn yearly_lumber(&self) -> (r: u32)
        ensures
            r == self@.lumber,
    {
        self.yearly_lumber
    }

    pub fn yearly_mauls(&self) -> (r: u32)
        ensures
            r == self@.mauls,
    {
        self.yearly_mauls
    }

    /// How many cells hold a tree.
    #[verifier::loop_isolation(false)]
    pub fn count_trees(&self) -> (r: usize)
        ensures
            r == crate::laws::tree_count(self@.map),
    {
        let n = self.map.len();
        let mut count: usize = 0;
        for i in 0..n
            invariant
                self@.map.len() == n,
                count <= i,
                count == crate::laws::tree_count_upto(self@.map, i as int),
        {
            if self.map[i] & TREE_MASK > 0 {
                count = count + 1;
            }
        }
        count
    }

    /// How many cells hold a jack.
    #[verifier::loop_isolation(false)]
    pub fn count_jacks(&self) -> (r: usize)
        ensures
            r == crate::laws::jack_count(self@.map),
    {
        let n = self.map.len();
        let mut count: usize = 0;
        for i in 0..n
            invariant
                self@.map.len() == n,
                count <= i,
                count == crate::laws::jack_count_upto(self@.map, i as int),
        {
            proof {
                cell::lemma_mask_zero(self@.map[i as int]);
            }
            if self.map[i] & JACK_MASK > 0 {
                count = count + 1;
            }
        }
        count
    }

    /// How many cells hold a bear.
    #[verifier::loop_isolation(false)]
    pub fn count_bears(&self) -> (r: usize)
        ensures
            r == crate::laws::bear_count(self@.map),
    {
        let n = self.map.len();
        let mut count: usize = 0;
        for i in 0..n
            invariant
                self@.map.len() == n,
                count <= i,
                count == crate::laws::bear_count_upto(self@.map, i as int),
        {
            proof {
                cell::lemma_mask_zero(self@.map[i as int]);
            }
            if self.map[i] & BEAR_MASK > 0 {
                count = count + 1;
            }
        }
        count
    }

    /// All cell indices whose field under `mask` is occupied, ascending: the
    /// snapshot each phase iterates over.
    #[verifier::loop_isolation(false)]
    fn get_entity_positions(map: &Vec<u16>, mask: u16, shift: u16) -> (r: Vec<usize>)
        requires
            shift < 16,
        ensures
            as_ints(r@) == entity_positions(map@, mask, shift),
            r@.len() <= map@.len(),
            forall|k: int| 0 <= k < r@.len() ==> (#[trigger] r@[k]) < map@.len(),
    {
        let n = map.len();
        let mut r: Vec<usize> = Vec::new();
        for i in 0..n
            invariant
                map@.len() == n,
                as_ints(r@) == positions_upto(map@, mask, shift, i as int),
                r@.len() <= i,
                forall|k: int| 0 <= k < r@.len() ==> (#[trigger] r@[k]) < i,
        {
            if (map[i] & mask) >> shift > 0 {
                r.push(i);
            }
            proof {
                assert(as_ints(r@) =~= positions_upto(map@, mask, shift, i + 1 as int));
            }
        }
        r
    }

    /// The given positions whose field under `mask` is free: the wander or
    /// spawn candidates.
    #[verifier::loop_isolation(false)]
    fn filter_free(map: &Vec<u16>, ps: &Vec<usize>, mask: u16) -> (r: Vec<usize>)
        requires
            forall|k: int| 0 <= k < ps@.len() ==> (#[trigger] ps@[k]) < map@.len(),
        ensures
            as_ints(r@) == free_positions(map@, as_ints(ps@), mask),
            forall|k: int|
                0 <= k < r@.len() ==> (#[trigger] r@[k]) < map@.len() && map@[r@[k] as int] & mask
                    == 0,
    {
        let n = ps.len();
        let mut r: Vec<usize> = Vec::new();
        for i in 0..n
            invariant
                ps@.len() == n,
                forall|k: int| 0 <= k < ps@.len() ==> (#[trigger] ps@[k]) < map@.len(),
                as_ints(r@) == free_upto(map@, as_ints(ps@), mask, i as int),
                forall|k: int|
                    0 <= k < r@.len() ==> (#[trigger] r@[k]) < map@.len() && map@[r@[k] as int]
                        & mask == 0,
        {
            if map[ps[i]] & mask == 0 {
                r.push(ps[i]);
            }
            proof {
                assert(as_ints(r@) =~= free_upto(map@, as_ints(ps@), mask, i + 1 as int));
            }
        }
        proof {
            assert(as_ints(r@) == free_positions(map@, as_ints(ps@), mask));
        }
        r
    }

    /// A uniformly random fully open cell (raw value zero), or `None` when
    /// no cell is open; a draw is consumed only when one exists.
    #[verifier::loop_isolation(false)]
    fn get_open_space(rng: &mut Random, map: &Vec<u16>) -> (r: Option<usize>)
        ensures
            open_cells(map@).len() == 0 ==> r is None && final(rng)@ == old(rng)@,
            open_cells(map@).len() > 0 ==> {
                let open = open_cells(map@);
                let c = open[pick_index(old(rng)@, open.len() as int)];
                &&& r is Some
                &&& r->Some_0 as int == c
                &&& c < map@.len()
                &&& map@[c] == 0
                &&& final(rng)@ == next_state(old(rng)@)
            },
    {
        let n = map.len();
        let mut spaces: Vec<usize> = Vec::new();
        for i in 0..n
            invariant
                map@.len() == n,
                as_ints(spaces@) == open_upto(map@, i as int),
        {
            let cell = map[i];
            if cell == 0 {
                spaces.push(i);
            }
            proof {
                assert(as_ints(spaces@) =~= open_upto(map@, i + 1 as int));
            }
        }
        proof {
            lemma_open_upto_props(map@, map@.len() as int);
        }
        rng.pick(&spaces)
    }

    /// Adds one unit to the field at `shift` of the cell at `index`; the
    /// caller has checked that the field is below its cap.
    fn place_entity(map: &mut Vec<u16>, index: usize, shift: u16)
        requires
            index < old(map)@.len(),
            shift == TREE_SHIFT || shift == JACK_SHIFT || shift == BEAR_SHIFT,
            shift == TREE_SHIFT ==> tree_age(old(map)@[index as int]) < 255,
            shift == JACK_SHIFT ==> jack_level(old(map)@[index as int]) < 15,
            shift == BEAR_SHIFT ==> bear_val(old(map)@[index as int]) < 15,
        ensures
            final(map)@ == place_at(old(map)@, index as int, shift),
    {
        let newc = cell::place_entity(map[index], shift);
        map[index] = newc;
    }

    /// Clears one field of the cell at `index` via its complement mask.
    fn remove_entity(map: &mut Vec<u16>, index: usize, remove_mask: u16)
        requires
            index < old(map)@.len(),
        ensures
            final(map)@ == old(map)@.update(
                index as int,
                cell::remove_spec(old(map)@[index as int], remove_mask),
            ),
    {
        let newc = cell::remove_entity(map[index], remove_mask);
        map[index] = newc;
    }

    /// One initial placement: sample random cells until one has the target
    /// field free, then add one unit of the field there. Skipped outright
    /// when `num_ents` entities of the type already fill every cell; if the
    /// generator's full cycle never hits a free cell, the lowest free cell
    /// takes the entity, so the placement is skipped only when no cell has
    /// the field free.
    #[verifier::loop_isolation(false)]
    fn randomly_place_entity(
        rng: &mut Random,
        map: &mut Vec<u16>,
        num_ents: usize,
        mask: u16,
        shift: u16,
    )
        requires
            old(map)@.len() > 0,
            num_ents <= old(map)@.len(),
            (mask == TREE_MASK && shift == TREE_SHIFT) || (mask == JACK_MASK && shift
                == JACK_SHIFT) || (mask == BEAR_MASK && shift == BEAR_SHIFT),
        ensures
            final(map)@ == crate::model::place_random(
                old(map)@,
                old(rng)@,
                num_ents as int,
                mask,
                shift,
            ).0,
            final(rng)@ == crate::model::place_random(
                old(map)@,
                old(rng)@,
                num_ents as int,
                mask,
                shift,
            ).1,
            wf_map(old(map)@) ==> wf_map(final(map)@),
            final(map)@.len() == old(map)@.len(),
    {
        if num_ents == map.len() {
            return ;
        }
        let ghost m0 = map@;
        let ghost s0 = rng@;
        let mut fuel: u64 = u64::MAX;
        while fuel > 0
            invariant
                map@ == m0,
                crate::model::sample_rounds(m0, mask, shift, s0, crate::model::sample_fuel())
                    == crate::model::sample_rounds(m0, mask, shift, rng@, fuel as nat),
            decreases fuel,
        {
            let ghost st_before = rng@;
            let next = rng.next() as usize % map.len();
            let cell = map[next];

            if ((cell & mask) >> shift) == 0 {
                proof {
                    cell::lemma_shr_zero(cell & mask);
                    assert(crate::model::sample_rounds(m0, mask, shift, st_before, fuel as nat)
                        == (Some(next as int), next_state(st_before)));
                }
                Self::place_entity(map, next, shift);
                proof {
                    if wf_map(m0) {
                        if shift == TREE_SHIFT {
                            cell::lemma_place_tree(cell);
                        } else if shift == JACK_SHIFT {
                            cell::lemma_place_jack(cell);
                        } else {
                            cell::lemma_place_bear(cell);
                        }
                        lemma_wf_update(m0, next as int, cell::place_spec(cell, shift));
                    }
                }
                return ;
            }
            fuel = fuel - 1;
        }

        // The generator's whole cycle never hit a free cell: fall back to
        // the lowest cell with the field free, consuming no further draw.
        let n = map.len();
        for i in 0..n
            invariant
                map@ == m0,
                map@.len() == n,
                crate::model::first_free(m0, mask, shift) == crate::model::first_free_from(
                    m0,
                    mask,
                    shift,
                    i as int,
                ),
        {
            let cell = map[i];
            if ((cell & mask) >> shift) == 0 {
                proof {
                    cell::lemma_shr_zero(cell & mask);
                    if wf_map(m0) {
                        if shift == TREE_SHIFT {
                            cell::lemma_place_tree(cell);
                        } else if shift == JACK_SHIFT {
                            cell::lemma_place_jack(cell);
                        } else {
                            cell::lemma_place_bear(cell);
                        }
                        lemma_wf_update(m0, i as int, cell::place_spec(cell, shift));
                    }
                }
                Self::place_entity(map, i, shift);
                return ;
            }
        }
    }

    /// Populates a fresh all-zero grid: the starting bears, then jacks, then
    /// trees, each type placed one entity at a time. The order decides which
    /// cells stay free for later types and is part of the seed contract.
    #[verifier::loop_isolation(false)]
    fn initialize_map(rng: &mut Random, map: &mut Vec<u16>)
        requires
            0 < old(map)@.len() <= MAX_CELLS,
            forall|i: int| 0 <= i < old(map)@.len() ==> old(map)@[i] == 0,
        ensures
            ({
                let cells = old(map)@.len() as int;
                let (m1, s1) = crate::model::place_n(
                    old(map)@,
                    old(rng)@,
                    crate::model::starting_bears(cells),
                    BEAR_MASK,
                    BEAR_SHIFT,
                );
                let (m2, s2) = crate::model::place_n(
                    m1,
                    s1,
                    crate::model::starting_jacks(cells),
                    JACK_MASK,
                    JACK_SHIFT,
                );
                let (m3, s3) = crate::model::place_n(
                    m2,
                    s2,
                    crate::model::starting_trees(cells),
                    TREE_MASK,
                    TREE_SHIFT,
                );
                final(map)@ == m3 && final(rng)@ == s3
            }),
            wf_map(final(map)@),
            final(map)@.len() == old(map)@.len(),
    {
        let ghost m0 = map@;
        let ghost s0 = rng@;
        let cells = map.len();
        proof {
            assert(wf_map(m0)) by {
                cell::lemma_zero_cell();
            }
        }

        let num_bears = (cells + 49) / 50;
        for n in 0..num_bears
            invariant
                map@.len() == cells,
                num_bears <= cells,
                (map@, rng@) == crate::model::place_n(m0, s0, n as int, BEAR_MASK, BEAR_SHIFT),
                wf_map(map@),
        {
            Self::randomly_place_entity(rng, map, n, BEAR_MASK, BEAR_SHIFT);
        }
        let ghost m1 = map@;
        let ghost s1 = rng@;

        let num_jacks = (cells + 9) / 10;
        for n in 0..num_jacks
            invariant
                map@.len() == cells,
                num_jacks <= cells,
                (map@, rng@) == crate::model::place_n(m1, s1, n as int, JACK_MASK, JACK_SHIFT),
                wf_map(map@),
        {
            Self::randomly_place_entity(rng, map, n, JACK_MASK, JACK_SHIFT);
        }
        let ghost m2 = map@;
        let ghost s2 = rng@;

        let num_trees = (cells + 1) / 2;
        for n in 0..num_trees
            invariant
                map@.len() == cells,
                num_trees <= cells,
                (map@, rng@) == crate::model::place_n(m2, s2, n as int, TREE_MASK, TREE_SHIFT),
                wf_map(map@),
        {
            Self::randomly_place_entity(rng, map, n, TREE_MASK, TREE_SHIFT);
        }
    }

    /// Builds the forest: seeds the generator, lays out an all-zero grid of
    /// `width * height` cells and places the initial occupants.
    #[verifier::loop_isolation(false)]
    pub fn new(seed: u64, width: usize, height: usize) -> (r: Self)
        requires
            1 <= width,
            1 <= height,
            (width as int) * (height as int) <= MAX_CELLS as int,
        ensures
            r@ == crate::model::init_view(seed, width as int, height as int),
            r.wf(),
    {
        proof {
            assert((width as int) * (height as int) >= 1) by (nonlinear_arith)
                requires
                    width >= 1 && height >= 1,
            ;
        }
        let mut rng = Random::new(seed);
        let cells = width * height;
        let mut map: Vec<u16> = Vec::new();
        while map.len() < cells
            invariant
                map@.len() <= cells,
                forall|i: int| 0 <= i < map@.len() ==> map@[i] == 0,
            decreases cells - map@.len(),
        {
            map.push(NONE_MASK);
        }
        proof {
            assert(map@ =~= Seq::new((width as int * height as int) as nat, |i: int| 0u16));
        }

        Self::initialize_map(&mut rng, &mut map);

        let r = Self {
            rng,
            map,
            width,
            height,
            months_elapsed: 0,
            yearly_lumber: 0,
            yearly_mauls: 0,
        };
        proof {
            assert(r@ =~= crate::model::init_view(seed, width as int, height as int));
        }
        r
    }

    /// The tree phase: snapshot every cell holding a tree, then let each age
    /// and roll for a sapling spawn into a tree-free neighbour.
    #[verifier::loop_isolation(false)]
    fn trigger_tree_event(&mut self)
        requires
            1 <= old(self)@.width,
            1 <= old(self)@.height,
            old(self)@.map.len() == old(self)@.width * old(self)@.height,
            old(self)@.map.len() <= MAX_CELLS as int,
            wf_map(old(self)@.map),
        ensures
            final(self)@ == crate::model::with_sim(
                old(self)@,
                crate::model::tree_phase(
                    crate::model::sim_of(old(self)@),
                    old(self)@.width,
                    old(self)@.height,
                ),
            ),
            wf_map(final(self)@.map),
            final(self)@.map.len() == old(self)@.map.len(),
            final(self)@.lumber == old(self)@.lumber,
            final(self)@.mauls == old(self)@.mauls,
    {
        let ghost v0 = self@;
        let ghost s0 = crate::model::sim_of(v0);
        let ghost w = v0.width;
        let ghost h = v0.height;

        let positions = Self::get_entity_positions(&self.map, TREE_MASK, TREE_SHIFT);
        let ghost ps = entity_positions(v0.map, TREE_MASK, TREE_SHIFT);
        let n = positions.len();
        for k in 0..n
            invariant
                self@.width == w,
                self@.height == h,
                self@.months == v0.months,
                self@.lumber == v0.lumber,
                self@.mauls == v0.mauls,
                self@.map.len() == v0.map.len(),
                crate::model::sim_of(self@) == crate::model::tree_steps_upto(s0, ps, k as int, w, h),
                wf_map(self@.map),
        {
            let ghost s_pre = crate::model::sim_of(self@);
            let i = positions[k];
            let cell = self.map[i];
            Self::age_tree(&mut self.map, i, cell);
            proof {
                if tree_age(cell) < 255 {
                    cell::lemma_place_tree(cell);
                    lemma_wf_update(s_pre.map, i as int, cell::place_spec(cell, TREE_SHIFT));
                }
            }
            let spawn_chance = cell::get_sapling_spawn_chance(cell);
            let result = self.rng.next() as u32 % 100;
            if result <= spawn_chance {
                let adjacent_positions = self.get_adjacent_positions(i);
                let position_candidates = Self::filter_free(
                    &self.map,
                    &adjacent_positions,
                    TREE_MASK,
                );
                if let Some(choice) = self.rng.pick(&position_candidates) {
                    let ghost target = self.map@[choice as int];
                    proof {
                        assert(self.map@[choice as int] & TREE_MASK == 0);
                        cell::lemma_place_tree(target);
                        lemma_wf_update(
                            self.map@,
                            choice as int,
                            cell::place_spec(target, TREE_SHIFT),
                        );
                    }
                    Self::place_entity(&mut self.map, choice, TREE_SHIFT);
                }
            }
            proof {
                assert(crate::model::sim_of(self@) =~= crate::model::tree_steps_upto(
                    s0,
                    ps,
                    k + 1 as int,
                    w,
                    h,
                )) by {
                    assert(crate::model::tree_steps_upto(s0, ps, k + 1 as int, w, h)
                        == crate::model::tree_step(s_pre, ps[k as int], w, h));
                    assert(ps[k as int] == i as int);
                }
            }
        }
        proof {
            assert(final(self)@ =~= crate::model::with_sim(
                v0,
                crate::model::tree_phase(s0, w, h),
            ));
        }
    }

    /// One jack's month: up to three wander steps among jack-free
    /// neighbours, each step allowing up to two candidate draws (a cap that
    /// is provably never exercised, since the candidate list is checked
    /// non-empty before any draw). Landing on a tree ends the month with a
    /// harvest roll.
    #[verifier::loop_isolation(false)]
    fn jack_month(&mut self, start: usize)
        requires
            1 <= old(self)@.width,
            1 <= old(self)@.height,
            old(self)@.map.len() == old(self)@.width * old(self)@.height,
            old(self)@.map.len() <= MAX_CELLS as int,
            wf_map(old(self)@.map),
            (start as int) < old(self)@.map.len(),
            old(self)@.lumber + 2 <= u32::MAX,
        ensures
            final(self)@ == crate::model::with_sim(
                old(self)@,
                crate::model::jack_wander(
                    crate::model::sim_of(old(self)@),
                    start as int,
                    crate::model::JACK_WANDERS_PER_MONTH as nat,
                    old(self)@.width,
                    old(self)@.height,
                ),
            ),
            wf_map(final(self)@.map),
            final(self)@.map.len() == old(self)@.map.len(),
            old(self)@.lumber <= final(self)@.lumber <= old(self)@.lumber + 2,
            final(self)@.mauls == old(self)@.mauls,
    {
        let ghost v0 = self@;
        let ghost s0 = crate::model::sim_of(v0);
        let ghost w = v0.width;
        let ghost h = v0.height;

        let mut wanders: u32 = 0;
        let mut current_position = start;
        let mut stopped = false;

        while wanders < crate::model::JACK_WANDERS_PER_MONTH && !stopped
            invariant
                wanders <= crate::model::JACK_WANDERS_PER_MONTH,
                (current_position as int) < v0.map.len(),
                self@.width == w,
                self@.height == h,
                self@.months == v0.months,
                self@.mauls == v0.mauls,
                self@.map.len() == v0.map.len(),
                v0.lumber <= self@.lumber <= v0.lumber + 2,
                wanders < crate::model::JACK_WANDERS_PER_MONTH ==> self@.lumber == v0.lumber,
                wf_map(self@.map),
                crate::model::jack_wander(
                    s0,
                    start as int,
                    crate::model::JACK_WANDERS_PER_MONTH as nat,
                    w,
                    h,
                ) == crate::model::jack_wander(
                    crate::model::sim_of(self@),
                    current_position as int,
                    (crate::model::JACK_WANDERS_PER_MONTH - wanders) as nat,
                    w,
                    h,
                ),
                stopped ==> crate::model::sim_of(self@) == crate::model::jack_wander(
                    s0,
                    start as int,
                    crate::model::JACK_WANDERS_PER_MONTH as nat,
                    w,
                    h,
                ),
            decreases (if stopped {
                0int
            } else {
                1int
            }), crate::model::JACK_WANDERS_PER_MONTH - wanders,
        {
            let ghost v_it = self@;
            let ghost s_it = crate::model::sim_of(v_it);
            let ghost cur_it = current_position;
            let ghost wanders_it = wanders;
            let ghost b_it = (crate::model::JACK_WANDERS_PER_MONTH - wanders) as nat;

            let mut has_wandered = false;
            let mut wander_attempts: u32 = 0;

            let adjacent_positions = self.get_adjacent_positions(current_position);
            let position_candidates = Self::filter_free(
                &self.map,
                &adjacent_positions,
                JACK_MASK,
            );
            let ghost cands = free_positions(
                s_it.map,
                adjacent_indices(cur_it as int, w, h),
                JACK_MASK,
            );
            proof {
                lemma_free_upto_props(
                    s_it.map,
                    adjacent_indices(cur_it as int, w, h),
                    JACK_MASK,
                    adjacent_indices(cur_it as int, w, h).len() as int,
                );
            }

            if position_candidates.len() == 0 {
                proof {
                    assert(crate::model::jack_wander(s_it, cur_it as int, b_it, w, h) == s_it);
                }
                stopped = true;
            } else {
                while wander_attempts < crate::model::JACK_WANDER_ATTEMPTS && !has_wandered
                invariant
                    wanders <= crate::model::JACK_WANDERS_PER_MONTH,
                    (current_position as int) < v0.map.len(),
                    self@.width == w,
                    self@.height == h,
                    self@.months == v0.months,
                    self@.mauls == v0.mauls,
                    self@.map.len() == v0.map.len(),
                    v0.lumber <= self@.lumber <= v0.lumber + 2,
                    wanders < crate::model::JACK_WANDERS_PER_MONTH ==> self@.lumber == v0.lumber,
                    wf_map(self@.map),
                    crate::model::jack_wander(
                        s0,
                        start as int,
                        crate::model::JACK_WANDERS_PER_MONTH as nat,
                        w,
                        h,
                    ) == crate::model::jack_wander(
                        crate::model::sim_of(self@),
                        current_position as int,
                        (crate::model::JACK_WANDERS_PER_MONTH - wanders) as nat,
                        w,
                        h,
                    ),
                    !has_wandered ==> wander_attempts == 0 && self@ == v_it && current_position
                        == cur_it && wanders == wanders_it,
                    has_wandered ==> wanders_it < wanders,
                decreases (if has_wandered {
                    0int
                } else {
                    1int
                }), crate::model::JACK_WANDER_ATTEMPTS - wander_attempts,
            {
                match self.rng.pick(&position_candidates) {
                    Some(next_position) => {
                        let ghost dest = next_position as int;
                        proof {
                            let idx = pick_index(s_it.rng, cands.len() as int);
                            assert(0 <= idx < cands.len());
                            assert(as_ints(position_candidates@)[idx] == dest);
                            assert(cands[idx] == dest);
                            assert(cands.contains(dest));
                            lemma_adjacent_indices_props(cur_it as int, w, h);
                            assert(adjacent_indices(cur_it as int, w, h).contains(dest));
                            assert(dest != cur_it as int && 0 <= dest < v0.map.len());
                            cell::lemma_mask_zero(self.map@[dest]);
                            assert(jack_level(self.map@[dest]) == 0);
                        }
                        Self::remove_entity(&mut self.map, current_position, JACK_REMOVE_MASK);
                        proof {
                            cell::lemma_remove_jack(s_it.map[cur_it as int]);
                            lemma_wf_update(
                                s_it.map,
                                cur_it as int,
                                cell::remove_spec(s_it.map[cur_it as int], JACK_REMOVE_MASK),
                            );
                            assert(jack_level(self.map@[dest]) == 0);
                            cell::lemma_place_jack(self.map@[dest]);
                            lemma_wf_update(
                                self.map@,
                                dest,
                                cell::place_spec(self.map@[dest], JACK_SHIFT),
                            );
                        }
                        Self::place_entity(&mut self.map, next_position, JACK_SHIFT);
                        let ghost moved = crate::model::move_spec(
                            s_it.map,
                            cur_it as int,
                            dest,
                            JACK_REMOVE_MASK,
                            JACK_SHIFT,
                        );
                        proof {
                            assert(self.map@ =~= moved);
                        }
                        let ghost s1 = Sim {
                            map: moved,
                            rng: next_state(s_it.rng),
                            lumber: s_it.lumber,
                            mauls: s_it.mauls,
                        };
                        proof {
                            assert(crate::model::sim_of(self@) =~= s1);
                        }

                        let chosen_cell = self.map[next_position];
                        if chosen_cell & TREE_MASK > 0 {
                            let result = self.rng.next() as u32 % 100;
                            if result < cell::get_tree_harvest_chance(chosen_cell) {
                                let harvest_amount = cell::get_harvest_amount(chosen_cell);
                                self.yearly_lumber = self.yearly_lumber + harvest_amount;
                                Self::remove_entity(&mut self.map, next_position, TREE_REMOVE_MASK);
                                proof {
                                    cell::lemma_remove_tree(moved[dest]);
                                    lemma_wf_update(
                                        moved,
                                        dest,
                                        cell::remove_spec(moved[dest], TREE_REMOVE_MASK),
                                    );
                                }
                                let ghost cleared = cell::remove_spec(moved[dest], TREE_REMOVE_MASK);
                                proof {
                                    cell::lemma_set_jack(
                                        cleared,
                                        crate::model::leveled_up(
                                            jack_level(cleared),
                                            harvest_amount,
                                        ),
                                    );
                                    lemma_wf_update(
                                        self.map@,
                                        dest,
                                        cell::set_jack_spec(
                                            cleared,
                                            crate::model::leveled_up(
                                                jack_level(cleared),
                                                harvest_amount,
                                            ),
                                        ),
                                    );
                                }
                                Self::level_up_jack(&mut self.map, next_position, harvest_amount);
                                proof {
                                    assert(crate::model::sim_of(self@)
                                        =~= crate::model::jack_tree_encounter(s1, dest));
                                }
                            } else {
                                proof {
                                    let kind = cell::spec_tree_kind(tree_age(moved[dest]));
                                    cell::lemma_de_age(
                                        moved[dest],
                                        crate::model::de_age_target(kind),
                                    );
                                    lemma_wf_update(
                                        moved,
                                        dest,
                                        cell::de_age_spec(
                                            moved[dest],
                                            crate::model::de_age_target(kind),
                                        ),
                                    );
                                }
                                Self::de_age_tree(&mut self.map, next_position);
                                proof {
                                    assert(crate::model::sim_of(self@)
                                        =~= crate::model::jack_tree_encounter(s1, dest));
                                }
                            }

                            wanders = crate::model::JACK_WANDERS_PER_MONTH;
                            proof {
                                assert(crate::model::jack_wander(s_it, cur_it as int, b_it, w, h)
                                    == crate::model::jack_tree_encounter(s1, dest));
                            }
                        } else {
                            wanders = wanders + 1;
                            proof {
                                assert(crate::model::jack_wander(s_it, cur_it as int, b_it, w, h)
                                    == crate::model::jack_wander(
                                    s1,
                                    dest,
                                    (b_it - 1) as nat,
                                    w,
                                    h,
                                ));
                            }
                        }

                        current_position = next_position;
                        has_wandered = true;
                    },
                    None => {
                        wander_attempts = wander_attempts + 1;
                    },
                }
            }

                if !has_wandered {
                    stopped = true;
                }
            }
        }
        proof {
            assert(final(self)@ =~= crate::model::with_sim(
                v0,
                crate::model::jack_wander(
                    s0,
                    start as int,
                    crate::model::JACK_WANDERS_PER_MONTH as nat,
                    w,
                    h,
                ),
            ));
        }
    }

    /// The jack phase: snapshot every cell holding a jack, then let each
    /// wander for the month in ascending index order.
    #[verifier::loop_isolation(false)]
    fn trigger_jack_event(&mut self)
        requires
            1 <= old(self)@.width,
            1 <= old(self)@.height,
            old(self)@.map.len() == old(self)@.width * old(self)@.height,
            old(self)@.map.len() <= MAX_CELLS as int,
            wf_map(old(self)@.map),
            old(self)@.lumber >= 0,
            old(self)@.lumber + 2 * old(self)@.map.len() <= u32::MAX,
        ensures
            final(self)@ == crate::model::with_sim(
                old(self)@,
                crate::model::jack_phase(
                    crate::model::sim_of(old(self)@),
                    old(self)@.width,
                    old(self)@.height,
                ),
            ),
            wf_map(final(self)@.map),
            final(self)@.map.len() == old(self)@.map.len(),
            old(self)@.lumber <= final(self)@.lumber <= old(self)@.lumber + 2 * old(
                self,
            )@.map.len(),
            final(self)@.mauls == old(self)@.mauls,
    {
        let ghost v0 = self@;
        let ghost s0 = crate::model::sim_of(v0);
        let ghost w = v0.width;
        let ghost h = v0.height;

        let positions = Self::get_entity_positions(&self.map, JACK_MASK, JACK_SHIFT);
        let ghost ps = entity_positions(v0.map, JACK_MASK, JACK_SHIFT);
        let n = positions.len();
        for k in 0..n
            invariant
                self@.width == w,
                self@.height == h,
                self@.months == v0.months,
                self@.mauls == v0.mauls,
                self@.map.len() == v0.map.len(),
                v0.lumber <= self@.lumber <= v0.lumber + 2 * k,
                crate::model::sim_of(self@) == crate::model::jack_steps_upto(s0, ps, k as int, w, h),
                wf_map(self@.map),
        {
            let i = positions[k];
            self.jack_month(i);
            proof {
                assert(crate::model::sim_of(self@) == crate::model::jack_steps_upto(
                    s0,
                    ps,
                    k + 1 as int,
                    w,
                    h,
                ));
            }
        }
        proof {
            assert(final(self)@ =~= crate::model::with_sim(
                v0,
                crate::model::jack_phase(s0, w, h),
            ));
        }
    }

    /// One bear's month: up to three wander steps among bear-free
    /// neighbours, with the same provably unexercised retry cap as the
    /// jacks'. Landing on a jack ends the month with a maul roll.
    #[verifier::loop_isolation(false)]
    fn bear_month(&mut self, start: usize)
        requires
            1 <= old(self)@.width,
            1 <= old(self)@.height,
            old(self)@.map.len() == old(self)@.width * old(self)@.height,
            old(self)@.map.len() <= MAX_CELLS as int,
            wf_map(old(self)@.map),
            (start as int) < old(self)@.map.len(),
            old(self)@.mauls + 1 <= u32::MAX,
        ensures
            final(self)@ == crate::model::with_sim(
                old(self)@,
                crate::model::bear_wander(
                    crate::model::sim_of(old(self)@),
                    start as int,
                    crate::model::BEAR_WANDERS_PER_MONTH as nat,
                    old(self)@.width,
                    old(self)@.height,
                ),
            ),
            wf_map(final(self)@.map),
            final(self)@.map.len() == old(self)@.map.len(),
            old(self)@.mauls <= final(self)@.mauls <= old(self)@.mauls + 1,
            final(self)@.lumber == old(self)@.lumber,
    {
        let ghost v0 = self@;
        let ghost s0 = crate::model::sim_of(v0);
        let ghost w = v0.width;
        let ghost h = v0.height;

        let mut wanders: u32 = 0;
        let mut current_position = start;
        let mut stopped = false;

        while wanders < crate::model::BEAR_WANDERS_PER_MONTH && !stopped
            invariant
                wanders <= crate::model::BEAR_WANDERS_PER_MONTH,
                (current_position as int) < v0.map.len(),
                self@.width == w,
                self@.height == h,
                self@.months == v0.months,
                self@.lumber == v0.lumber,
                self@.map.len() == v0.map.len(),
                v0.mauls <= self@.mauls <= v0.mauls + 1,
                wanders < crate::model::BEAR_WANDERS_PER_MONTH ==> self@.mauls == v0.mauls,
                wf_map(self@.map),
                crate::model::bear_wander(
                    s0,
                    start as int,
                    crate::model::BEAR_WANDERS_PER_MONTH as nat,
                    w,
                    h,
                ) == crate::model::bear_wander(
                    crate::model::sim_of(self@),
                    current_position as int,
                    (crate::model::BEAR_WANDERS_PER_MONTH - wanders) as nat,
                    w,
                    h,
                ),
                stopped ==> crate::model::sim_of(self@) == crate::model::bear_wander(
                    s0,
                    start as int,
                    crate::model::BEAR_WANDERS_PER_MONTH as nat,
                    w,
                    h,
                ),
            decreases (if stopped {
                0int
            } else {
                1int
            }), crate::model::BEAR_WANDERS_PER_MONTH - wanders,
        {
            let ghost v_it = self@;
            let ghost s_it = crate::model::sim_of(v_it);
            let ghost cur_it = current_position;
            let ghost wanders_it = wanders;
            let ghost b_it = (crate::model::BEAR_WANDERS_PER_MONTH - wanders) as nat;

            let mut has_wandered = false;
            let mut wander_attempts: u32 = 0;

            let adjacent_positions = self.get_adjacent_positions(current_position);
            let position_candidates = Self::filter_free(
                &self.map,
                &adjacent_positions,
                BEAR_MASK,
            );
            let ghost cands = free_positions(
                s_it.map,
                adjacent_indices(cur_it as int, w, h),
                BEAR_MASK,
            );
            proof {
                lemma_free_upto_props(
                    s_it.map,
                    adjacent_indices(cur_it as int, w, h),
                    BEAR_MASK,
                    adjacent_indices(cur_it as int, w, h).len() as int,
                );
            }

            if position_candidates.len() == 0 {
                proof {
                    assert(crate::model::bear_wander(s_it, cur_it as int, b_it, w, h) == s_it);
                }
                stopped = true;
            } else {
                while wander_attempts < crate::model::BEAR_WANDER_ATTEMPTS && !has_wandered
                    invariant
                        wanders <= crate::model::BEAR_WANDERS_PER_MONTH,
                        (current_position as int) < v0.map.len(),
                        self@.width == w,
                        self@.height == h,
                        self@.months == v0.months,
                        self@.lumber == v0.lumber,
                        self@.map.len() == v0.map.len(),
                        v0.mauls <= self@.mauls <= v0.mauls + 1,
                        wanders < crate::model::BEAR_WANDERS_PER_MONTH ==> self@.mauls
                            == v0.mauls,
                        wf_map(self@.map),
                        crate::model::bear_wander(
                            s0,
                            start as int,
                            crate::model::BEAR_WANDERS_PER_MONTH as nat,
                            w,
                            h,
                        ) == crate::model::bear_wander(
                            crate::model::sim_of(self@),
                            current_position as int,
                            (crate::model::BEAR_WANDERS_PER_MONTH - wanders) as nat,
                            w,
                            h,
                        ),
                        !has_wandered ==> wander_attempts == 0 && self@ == v_it
                            && current_position == cur_it && wanders == wanders_it,
                        has_wandered ==> wanders_it < wanders,
                    decreases (if has_wandered {
                        0int
                    } else {
                        1int
                    }), crate::model::BEAR_WANDER_ATTEMPTS - wander_attempts,
                {
                    match self.rng.pick(&position_candidates) {
                        Some(next_position) => {
                            let ghost dest = next_position as int;
                            proof {
                                let idx = pick_index(s_it.rng, cands.len() as int);
                                assert(0 <= idx < cands.len());
                                assert(as_ints(position_candidates@)[idx] == dest);
                                assert(cands[idx] == dest);
                                assert(cands.contains(dest));
                                lemma_adjacent_indices_props(cur_it as int, w, h);
                                assert(adjacent_indices(cur_it as int, w, h).contains(dest));
                                assert(dest != cur_it as int && 0 <= dest < v0.map.len());
                                cell::lemma_mask_zero(self.map@[dest]);
                                assert(bear_val(self.map@[dest]) == 0);
                            }
                            Self::remove_entity(&mut self.map, current_position, BEAR_REMOVE_MASK);
                            proof {
                                cell::lemma_remove_bear(s_it.map[cur_it as int]);
                                lemma_wf_update(
                                    s_it.map,
                                    cur_it as int,
                                    cell::remove_spec(s_it.map[cur_it as int], BEAR_REMOVE_MASK),
                                );
                                cell::lemma_mask_zero(self.map@[dest]);
                                assert(bear_val(self.map@[dest]) == 0);
                                cell::lemma_place_bear(self.map@[dest]);
                                lemma_wf_update(
                                    self.map@,
                                    dest,
                                    cell::place_spec(self.map@[dest], BEAR_SHIFT),
                                );
                            }
                            Self::place_entity(&mut self.map, next_position, BEAR_SHIFT);
                            let ghost moved = crate::model::move_spec(
                                s_it.map,
                                cur_it as int,
                                dest,
                                BEAR_REMOVE_MASK,
                                BEAR_SHIFT,
                            );
                            proof {
                                assert(self.map@ =~= moved);
                            }
                            let ghost s1 = Sim {
                                map: moved,
                                rng: next_state(s_it.rng),
                                lumber: s_it.lumber,
                                mauls: s_it.mauls,
                            };
                            proof {
                                assert(crate::model::sim_of(self@) =~= s1);
                                cell::lemma_mask_zero(moved[dest]);
                            }

                            let chosen_cell = self.map[next_position];
                            if chosen_cell & JACK_MASK > 0 {
                                let result = self.rng.next() as u32 % 100;
                                if result < cell::get_jack_maul_chance(chosen_cell) {
                                    self.yearly_mauls = self.yearly_mauls + 1;
                                    Self::remove_entity(
                                        &mut self.map,
                                        next_position,
                                        JACK_REMOVE_MASK,
                                    );
                                    proof {
                                        cell::lemma_remove_jack(moved[dest]);
                                        lemma_wf_update(
                                            moved,
                                            dest,
                                            cell::remove_spec(moved[dest], JACK_REMOVE_MASK),
                                        );
                                        assert(crate::model::sim_of(self@)
                                            =~= crate::model::bear_jack_encounter(s1, dest));
                                    }
                                } else {
                                    proof {
                                        cell::lemma_field_bounds(moved[dest]);
                                        if jack_level(moved[dest]) > 1 {
                                            cell::lemma_set_jack(
                                                moved[dest],
                                                (jack_level(moved[dest]) - 1) as u16,
                                            );
                                            lemma_wf_update(
                                                moved,
                                                dest,
                                                cell::set_jack_spec(
                                                    moved[dest],
                                                    (jack_level(moved[dest]) - 1) as u16,
                                                ),
                                            );
                                        }
                                    }
                                    Self::de_level_jack(&mut self.map, next_position);
                                    proof {
                                        assert(crate::model::sim_of(self@)
                                            =~= crate::model::bear_jack_encounter(s1, dest));
                                    }
                                }

                                wanders = crate::model::BEAR_WANDERS_PER_MONTH;
                                proof {
                                    assert(crate::model::bear_wander(
                                        s_it,
                                        cur_it as int,
                                        b_it,
                                        w,
                                        h,
                                    ) == crate::model::bear_jack_encounter(s1, dest));
                                }
                            } else {
                                wanders = wanders + 1;
                                proof {
                                    assert(crate::model::bear_wander(
                                        s_it,
                                        cur_it as int,
                                        b_it,
                                        w,
                                        h,
                                    ) == crate::model::bear_wander(
                                        s1,
                                        dest,
                                        (b_it - 1) as nat,
                                        w,
                                        h,
                                    ));
                                }
                            }

                            current_position = next_position;
                            has_wandered = true;
                        },
                        None => {
                            wander_attempts = wander_attempts + 1;
                        },
                    }
                }

                if !has_wandered {
                    stopped = true;
                }
            }
        }
        proof {
            assert(final(self)@ =~= crate::model::with_sim(
                v0,
                crate::model::bear_wander(
                    s0,
                    start as int,
                    crate::model::BEAR_WANDERS_PER_MONTH as nat,
                    w,
                    h,
                ),
            ));
        }
    }

    /// The bear phase: snapshot every cell holding a bear, then let each
    /// wander for the month in ascending index order.
    #[verifier::loop_isolation(false)]
    fn trigger_bear_event(&mut self)
        requires
            1 <= old(self)@.width,
            1 <= old(self)@.height,
            old(self)@.map.len() == old(self)@.width * old(self)@.height,
            old(self)@.map.len() <= MAX_CELLS as int,
            wf_map(old(self)@.map),
            old(self)@.mauls >= 0,
            old(self)@.mauls + old(self)@.map.len() <= u32::MAX,
        ensures
            final(self)@ == crate::model::with_sim(
                old(self)@,
                crate::model::bear_phase(
                    crate::model::sim_of(old(self)@),
                    old(self)@.width,
                    old(self)@.height,
                ),
            ),
            wf_map(final(self)@.map),
            final(self)@.map.len() == old(self)@.map.len(),
            old(self)@.mauls <= final(self)@.mauls <= old(self)@.mauls + old(self)@.map.len(),
            final(self)@.lumber == old(self)@.lumber,
    {
        let ghost v0 = self@;
        let ghost s0 = crate::model::sim_of(v0);
        let ghost w = v0.width;
        let ghost h = v0.height;

        let positions = Self::get_entity_positions(&self.map, BEAR_MASK, BEAR_SHIFT);
        let ghost ps = entity_positions(v0.map, BEAR_MASK, BEAR_SHIFT);
        let n = positions.len();
        for k in 0..n
            invariant
                self@.width == w,
                self@.height == h,
                self@.months == v0.months,
                self@.lumber == v0.lumber,
                self@.map.len() == v0.map.len(),
                v0.mauls <= self@.mauls <= v0.mauls + k,
                crate::model::sim_of(self@) == crate::model::bear_steps_upto(s0, ps, k as int, w, h),
                wf_map(self@.map),
        {
            let i = positions[k];
            self.bear_month(i);
            proof {
                assert(crate::model::sim_of(self@) == crate::model::bear_steps_upto(
                    s0,
                    ps,
                    k + 1 as int,
                    w,
                    h,
                ));
            }
        }
        proof {
            assert(final(self)@ =~= crate::model::with_sim(
                v0,
                crate::model::bear_phase(s0, w, h),
            ));
        }
    }

    /// Yearly population control, run after every twelfth month: hire or
    /// fire jacks against the year's lumber, add or remove a bear against
    /// the year's mauls, then reset both counters.
    #[verifier::loop_isolation(false)]
    fn trigger_yearly_events(&mut self)
        requires
            1 <= old(self)@.width,
            1 <= old(self)@.height,
            old(self)@.map.len() == old(self)@.width * old(self)@.height,
            old(self)@.map.len() <= MAX_CELLS as int,
            wf_map(old(self)@.map),
            0 <= old(self)@.lumber,
            0 <= old(self)@.mauls,
        ensures
            final(self)@ == crate::model::with_sim(
                old(self)@,
                crate::model::yearly_events(crate::model::sim_of(old(self)@)),
            ),
            wf_map(final(self)@.map),
            final(self)@.map.len() == old(self)@.map.len(),
            final(self)@.lumber == 0,
            final(self)@.mauls == 0,
    {
        let ghost v0 = self@;
        let ghost s0 = crate::model::sim_of(v0);

        let jacks = Self::get_entity_positions(&self.map, JACK_MASK, JACK_SHIFT);
        let ghost jacks_spec = entity_positions(v0.map, JACK_MASK, JACK_SHIFT);

        if self.yearly_lumber as usize > jacks.len() {
            let excess_lumber = self.yearly_lumber as usize - jacks.len();
            let new_jacks = excess_lumber / 10;
            proof {
                assert(new_jacks as int == (s0.lumber - jacks_spec.len() as int) / 10);
            }
            for n in 0..new_jacks
                invariant
                    self@.width == v0.width,
                    self@.height == v0.height,
                    self@.months == v0.months,
                    self@.lumber == v0.lumber,
                    self@.mauls == v0.mauls,
                    self@.map.len() == v0.map.len(),
                    crate::model::sim_of(self@) == crate::model::hire_upto(s0, n as int),
                    wf_map(self@.map),
            {
                let ghost s_pre = crate::model::sim_of(self@);
                if let Some(index) = Self::get_open_space(&mut self.rng, &self.map) {
                    proof {
                        cell::lemma_zero_cell();
                        assert(jack_level(self.map@[index as int]) == 0);
                        cell::lemma_place_jack(self.map@[index as int]);
                        lemma_wf_update(
                            self.map@,
                            index as int,
                            cell::place_spec(self.map@[index as int], JACK_SHIFT),
                        );
                    }
                    Self::place_entity(&mut self.map, index, JACK_SHIFT);
                }
                proof {
                    assert(crate::model::sim_of(self@) =~= crate::model::hire_one(s_pre));
                }
            }
        } else {
            if jacks.len() > 1 {
                if let Some(index) = self.rng.pick(&jacks) {
                    proof {
                        lemma_positions_upto_props(
                            v0.map,
                            JACK_MASK,
                            JACK_SHIFT,
                            v0.map.len() as int,
                        );
                        cell::lemma_remove_jack(self.map@[index as int]);
                        lemma_wf_update(
                            self.map@,
                            index as int,
                            cell::remove_spec(self.map@[index as int], JACK_REMOVE_MASK),
                        );
                    }
                    Self::remove_entity(&mut self.map, index, JACK_REMOVE_MASK);
                }
            }
        }

        let ghost s1 = crate::model::sim_of(self@);
        proof {
            assert(s1 =~= (if s0.lumber > jacks_spec.len() {
                crate::model::hire_upto(s0, (s0.lumber - jacks_spec.len() as int) / 10)
            } else if jacks_spec.len() > 1 {
                Sim {
                    map: s0.map.update(
                        jacks_spec[pick_index(s0.rng, jacks_spec.len() as int)],
                        cell::remove_spec(
                            s0.map[jacks_spec[pick_index(s0.rng, jacks_spec.len() as int)]],
                            JACK_REMOVE_MASK,
                        ),
                    ),
                    rng: next_state(s0.rng),
                    lumber: s0.lumber,
                    mauls: s0.mauls,
                }
            } else {
                s0
            }));
        }

        let bears = Self::get_entity_positions(&self.map, BEAR_MASK, BEAR_SHIFT);
        let ghost bears_spec = entity_positions(s1.map, BEAR_MASK, BEAR_SHIFT);

        if self.yearly_mauls == 0 {
            if let Some(index) = Self::get_open_space(&mut self.rng, &self.map) {
                proof {
                    cell::lemma_zero_cell();
                    assert(bear_val(self.map@[index as int]) == 0);
                    cell::lemma_place_bear(self.map@[index as int]);
                    lemma_wf_update(
                        self.map@,
                        index as int,
                        cell::place_spec(self.map@[index as int], BEAR_SHIFT),
                    );
                }
                Self::place_entity(&mut self.map, index, BEAR_SHIFT);
            }
        } else {
            if let Some(index) = self.rng.pick(&bears) {
                proof {
                    lemma_positions_upto_props(s1.map, BEAR_MASK, BEAR_SHIFT, s1.map.len() as int);
                    cell::lemma_remove_bear(self.map@[index as int]);
                    lemma_wf_update(
                        self.map@,
                        index as int,
                        cell::remove_spec(self.map@[index as int], BEAR_REMOVE_MASK),
                    );
                }
                Self::remove_entity(&mut self.map, index, BEAR_REMOVE_MASK);
            }
        }

        self.yearly_lumber = 0;
        self.yearly_mauls = 0;

        proof {
            assert(final(self)@ =~= crate::model::with_sim(
                v0,
                crate::model::yearly_events(s0),
            ));
        }
    }

    /// Advances the simulation by exactly one month: the month counter
    /// steps, then the tree, jack and bear phases run in that fixed order,
    /// and every twelfth month ends with the yearly events. The whole step
    /// computes `next_month` of the previous state, so two forests with
    /// equal states stay equal forever; the yearly counters read zero right
    /// after every twelfth call and never shrink in between.
    pub fn update(&mut self)
        requires
            old(self).wf(),
            old(self)@.months < u32::MAX,
        ensures
            final(self).wf(),
            final(self)@ == crate::model::next_month(old(self)@),
            final(self)@.months == old(self)@.months + 1,
            final(self)@.months % 12 == 0 ==> final(self)@.lumber == 0 && final(self)@.mauls == 0,
            final(self)@.months % 12 != 0 ==> final(self)@.lumber >= old(self)@.lumber
                && final(self)@.mauls >= old(self)@.mauls,
    {
        let ghost v0 = self@;
        let ghost cells = v0.map.len() as int;
        proof {
            assert(v0.lumber + 2 * cells <= u32::MAX && v0.mauls + cells <= u32::MAX)
                by (nonlinear_arith)
                requires
                    0 <= v0.lumber <= 2 * cells * (v0.months % 12),
                    0 <= v0.mauls <= cells * (v0.months % 12),
                    0 <= cells <= MAX_CELLS as int,
                    0 <= v0.months % 12 < 12,
            ;
        }
        self.months_elapsed = self.months_elapsed + 1;

        self.trigger_tree_event();
        self.trigger_jack_event();
        self.trigger_bear_event();

        if self.months_elapsed % 12 == 0 {
            self.trigger_yearly_events();
        }

        proof {
            assert(final(self)@ =~= crate::model::next_month(v0));
            assert(final(self).wf()) by {
                let m1 = v0.months + 1;
                if m1 % 12 != 0 {
                    assert(m1 % 12 == (v0.months % 12) + 1);
                    assert(final(self)@.lumber <= 2 * cells * (m1 % 12) && final(self)@.mauls
                        <= cells * (m1 % 12)) by (nonlinear_arith)
                        requires
                            final(self)@.lumber <= v0.lumber + 2 * cells,
                            final(self)@.mauls <= v0.mauls + cells,
                            v0.lumber <= 2 * cells * (v0.months % 12),
                            v0.mauls <= cells * (v0.months % 12),
                            m1 % 12 == (v0.months % 12) + 1,
                            0 <= cells,
                    ;
                }
            }
        }
    }

    /// Ages the tree at `index` by one month, saturating at 255; `cell` is
    /// the cell's value, read before any mutation this phase step makes.
    fn age_tree(map: &mut Vec<u16>, index: usize, cell: u16)
        requires
            index < old(map)@.len(),
            old(map)@[index as int] == cell,
        ensures
            final(map)@ == (if tree_age(cell) < 255 {
                old(map)@.update(index as int, cell::place_spec(cell, TREE_SHIFT))
            } else {
                old(map)@
            }),
    {
        let age = cell & TREE_MASK;
        if age < 255 {
            Self::place_entity(map, index, TREE_SHIFT);
        }
    }

    /// A failed chop: the tree at `index` is knocked back to the first age of
    /// its current stage instead of being destroyed.
    fn de_age_tree(map: &mut Vec<u16>, index: usize)
        requires
            index < old(map)@.len(),
        ensures
            ({
                let cell = old(map)@[index as int];
                let kind = cell::spec_tree_kind(tree_age(cell));
                final(map)@ == (if kind is Empty {
                    old(map)@
                } else {
                    old(map)@.update(
                        index as int,
                        cell::de_age_spec(cell, crate::model::de_age_target(kind)),
                    )
                })
            }),
    {
        let cell = map[index];

        match cell::get_tree_kind(cell) {
            TreeKind::Sapling => {
                proof {
                    cell::lemma_de_age(cell, 1);
                }
                map[index] = cell - ((cell & TREE_MASK) - 1);
            },
            TreeKind::Mature => {
                proof {
                    cell::lemma_de_age(cell, 12);
                }
                map[index] = cell - ((cell & TREE_MASK) - 12);
            },
            TreeKind::Elder => {
                proof {
                    cell::lemma_de_age(cell, 120);
                }
                map[index] = cell - ((cell & TREE_MASK) - 120);
            },
            TreeKind::Empty => {
                return ;
            },
        }
    }

    /// Raises the jack at `index` by the harvested amount, capped at the
    /// maximum level.
    fn level_up_jack(map: &mut Vec<u16>, index: usize, lumber: u32)
        requires
            index < old(map)@.len(),
            lumber <= 5,
        ensures
            ({
                let cell = old(map)@[index as int];
                let lv = jack_level(cell);
                final(map)@ == (if lv <= JACK_MAX_LEVEL {
                    old(map)@.update(
                        index as int,
                        cell::set_jack_spec(cell, crate::model::leveled_up(lv, lumber)),
                    )
                } else {
                    old(map)@
                })
            }),
    {
        let cell = map[index];
        let current_level = (cell & JACK_MASK) >> JACK_SHIFT;

        if current_level <= JACK_MAX_LEVEL {
            let raised = current_level + (lumber as u16);
            let level = if raised <= JACK_MAX_LEVEL {
                raised
            } else {
                JACK_MAX_LEVEL
            };
            proof {
                cell::lemma_set_jack(cell, level as u16);
            }
            map[index] = (cell & JACK_REMOVE_MASK) + (level << JACK_SHIFT);
        }
    }

    /// Lowers the jack at `index` by one level, never below one.
    fn de_level_jack(map: &mut Vec<u16>, index: usize)
        requires
            index < old(map)@.len(),
        ensures
            ({
                let cell = old(map)@[index as int];
                let lv = jack_level(cell);
                final(map)@ == (if lv > 1 {
                    old(map)@.update(index as int, cell::set_jack_spec(cell, (lv - 1) as u16))
                } else {
                    old(map)@
                })
            }),
    {
        let cell = map[index];
        let level = (cell & JACK_MASK) >> JACK_SHIFT;

        if level > 1 {
            proof {
                cell::lemma_field_bounds(cell);
                cell::lemma_set_jack(cell, (level - 1) as u16);
            }
            map[index] = (cell & JACK_REMOVE_MASK) + ((level - 1) << JACK_SHIFT);
        }
    }

    /// The valid Moore-neighbour indices of `index`, in the fixed order the
    /// phases walk them.
    fn get_adjacent_positions(&self, index: usize) -> (r: Vec<usize>)
        requires
            1 <= self@.width,
            1 <= self@.height,
            (index as int) < self@.width * self@.height,
            self@.width * self@.height <= MAX_CELLS as int,
        ensures
            as_ints(r@) == adjacent_indices(index as int, self@.width, self@.height),
            forall|k: int|
                0 <= k < r@.len() ==> (#[trigger] r@[k] as int) < self@.width * self@.height
                    && r@[k] as int != index as int,
    {
        let width = self.width;
        let height = self.height;
        let ghost wi = width as int;
        let ghost hi = height as int;
        let ghost xi = (index as int) % wi;
        let ghost yi = (index as int) / wi;
        proof {
            vstd::arithmetic::div_mod::lemma_mod_bound(index as int, wi);
            assert(0 <= yi && yi < hi) by (nonlinear_arith)
                requires
                    wi >= 1 && 0 <= index as int && (index as int) < wi * hi && yi == (index as int)
                        / wi,
            ;
        }
        let x = index % width;
        let y = index / width;
        let mut r: Vec<usize> = Vec::new();
        if x >= 1 && y >= 1 {
            proof {
                lemma_index_in_grid(xi - 1, yi - 1, wi, hi);
            }
            r.push((y - 1) * width + (x - 1));
        }
        proof {
            assert(as_ints(r@) =~= crate::grid::maybe_idx(xi - 1, yi - 1, wi, hi));
        }
        if y >= 1 {
            proof {
                lemma_index_in_grid(xi, yi - 1, wi, hi);
            }
            r.push((y - 1) * width + x);
        }
        proof {
            assert(as_ints(r@) =~= crate::grid::maybe_idx(xi - 1, yi - 1, wi, hi)
                + crate::grid::maybe_idx(xi, yi - 1, wi, hi));
        }
        if x + 1 < width && y >= 1 {
            proof {
                lemma_index_in_grid(xi + 1, yi - 1, wi, hi);
            }
            r.push((y - 1) * width + (x + 1));
        }
        proof {
            assert(as_ints(r@) =~= crate::grid::maybe_idx(xi - 1, yi - 1, wi, hi)
                + crate::grid::maybe_idx(xi, yi - 1, wi, hi) + crate::grid::maybe_idx(
                xi + 1,
                yi - 1,
                wi,
                hi,
            ));
        }
        if x >= 1 {
            proof {
                lemma_index_in_grid(xi - 1, yi, wi, hi);
            }
            r.push(y * width + (x - 1));
        }
        proof {
            assert(as_ints(r@) =~= crate::grid::maybe_idx(xi - 1, yi - 1, wi, hi)
                + crate::grid::maybe_idx(xi, yi - 1, wi, hi) + crate::grid::maybe_idx(
                xi + 1,
                yi - 1,
                wi,
                hi,
            ) + crate::grid::maybe_idx(xi - 1, yi, wi, hi));
        }
        if x + 1 < width {
            proof {
                lemma_index_in_grid(xi + 1, yi, wi, hi);
            }
            r.push(y * width + (x + 1));
        }
        proof {
            assert(as_ints(r@) =~= crate::grid::maybe_idx(xi - 1, yi - 1, wi, hi)
                + crate::grid::maybe_idx(xi, yi - 1, wi, hi) + crate::grid::maybe_idx(
                xi + 1,
                yi - 1,
                wi,
                hi,
            ) + crate::grid::maybe_idx(xi - 1, yi, wi, hi) + crate::grid::maybe_idx(
                xi + 1,
                yi,
                wi,
                hi,
            ));
        }
        if x >= 1 && y + 1 < height {
            proof {
                lemma_index_in_grid(xi - 1, yi + 1, wi, hi);
            }
            r.push((y + 1) * width + (x - 1));
        }
        proof {
            assert(as_ints(r@) =~= crate::grid::maybe_idx(xi - 1, yi - 1, wi, hi)
                + crate::grid::maybe_idx(xi, yi - 1, wi, hi) + crate::grid::maybe_idx(
                xi + 1,
                yi - 1,
                wi,
                hi,
            ) + crate::grid::maybe_idx(xi - 1, yi, wi, hi) + crate::grid::maybe_idx(
                xi + 1,
                yi,
                wi,
                hi,
            ) + crate::grid::maybe_idx(xi - 1, yi + 1, wi, hi));
        }
        if y + 1 < height {
            proof {
                lemma_index_in_grid(xi, yi + 1, wi, hi);
            }
            r.push((y + 1) * width + x);
        }
        proof {
            assert(as_ints(r@) =~= crate::grid::maybe_idx(xi - 1, yi - 1, wi, hi)
                + crate::grid::maybe_idx(xi, yi - 1, wi, hi) + crate::grid::maybe_idx(
                xi + 1,
                yi - 1,
                wi,
                hi,
            ) + crate::grid::maybe_idx(xi - 1, yi, wi, hi) + crate::grid::maybe_idx(
                xi + 1,
                yi,
                wi,
                hi,
            ) + crate::grid::maybe_idx(xi - 1, yi + 1, wi, hi) + crate::grid::maybe_idx(
                xi,
                yi + 1,
                wi,
                hi,
            ));
        }
        if x + 1 < width && y + 1 < height {
            proof {
                lemma_index_in_grid(xi + 1, yi + 1, wi, hi);
            }
            r.push((y + 1) * width + (x + 1));
        }
        proof {
            assert(as_ints(r@) =~= adjacent_indices(index as int, wi, hi));
            lemma_adjacent_indices_props(index as int, wi, hi);
            assert forall|k: int| 0 <= k < r@.len() implies (#[trigger] r@[k] as int) < wi * hi
                && r@[k] as int != index as int by {
                assert(as_ints(r@)[k] == r@[k] as int);
            }
        }
        r
    }
}

} // verus!
