//! Global laws of the simulation, proved once over the functional model:
//! which phases can change which population, and that the whole pipeline is
//! a deterministic function of the forest state.

use vstd::prelude::*;

use crate::cell;
use crate::cell::{
    bear_val, jack_level, tree_age, BEAR_MASK, BEAR_REMOVE_MASK, BEAR_SHIFT, JACK_MASK,
    JACK_REMOVE_MASK, JACK_SHIFT, TREE_MASK, TREE_REMOVE_MASK, TREE_SHIFT,
};
use crate::grid::{adjacent_indices, lemma_adjacent_indices_props};
use crate::model::{
    bear_phase, bear_steps_upto, bear_wander, entity_positions, free_positions, jack_phase,
    jack_steps_upto, jack_wander, lemma_free_upto_props, lemma_positions_upto_props, months_later,
    tree_phase, tree_step, tree_steps_upto, Sim,
};

verus! {

/// How many of the first `n` cells hold a tree.
pub open spec fn tree_count_upto(map: Seq<u16>, n: int) -> int
    decreases n,
{
    if n <= 0 {
        0
    } else {
        tree_count_upto(map, n - 1) + if tree_age(map[n - 1]) > 0 {
            1int
        } else {
            0int
        }
    }
}

/// How many cells hold a tree.
pub open spec fn tree_count(map: Seq<u16>) -> int {
    tree_count_upto(map, map.len() as int)
}

/// How many of the first `n` cells hold a jack.
pub open spec fn jack_count_upto(map: Seq<u16>, n: int) -> int
    decreases n,
{
    if n <= 0 {
        0
    } else {
        jack_count_upto(map, n - 1) + if jack_level(map[n - 1]) > 0 {
            1int
        } else {
            0int
        }
    }
}

/// How many cells hold a jack.
pub open spec fn jack_count(map: Seq<u16>) -> int {
    jack_count_upto(map, map.len() as int)
}

/// How many of the first `n` cells hold a bear.
pub open spec fn bear_count_upto(map: Seq<u16>, n: int) -> int
    decreases n,
{
    if n <= 0 {
        0
    } else {
        bear_count_upto(map, n - 1) + if bear_val(map[n - 1]) > 0 {
            1int
        } else {
            0int
        }
    }
}

/// How many cells hold a bear.
pub open spec fn bear_count(map: Seq<u16>) -> int {
    bear_count_upto(map, map.len() as int)
}

/// Updating one cell moves the jack count by the difference the cell makes.
proof fn lemma_jack_count_update(map: Seq<u16>, i: int, c: u16, n: int)
    requires
        0 <= i < map.len(),
        n <= map.len(),
    ensures
        jack_count_upto(map.update(i, c), n) == jack_count_upto(map, n) + if 0 <= i < n {
            (if jack_level(c) > 0 {
                1int
            } else {
                0int
            }) - (if jack_level(map[i]) > 0 {
                1int
            } else {
                0int
            })
        } else {
            0int
        },
    decreases n,
{
    if n > 0 {
        lemma_jack_count_update(map, i, c, n - 1);
    }
}

/// Updating one cell moves the bear count by the difference the cell makes.
proof fn lemma_bear_count_update(map: Seq<u16>, i: int, c: u16, n: int)
    requires
        0 <= i < map.len(),
        n <= map.len(),
    ensures
        bear_count_upto(map.update(i, c), n) == bear_count_upto(map, n) + if 0 <= i < n {
            (if bear_val(c) > 0 {
                1int
            } else {
                0int
            }) - (if bear_val(map[i]) > 0 {
                1int
            } else {
                0int
            })
        } else {
            0int
        },
    decreases n,
{
    if n > 0 {
        lemma_bear_count_update(map, i, c, n - 1);
    }
}

/// Updating one cell moves the tree count by the difference the cell makes.
proof fn lemma_tree_count_update(map: Seq<u16>, i: int, c: u16, n: int)
    requires
        0 <= i < map.len(),
        n <= map.len(),
    ensures
        tree_count_upto(map.update(i, c), n) == tree_count_upto(map, n) + if 0 <= i < n {
            (if tree_age(c) > 0 {
                1int
            } else {
                0int
            }) - (if tree_age(map[i]) > 0 {
                1int
            } else {
                0int
            })
        } else {
            0int
        },
    decreases n,
{
    if n > 0 {
        lemma_tree_count_update(map, i, c, n - 1);
    }
}

/// One tree's step touches no jack or bear field and destroys no tree.
proof fn lemma_tree_step_fields(s: Sim, i: int, w: int, h: int)
    requires
        w >= 1,
        h >= 1,
        s.map.len() == w * h,
        0 <= i < s.map.len(),
    ensures
        ({
            let r = tree_step(s, i, w, h);
            &&& r.map.len() == s.map.len()
            &&& forall|j: int|
                0 <= j < s.map.len() ==> jack_level(#[trigger] r.map[j]) == jack_level(s.map[j])
                    && bear_val(r.map[j]) == bear_val(s.map[j]) && (tree_age(s.map[j]) > 0
                    ==> tree_age(r.map[j]) > 0)
            &&& r.lumber == s.lumber
            &&& r.mauls == s.mauls
        }),
{
    let r = tree_step(s, i, w, h);
    let cell = s.map[i];
    let aged = if tree_age(cell) < 255 {
        s.map.update(i, cell::place_spec(cell, TREE_SHIFT))
    } else {
        s.map
    };
    if tree_age(cell) < 255 {
        cell::lemma_place_tree(cell);
    }
    assert forall|j: int|
        0 <= j < s.map.len() implies jack_level(#[trigger] aged[j]) == jack_level(s.map[j])
        && bear_val(aged[j]) == bear_val(s.map[j]) && (tree_age(s.map[j]) > 0 ==> tree_age(aged[j])
        > 0) by {
        if tree_age(cell) < 255 && j != i {
            assert(aged[j] == s.map[j]);
        }
    }
    let cands = free_positions(aged, adjacent_indices(i, w, h), TREE_MASK);
    lemma_free_upto_props(aged, adjacent_indices(i, w, h), TREE_MASK, adjacent_indices(i, w, h).len() as int);
    lemma_adjacent_indices_props(i, w, h);
    if crate::model::roll(s.rng) <= crate::tree::spawn_chance_of(
        cell::spec_tree_kind(tree_age(cell)),
    ) && cands.len() > 0 {
        let c = cands[crate::random::pick_index(crate::random::next_state(s.rng), cands.len() as int)];
        assert(cands.contains(c));
        assert(adjacent_indices(i, w, h).contains(c));
        assert(0 <= c < s.map.len());
        cell::lemma_place_tree(aged[c]);
        assert forall|j: int|
            0 <= j < s.map.len() implies jack_level(#[trigger] r.map[j]) == jack_level(aged[j])
            && bear_val(r.map[j]) == bear_val(aged[j]) && (tree_age(aged[j]) > 0 ==> tree_age(
            r.map[j],
        ) > 0) by {
            if j != c {
                assert(r.map[j] == aged[j]);
            }
        }
    }
}

/// The tree phase up to `k` steps touches no jack or bear field and destroys
/// no tree.
proof fn lemma_tree_steps_fields(s: Sim, ps: Seq<int>, k: int, w: int, h: int)
    requires
        w >= 1,
        h >= 1,
        s.map.len() == w * h,
        0 <= k <= ps.len(),
        forall|t: int| 0 <= t < ps.len() ==> 0 <= #[trigger] ps[t] < s.map.len(),
    ensures
        ({
            let r = tree_steps_upto(s, ps, k, w, h);
            &&& r.map.len() == s.map.len()
            &&& forall|j: int|
                0 <= j < s.map.len() ==> jack_level(#[trigger] r.map[j]) == jack_level(s.map[j])
                    && bear_val(r.map[j]) == bear_val(s.map[j]) && (tree_age(s.map[j]) > 0
                    ==> tree_age(r.map[j]) > 0)
            &&& r.lumber == s.lumber
            &&& r.mauls == s.mauls
        }),
    decreases k,
{
    if k > 0 {
        lemma_tree_steps_fields(s, ps, k - 1, w, h);
        lemma_tree_step_fields(tree_steps_upto(s, ps, k - 1, w, h), ps[k - 1], w, h);
    }
}

/// Population conservation, tree phase: the jack and bear populations are
/// untouched (field by field, hence in count), no tree is destroyed, and the
/// yearly counters do not move.
pub proof fn lemma_tree_phase_population(s: Sim, w: int, h: int)
    requires
        w >= 1,
        h >= 1,
        s.map.len() == w * h,
    ensures
        ({
            let r = tree_phase(s, w, h);
            &&& r.map.len() == s.map.len()
            &&& forall|j: int|
                0 <= j < s.map.len() ==> jack_level(#[trigger] r.map[j]) == jack_level(s.map[j])
                    && bear_val(r.map[j]) == bear_val(s.map[j]) && (tree_age(s.map[j]) > 0
                    ==> tree_age(r.map[j]) > 0)
            &&& jack_count(r.map) == jack_count(s.map)
            &&& bear_count(r.map) == bear_count(s.map)
            &&& tree_count(r.map) >= tree_count(s.map)
            &&& r.lumber == s.lumber
            &&& r.mauls == s.mauls
        }),
{
    let ps = entity_positions(s.map, TREE_MASK, TREE_SHIFT);
    lemma_positions_upto_props(s.map, TREE_MASK, TREE_SHIFT, s.map.len() as int);
    lemma_tree_steps_fields(s, ps, ps.len() as int, w, h);
    let r = tree_phase(s, w, h);
    lemma_counts_of_pointwise_jack_bear(s.map, r.map);
    lemma_tree_count_monotone(s.map, r.map, s.map.len() as int);
}

/// Field-by-field agreement on jacks and bears carries the counts over.
proof fn lemma_counts_of_pointwise_jack_bear(m1: Seq<u16>, m2: Seq<u16>)
    requires
        m1.len() == m2.len(),
        forall|j: int|
            0 <= j < m1.len() ==> jack_level(#[trigger] m2[j]) == jack_level(m1[j]) && bear_val(
                m2[j],
            ) == bear_val(m1[j]),
    ensures
        jack_count(m2) == jack_count(m1),
        bear_count(m2) == bear_count(m1),
{
    lemma_counts_of_pointwise_helper(m1, m2, m1.len() as int);
}

proof fn lemma_counts_of_pointwise_helper(m1: Seq<u16>, m2: Seq<u16>, n: int)
    requires
        m1.len() == m2.len(),
        n <= m1.len(),
        forall|j: int|
            0 <= j < m1.len() ==> jack_level(#[trigger] m2[j]) == jack_level(m1[j]) && bear_val(
                m2[j],
            ) == bear_val(m1[j]),
    ensures
        jack_count_upto(m2, n) == jack_count_upto(m1, n),
        bear_count_upto(m2, n) == bear_count_upto(m1, n),
    decreases n,
{
    if n > 0 {
        lemma_counts_of_pointwise_helper(m1, m2, n - 1);
    }
}

/// A map where no tree disappears cell-wise has at least as many trees.
proof fn lemma_tree_count_monotone(m1: Seq<u16>, m2: Seq<u16>, n: int)
    requires
        m1.len() == m2.len(),
        n <= m1.len(),
        forall|j: int| 0 <= j < m1.len() ==> tree_age(#[trigger] m1[j]) > 0 ==> tree_age(m2[j]) > 0,
    ensures
        tree_count_upto(m2, n) >= tree_count_upto(m1, n),
    decreases n,
{
    if n > 0 {
        lemma_tree_count_monotone(m1, m2, n - 1);
    }
}

/// One jack's wander: no bear field moves, no tree appears, the jack
/// population keeps its size, every other jack stays, and the maul counter
/// is untouched.
proof fn lemma_jack_wander_fields(s: Sim, pos: int, b: nat, w: int, h: int)
    requires
        w >= 1,
        h >= 1,
        s.map.len() == w * h,
        0 <= pos < s.map.len(),
        jack_level(s.map[pos]) >= 1,
    ensures
        ({
            let r = jack_wander(s, pos, b, w, h);
            &&& r.map.len() == s.map.len()
            &&& forall|j: int|
                0 <= j < s.map.len() ==> bear_val(#[trigger] r.map[j]) == bear_val(s.map[j]) && (
                tree_age(s.map[j]) == 0 ==> tree_age(r.map[j]) == 0)
            &&& jack_count(r.map) == jack_count(s.map)
            &&& forall|j: int|
                0 <= j < s.map.len() && j != pos && jack_level(#[trigger] s.map[j]) >= 1
                    ==> jack_level(r.map[j]) >= 1
            &&& r.mauls == s.mauls
            &&& r.lumber >= s.lumber
        }),
    decreases b,
{
    if b == 0 {
        return ;
    }
    let cands = free_positions(s.map, adjacent_indices(pos, w, h), JACK_MASK);
    if cands.len() == 0 {
        return ;
    }
    lemma_free_upto_props(
        s.map,
        adjacent_indices(pos, w, h),
        JACK_MASK,
        adjacent_indices(pos, w, h).len() as int,
    );
    lemma_adjacent_indices_props(pos, w, h);
    let dest = cands[crate::random::pick_index(s.rng, cands.len() as int)];
    assert(cands.contains(dest));
    assert(adjacent_indices(pos, w, h).contains(dest));
    assert(0 <= dest < s.map.len() && dest != pos);
    cell::lemma_mask_zero(s.map[dest]);
    assert(jack_level(s.map[dest]) == 0);

    let m1 = s.map.update(pos, cell::remove_spec(s.map[pos], JACK_REMOVE_MASK));
    cell::lemma_remove_jack(s.map[pos]);
    lemma_jack_count_update(
        s.map,
        pos,
        cell::remove_spec(s.map[pos], JACK_REMOVE_MASK),
        s.map.len() as int,
    );
    let moved = m1.update(dest, cell::place_spec(m1[dest], JACK_SHIFT));
    cell::lemma_place_jack(m1[dest]);
    lemma_jack_count_update(m1, dest, cell::place_spec(m1[dest], JACK_SHIFT), m1.len() as int);
    assert(jack_count(moved) == jack_count(s.map));
    assert(moved =~= crate::model::move_spec(s.map, pos, dest, JACK_REMOVE_MASK, JACK_SHIFT));

    let s1 = Sim { map: moved, rng: crate::random::next_state(s.rng), ..s };
    if tree_age(moved[dest]) > 0 {
        let r = crate::model::jack_tree_encounter(s1, dest);
        let cell0 = moved[dest];
        let kind = cell::spec_tree_kind(tree_age(cell0));
        if crate::model::roll(s1.rng) < crate::tree::harvest_chance_of(kind) {
            let cleared = cell::remove_spec(cell0, TREE_REMOVE_MASK);
            cell::lemma_remove_tree(cell0);
            let amt = crate::tree::harvest_amount_of(kind);
            let lv = jack_level(cleared);
            assert(lv == 1);
            cell::lemma_set_jack(cleared, crate::model::leveled_up(lv, amt));
            let leveled = cell::set_jack_spec(cleared, crate::model::leveled_up(lv, amt));
            lemma_jack_count_update(moved, dest, leveled, moved.len() as int);
            assert(jack_count(r.map) == jack_count(s.map));
        } else {
            let target = crate::model::de_age_target(kind);
            cell::lemma_de_age(cell0, target);
            lemma_jack_count_update(
                moved,
                dest,
                cell::de_age_spec(cell0, target),
                moved.len() as int,
            );
            assert(jack_count(r.map) == jack_count(s.map));
        }
    } else {
        lemma_jack_wander_fields(s1, dest, (b - 1) as nat, w, h);
    }
}

/// The jack phase up to `k` steps keeps the jack population's size, every
/// snapshot jack not yet processed, the bear fields and the maul counter.
proof fn lemma_jack_steps_fields(s: Sim, ps: Seq<int>, k: int, w: int, h: int)
    requires
        w >= 1,
        h >= 1,
        s.map.len() == w * h,
        0 <= k <= ps.len(),
        forall|t: int| 0 <= t < ps.len() ==> 0 <= #[trigger] ps[t] < s.map.len(),
        forall|t1: int, t2: int| 0 <= t1 < t2 < ps.len() ==> ps[t1] < ps[t2],
        forall|t: int| 0 <= t < ps.len() ==> jack_level(s.map[#[trigger] ps[t]]) >= 1,
    ensures
        ({
            let r = jack_steps_upto(s, ps, k, w, h);
            &&& r.map.len() == s.map.len()
            &&& forall|j: int|
                0 <= j < s.map.len() ==> bear_val(#[trigger] r.map[j]) == bear_val(s.map[j]) && (
                tree_age(s.map[j]) == 0 ==> tree_age(r.map[j]) == 0)
            &&& jack_count(r.map) == jack_count(s.map)
            &&& forall|t: int|
                k <= t < ps.len() ==> jack_level(r.map[#[trigger] ps[t]]) >= 1
            &&& r.mauls == s.mauls
            &&& r.lumber >= s.lumber
        }),
    decreases k,
{
    if k > 0 {
        lemma_jack_steps_fields(s, ps, k - 1, w, h);
        let prev = jack_steps_upto(s, ps, k - 1, w, h);
        lemma_jack_wander_fields(
            prev,
            ps[k - 1],
            crate::model::JACK_WANDERS_PER_MONTH as nat,
            w,
            h,
        );
    }
}

/// Population conservation, jack phase: the jack count is exactly preserved
/// (jacks only move), the bear fields are untouched, no tree appears, and
/// the maul counter does not move; lumber only grows.
pub proof fn lemma_jack_phase_population(s: Sim, w: int, h: int)
    requires
        w >= 1,
        h >= 1,
        s.map.len() == w * h,
    ensures
        ({
            let r = jack_phase(s, w, h);
            &&& r.map.len() == s.map.len()
            &&& forall|j: int|
                0 <= j < s.map.len() ==> bear_val(#[trigger] r.map[j]) == bear_val(s.map[j]) && (
                tree_age(s.map[j]) == 0 ==> tree_age(r.map[j]) == 0)
            &&& jack_count(r.map) == jack_count(s.map)
            &&& bear_count(r.map) == bear_count(s.map)
            &&& tree_count(r.map) <= tree_count(s.map)
            &&& r.mauls == s.mauls
            &&& r.lumber >= s.lumber
        }),
{
    let ps = entity_positions(s.map, JACK_MASK, JACK_SHIFT);
    lemma_positions_upto_props(s.map, JACK_MASK, JACK_SHIFT, s.map.len() as int);
    lemma_jack_steps_fields(s, ps, ps.len() as int, w, h);
    let r = jack_phase(s, w, h);
    lemma_bear_count_of_pointwise(s.map, r.map, s.map.len() as int);
    lemma_tree_count_monotone(r.map, s.map, s.map.len() as int);
}

/// Field-by-field agreement on bears carries the bear count over.
proof fn lemma_bear_count_of_pointwise(m1: Seq<u16>, m2: Seq<u16>, n: int)
    requires
        m1.len() == m2.len(),
        n <= m1.len(),
        forall|j: int| 0 <= j < m1.len() ==> bear_val(#[trigger] m2[j]) == bear_val(m1[j]),
    ensures
        bear_count_upto(m2, n) == bear_count_upto(m1, n),
    decreases n,
{
    if n > 0 {
        lemma_bear_count_of_pointwise(m1, m2, n - 1);
    }
}

/// One bear's wander: no tree field moves, the bear population keeps its
/// size, every other bear stays, and a jack disappears exactly when the maul
/// counter steps.
proof fn lemma_bear_wander_fields(s: Sim, pos: int, b: nat, w: int, h: int)
    requires
        w >= 1,
        h >= 1,
        s.map.len() == w * h,
        0 <= pos < s.map.len(),
        bear_val(s.map[pos]) >= 1,
    ensures
        ({
            let r = bear_wander(s, pos, b, w, h);
            &&& r.map.len() == s.map.len()
            &&& forall|j: int|
                0 <= j < s.map.len() ==> tree_age(#[trigger] r.map[j]) == tree_age(s.map[j])
            &&& bear_count(r.map) == bear_count(s.map)
            &&& forall|j: int|
                0 <= j < s.map.len() && j != pos && bear_val(#[trigger] s.map[j]) >= 1
                    ==> bear_val(r.map[j]) >= 1
            &&& jack_count(r.map) + r.mauls == jack_count(s.map) + s.mauls
            &&& r.lumber == s.lumber
            &&& r.mauls >= s.mauls
        }),
    decreases b,
{
    if b == 0 {
        return ;
    }
    let cands = free_positions(s.map, adjacent_indices(pos, w, h), BEAR_MASK);
    if cands.len() == 0 {
        return ;
    }
    lemma_free_upto_props(
        s.map,
        adjacent_indices(pos, w, h),
        BEAR_MASK,
        adjacent_indices(pos, w, h).len() as int,
    );
    lemma_adjacent_indices_props(pos, w, h);
    let dest = cands[crate::random::pick_index(s.rng, cands.len() as int)];
    assert(cands.contains(dest));
    assert(adjacent_indices(pos, w, h).contains(dest));
    assert(0 <= dest < s.map.len() && dest != pos);
    cell::lemma_mask_zero(s.map[dest]);
    assert(bear_val(s.map[dest]) == 0);

    let m1 = s.map.update(pos, cell::remove_spec(s.map[pos], BEAR_REMOVE_MASK));
    cell::lemma_remove_bear(s.map[pos]);
    lemma_bear_count_update(
        s.map,
        pos,
        cell::remove_spec(s.map[pos], BEAR_REMOVE_MASK),
        s.map.len() as int,
    );
    lemma_jack_count_update(
        s.map,
        pos,
        cell::remove_spec(s.map[pos], BEAR_REMOVE_MASK),
        s.map.len() as int,
    );
    let moved = m1.update(dest, cell::place_spec(m1[dest], BEAR_SHIFT));
    cell::lemma_place_bear(m1[dest]);
    lemma_bear_count_update(m1, dest, cell::place_spec(m1[dest], BEAR_SHIFT), m1.len() as int);
    lemma_jack_count_update(m1, dest, cell::place_spec(m1[dest], BEAR_SHIFT), m1.len() as int);
    assert(bear_count(moved) == bear_count(s.map));
    assert(jack_count(moved) == jack_count(s.map));
    assert(moved =~= crate::model::move_spec(s.map, pos, dest, BEAR_REMOVE_MASK, BEAR_SHIFT));

    let s1 = Sim { map: moved, rng: crate::random::next_state(s.rng), ..s };
    if jack_level(moved[dest]) > 0 {
        let r = crate::model::bear_jack_encounter(s1, dest);
        let cell0 = moved[dest];
        if crate::model::roll(s1.rng) < cell::spec_maul_chance(jack_level(cell0)) {
            cell::lemma_remove_jack(cell0);
            lemma_jack_count_update(
                moved,
                dest,
                cell::remove_spec(cell0, JACK_REMOVE_MASK),
                moved.len() as int,
            );
            lemma_bear_count_update(
                moved,
                dest,
                cell::remove_spec(cell0, JACK_REMOVE_MASK),
                moved.len() as int,
            );
            assert(jack_count(r.map) + r.mauls == jack_count(s.map) + s.mauls);
        } else {
            let lv = jack_level(cell0);
            if lv > 1 {
                cell::lemma_field_bounds(cell0);
                cell::lemma_set_jack(cell0, (lv - 1) as u16);
            }
            let demoted = if lv > 1 {
                cell::set_jack_spec(cell0, (lv - 1) as u16)
            } else {
                cell0
            };
            lemma_jack_count_update(moved, dest, demoted, moved.len() as int);
            lemma_bear_count_update(moved, dest, demoted, moved.len() as int);
            assert(jack_count(r.map) + r.mauls == jack_count(s.map) + s.mauls);
        }
    } else {
        lemma_bear_wander_fields(s1, dest, (b - 1) as nat, w, h);
    }
}

/// The bear phase up to `k` steps keeps the bear population's size, every
/// snapshot bear not yet processed, the tree fields, and the jack-and-maul
/// conservation sum.
proof fn lemma_bear_steps_fields(s: Sim, ps: Seq<int>, k: int, w: int, h: int)
    requires
        w >= 1,
        h >= 1,
        s.map.len() == w * h,
        0 <= k <= ps.len(),
        forall|t: int| 0 <= t < ps.len() ==> 0 <= #[trigger] ps[t] < s.map.len(),
        forall|t1: int, t2: int| 0 <= t1 < t2 < ps.len() ==> ps[t1] < ps[t2],
        forall|t: int| 0 <= t < ps.len() ==> bear_val(s.map[#[trigger] ps[t]]) >= 1,
    ensures
        ({
            let r = bear_steps_upto(s, ps, k, w, h);
            &&& r.map.len() == s.map.len()
            &&& forall|j: int|
                0 <= j < s.map.len() ==> tree_age(#[trigger] r.map[j]) == tree_age(s.map[j])
            &&& bear_count(r.map) == bear_count(s.map)
            &&& forall|t: int|
                k <= t < ps.len() ==> bear_val(r.map[#[trigger] ps[t]]) >= 1
            &&& jack_count(r.map) + r.mauls == jack_count(s.map) + s.mauls
            &&& r.lumber == s.lumber
            &&& r.mauls >= s.mauls
        }),
    decreases k,
{
    if k > 0 {
        lemma_bear_steps_fields(s, ps, k - 1, w, h);
        let prev = bear_steps_upto(s, ps, k - 1, w, h);
        lemma_bear_wander_fields(
            prev,
            ps[k - 1],
            crate::model::BEAR_WANDERS_PER_MONTH as nat,
            w,
            h,
        );
    }
}

/// Population conservation, bear phase: the bear count is exactly preserved
/// (bears only move), the tree fields are untouched, the lumber counter does
/// not move, and a jack leaves the grid exactly when the maul counter steps:
/// the sum of jack count and mauls is invariant.
pub proof fn lemma_bear_phase_population(s: Sim, w: int, h: int)
    requires
        w >= 1,
        h >= 1,
        s.map.len() == w * h,
    ensures
        ({
            let r = bear_phase(s, w, h);
            &&& r.map.len() == s.map.len()
            &&& forall|j: int|
                0 <= j < s.map.len() ==> tree_age(#[trigger] r.map[j]) == tree_age(s.map[j])
            &&& bear_count(r.map) == bear_count(s.map)
            &&& tree_count(r.map) == tree_count(s.map)
            &&& jack_count(r.map) + r.mauls == jack_count(s.map) + s.mauls
            &&& jack_count(r.map) <= jack_count(s.map)
            &&& r.lumber == s.lumber
            &&& r.mauls >= s.mauls
        }),
{
    let ps = entity_positions(s.map, BEAR_MASK, BEAR_SHIFT);
    lemma_positions_upto_props(s.map, BEAR_MASK, BEAR_SHIFT, s.map.len() as int);
    lemma_bear_steps_fields(s, ps, ps.len() as int, w, h);
    let r = bear_phase(s, w, h);
    lemma_tree_count_of_pointwise(s.map, r.map, s.map.len() as int);
}

/// Field-by-field agreement on trees carries the tree count over.
proof fn lemma_tree_count_of_pointwise(m1: Seq<u16>, m2: Seq<u16>, n: int)
    requires
        m1.len() == m2.len(),
        n <= m1.len(),
        forall|j: int| 0 <= j < m1.len() ==> tree_age(#[trigger] m2[j]) == tree_age(m1[j]),
    ensures
        tree_count_upto(m2, n) == tree_count_upto(m1, n),
    decreases n,
{
    if n > 0 {
        lemma_tree_count_of_pointwise(m1, m2, n - 1);
    }
}

/// Yearly hires leave every tree field alone.
proof fn lemma_hire_upto_trees(s: Sim, k: int)
    ensures
        ({
            let r = crate::model::hire_upto(s, k);
            &&& r.map.len() == s.map.len()
            &&& forall|j: int|
                0 <= j < s.map.len() ==> tree_age(#[trigger] r.map[j]) == tree_age(s.map[j])
            &&& r.lumber == s.lumber
            &&& r.mauls == s.mauls
        }),
    decreases k,
{
    if k > 0 {
        lemma_hire_upto_trees(s, k - 1);
        let prev = crate::model::hire_upto(s, k - 1);
        let open = crate::model::open_cells(prev.map);
        crate::model::lemma_open_upto_props(prev.map, prev.map.len() as int);
        if open.len() > 0 {
            let c = open[crate::random::pick_index(prev.rng, open.len() as int)];
            assert(prev.map[c] == 0);
            cell::lemma_zero_cell();
            cell::lemma_place_jack(prev.map[c]);
        }
    }
}

/// Population conservation, yearly phase: population control hires and fires
/// jacks and adds or removes a bear, but leaves every tree field alone, and
/// both yearly counters read zero afterwards.
pub proof fn lemma_yearly_population(s: Sim)
    ensures
        ({
            let r = crate::model::yearly_events(s);
            &&& r.map.len() == s.map.len()
            &&& forall|j: int|
                0 <= j < s.map.len() ==> tree_age(#[trigger] r.map[j]) == tree_age(s.map[j])
            &&& tree_count(r.map) == tree_count(s.map)
            &&& r.lumber == 0
            &&& r.mauls == 0
        }),
{
    let jacks = entity_positions(s.map, JACK_MASK, JACK_SHIFT);
    lemma_positions_upto_props(s.map, JACK_MASK, JACK_SHIFT, s.map.len() as int);
    let s1 = if s.lumber > jacks.len() {
        crate::model::hire_upto(s, (s.lumber - jacks.len() as int) / 10)
    } else if jacks.len() > 1 {
        let c = jacks[crate::random::pick_index(s.rng, jacks.len() as int)];
        Sim {
            map: s.map.update(c, cell::remove_spec(s.map[c], JACK_REMOVE_MASK)),
            rng: crate::random::next_state(s.rng),
            ..s
        }
    } else {
        s
    };
    if s.lumber > jacks.len() {
        lemma_hire_upto_trees(s, (s.lumber - jacks.len() as int) / 10);
    } else if jacks.len() > 1 {
        let c = jacks[crate::random::pick_index(s.rng, jacks.len() as int)];
        assert(jacks.contains(c));
        cell::lemma_remove_jack(s.map[c]);
    }
    assert(s1.map.len() == s.map.len());
    assert(forall|j: int|
        0 <= j < s.map.len() ==> tree_age(#[trigger] s1.map[j]) == tree_age(s.map[j]));

    let bears = entity_positions(s1.map, BEAR_MASK, BEAR_SHIFT);
    lemma_positions_upto_props(s1.map, BEAR_MASK, BEAR_SHIFT, s1.map.len() as int);
    crate::model::lemma_open_upto_props(s1.map, s1.map.len() as int);
    let open = crate::model::open_cells(s1.map);
    if s1.mauls == 0 {
        if open.len() > 0 {
            let c = open[crate::random::pick_index(s1.rng, open.len() as int)];
            assert(s1.map[c] == 0);
            cell::lemma_zero_cell();
            cell::lemma_place_bear(s1.map[c]);
        }
    } else {
        if bears.len() > 0 {
            let c = bears[crate::random::pick_index(s1.rng, bears.len() as int)];
            assert(bears.contains(c));
            cell::lemma_remove_bear(s1.map[c]);
        }
    }
    let r = crate::model::yearly_events(s);
    lemma_tree_count_of_pointwise(s.map, r.map, s.map.len() as int);
}

/// Population conservation over a whole month without yearly events: the
/// bear population keeps its size exactly, and a jack disappears exactly
/// when the maul counter steps — no phase creates or destroys either
/// population any other way.
pub proof fn lemma_month_population(v: crate::model::ForestView)
    requires
        v.width >= 1,
        v.height >= 1,
        v.map.len() == v.width * v.height,
        (v.months + 1) % 12 != 0,
    ensures
        ({
            let r = crate::model::next_month(v);
            &&& bear_count(r.map) == bear_count(v.map)
            &&& jack_count(r.map) + r.mauls == jack_count(v.map) + v.mauls
            &&& r.mauls >= v.mauls
        }),
{
    let s0 = crate::model::sim_of(v);
    let s1 = tree_phase(s0, v.width, v.height);
    lemma_tree_phase_population(s0, v.width, v.height);
    let s2 = jack_phase(s1, v.width, v.height);
    lemma_jack_phase_population(s1, v.width, v.height);
    let s3 = bear_phase(s2, v.width, v.height);
    lemma_bear_phase_population(s2, v.width, v.height);
}

/// A harvest of a mature tree: when a jack (at level one, as every jack is
/// right after its move) stands on a mature tree and the roll succeeds, the
/// tree field clears, exactly one lumber is earned, and the jack rises to
/// level two; nothing else on the grid moves.
pub proof fn lemma_mature_harvest(s: Sim, dest: int)
    requires
        0 <= dest < s.map.len(),
        cell::spec_tree_kind(tree_age(s.map[dest])) is Mature,
        jack_level(s.map[dest]) == 1,
        crate::model::roll(s.rng) < crate::tree::harvest_chance_of(crate::tree::TreeKind::Mature),
    ensures
        ({
            let r = crate::model::jack_tree_encounter(s, dest);
            &&& tree_age(r.map[dest]) == 0
            &&& jack_level(r.map[dest]) == 2
            &&& bear_val(r.map[dest]) == bear_val(s.map[dest])
            &&& r.lumber == s.lumber + 1
            &&& r.mauls == s.mauls
            &&& r.rng == crate::random::next_state(s.rng)
            &&& forall|j: int| 0 <= j < s.map.len() && j != dest ==> r.map[j] == s.map[j]
        }),
{
    let cell0 = s.map[dest];
    cell::lemma_remove_tree(cell0);
    let cleared = cell::remove_spec(cell0, TREE_REMOVE_MASK);
    cell::lemma_set_jack(cleared, crate::model::leveled_up(jack_level(cleared), 1));
}

/// Field isolation: on a well-formed map no bitfield has overflowed into its
/// neighbour — every tree age fits its byte, no jack level exceeds its cap,
/// and the bear field only holds zero or one. `Forest::new` and
/// `Forest::update` both guarantee a well-formed map, so this holds of every
/// state the simulation can reach.
pub proof fn lemma_field_isolation(map: Seq<u16>)
    requires
        crate::model::wf_map(map),
    ensures
        forall|i: int|
            0 <= i < map.len() ==> tree_age(#[trigger] map[i]) <= 255 && jack_level(map[i])
                <= cell::JACK_MAX_LEVEL && bear_val(map[i]) <= 1,
{
    assert forall|i: int|
        0 <= i < map.len() implies tree_age(#[trigger] map[i]) <= 255 && jack_level(map[i])
        <= cell::JACK_MAX_LEVEL && bear_val(map[i]) <= 1 by {
        cell::lemma_field_bounds(map[i]);
    }
}

/// Determinism: two forests in equal states stay equal, for any number of
/// further months. Together with `Forest::new` and `Forest::update`, whose
/// results are exactly `init_view` and iterated `next_month`, two forests
/// built from one seed, width and height hold byte-identical cell arrays
/// after any number of updates.
pub proof fn lemma_determinism(a: crate::model::ForestView, b: crate::model::ForestView, n: nat)
    requires
        a == b,
    ensures
        months_later(a, n) == months_later(b, n),
{
}

/// On a one-by-one grid the only cell has no neighbours: wandering and
/// spawning are permanent no-ops.
pub proof fn lemma_adjacency_single_cell()
    ensures
        adjacent_indices(0, 1, 1) == Seq::<int>::empty(),
        crate::grid::adjacent_positions(0, 1, 1) == Seq::<crate::grid::Position>::empty(),
{
    assert(adjacent_indices(0, 1, 1) =~= Seq::<int>::empty());
    assert(crate::grid::adjacent_positions(0, 1, 1) =~= Seq::<crate::grid::Position>::empty());
}

} // verus!
