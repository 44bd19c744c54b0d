//! Grid geometry: linear index / coordinate conversion and the Moore
//! neighbourhood, in the fixed candidate order the simulation depends on.

use vstd::prelude::*;

use crate::random::{next_state, pick_index, Random};

verus! {

/// A cell's coordinates; `index == y * width + x`.
#[derive(Clone, Copy, Debug, PartialEq, Eq, Structural)]
pub struct Position {
    pub x: usize,
    pub y: usize,
}

/// Namespace for the grid helpers.
pub struct GridUtils;

/// Whether `(x, y)` lies on a `w` by `h` grid.
pub open spec fn on_grid(x: int, y: int, w: int, h: int) -> bool {
    0 <= x < w && 0 <= y < h
}

/// A singleton of `(x, y)` when it lies on the grid, else nothing.
pub open spec fn maybe_pos(x: int, y: int, w: int, h: int) -> Seq<Position> {
    if on_grid(x, y, w, h) {
        seq![Position { x: x as usize, y: y as usize }]
    } else {
        Seq::empty()
    }
}

/// The valid Moore neighbours of the cell at `idx`, in the fixed order the
/// simulation walks them: the row above left-to-right, then the two side
/// cells, then the row below left-to-right.
pub open spec fn adjacent_positions(idx: int, w: int, h: int) -> Seq<Position> {
    let x = idx % w;
    let y = idx / w;
    maybe_pos(x - 1, y - 1, w, h) + maybe_pos(x, y - 1, w, h) + maybe_pos(x + 1, y - 1, w, h)
        + maybe_pos(x - 1, y, w, h) + maybe_pos(x + 1, y, w, h) + maybe_pos(x - 1, y + 1, w, h)
        + maybe_pos(x, y + 1, w, h) + maybe_pos(x + 1, y + 1, w, h)
}

/// A singleton of the linear index of `(x, y)` when it lies on the grid.
pub open spec fn maybe_idx(x: int, y: int, w: int, h: int) -> Seq<int> {
    if on_grid(x, y, w, h) {
        seq![y * w + x]
    } else {
        Seq::empty()
    }
}

/// The valid Moore neighbours of the cell at `idx` as linear indices, in the
/// same fixed order as `adjacent_positions`.
pub open spec fn adjacent_indices(idx: int, w: int, h: int) -> Seq<int> {
    let x = idx % w;
    let y = idx / w;
    maybe_idx(x - 1, y - 1, w, h) + maybe_idx(x, y - 1, w, h) + maybe_idx(x + 1, y - 1, w, h)
        + maybe_idx(x - 1, y, w, h) + maybe_idx(x + 1, y, w, h) + maybe_idx(x - 1, y + 1, w, h)
        + maybe_idx(x, y + 1, w, h) + maybe_idx(x + 1, y + 1, w, h)
}

/// A coordinate on the grid has a linear index inside the grid.
pub proof fn lemma_index_in_grid(x: int, y: int, w: int, h: int)
    requires
        on_grid(x, y, w, h),
    ensures
        0 <= y * w + x < w * h,
{
    assert(0 <= x < w && 0 <= y < h ==> 0 <= y * w + x < w * h) by (nonlinear_arith);
}

/// Every adjacent index lies on the grid and differs from the centre cell.
pub proof fn lemma_adjacent_indices_props(idx: int, w: int, h: int)
    requires
        w >= 1,
        h >= 1,
        0 <= idx < w * h,
    ensures
        forall|k: int|
            0 <= k < adjacent_indices(idx, w, h).len() ==> 0 <= #[trigger] adjacent_indices(
                idx,
                w,
                h,
            )[k] < w * h && adjacent_indices(idx, w, h)[k] != idx,
{
    let x = idx % w;
    let y = idx / w;
    vstd::arithmetic::div_mod::lemma_fundamental_div_mod(idx, w);
    assert(0 <= x < w) by {
        vstd::arithmetic::div_mod::lemma_mod_bound(idx, w);
    }
    assert(0 <= y < h) by {
        assert(0 <= idx / w && (idx < w * h ==> idx / w < h)) by (nonlinear_arith)
            requires
                w >= 1 && h >= 1 && 0 <= idx,
        ;
    }
    assert forall|xx: int, yy: int|
        on_grid(xx, yy, w, h) && (xx != x || yy != y) implies 0 <= yy * w + xx < w * h && yy * w
        + xx != idx by {
        lemma_index_in_grid(xx, yy, w, h);
        assert(yy * w + xx != y * w + x) by (nonlinear_arith)
            requires
                0 <= xx < w,
                0 <= x < w,
                0 <= yy,
                0 <= y,
                xx != x || yy != y,
        ;
        vstd::arithmetic::mul::lemma_mul_is_commutative(w, y);
        assert(idx == y * w + x);
        assert(0 <= yy * w + xx < w * h);
        assert(yy * w + xx != idx);
    }
}

/// Rejection sampling for a free grid cell: draw an index; if it is not
/// among the occupied positions, yield it, else draw again, until the given
/// number of draws is spent. Returns the sampled index, if any, and the
/// generator state after the consumed draws.
pub open spec fn open_sample_rounds(
    occupied: Seq<usize>,
    grid_size: int,
    st: u64,
    fuel: nat,
) -> (Option<int>, u64)
    decreases fuel,
{
    if fuel == 0 {
        (None::<int>, st)
    } else {
        let i = pick_index(st, grid_size);
        if !occupied.contains(i as usize) {
            (Some(i), next_state(st))
        } else {
            open_sample_rounds(occupied, grid_size, next_state(st), (fuel - 1) as nat)
        }
    }
}

/// How many draws the search may burn before giving up: the full cycle
/// length of the generator.
pub open spec fn open_sample_fuel() -> nat {
    u64::MAX as nat
}

/// The lowest grid index at or above `i` not among the occupied positions.
pub open spec fn first_unoccupied_from(occupied: Seq<usize>, grid_size: int, i: int) -> Option<int>
    decreases grid_size - i,
{
    if i < 0 || i >= grid_size {
        None::<int>
    } else if !occupied.contains(i as usize) {
        Some(i)
    } else {
        first_unoccupied_from(occupied, grid_size, i + 1)
    }
}

/// The lowest grid index not among the occupied positions, if any.
pub open spec fn first_unoccupied(occupied: Seq<usize>, grid_size: int) -> Option<int> {
    first_unoccupied_from(occupied, grid_size, 0)
}

/// A list containing every index below `gs` has at least `gs` elements, so a
/// shorter occupancy list always leaves some grid cell free.
proof fn lemma_cover_needs_length(s: Seq<usize>, gs: int)
    requires
        0 <= gs <= usize::MAX as int,
        forall|i: int| 0 <= i < gs ==> #[trigger] s.contains((i as usize)),
    ensures
        s.len() >= gs,
    decreases gs,
{
    if gs > 0 {
        assert(s.contains(((gs - 1) as usize)));
        let p = choose|p: int| 0 <= p < s.len() && s[p] == ((gs - 1) as usize);
        let s2 = s.subrange(0, p) + s.subrange(p + 1, s.len() as int);
        assert forall|i: int| 0 <= i < gs - 1 implies #[trigger] s2.contains((i as usize)) by {
            assert(s.contains((i as usize)));
            let q = choose|q: int| 0 <= q < s.len() && s[q] == (i as usize);
            assert(s[q] != s[p]);
            if q < p {
                assert(s2[q] == s[q]);
            } else {
                assert(s2[q - 1] == s[q]);
            }
        }
        lemma_cover_needs_length(s2, gs - 1);
    }
}

impl GridUtils {
    /// Whether `x` is one of the listed positions.
    #[verifier::loop_isolation(false)]
    fn contains_position(list: &Vec<usize>, x: usize) -> (r: bool)
        ensures
            r == list@.contains(x),
    {
        let n = list.len();
        for i in 0..n
            invariant
                list@.len() == n,
                forall|k: int| 0 <= k < i ==> list@[k] != x,
        {
            if list[i] == x {
                return true;
            }
        }
        false
    }

    /// A uniformly sampled grid index not occupied by any of the given
    /// entity positions: random cells are drawn until a free one comes up.
    /// `None` exactly when the entities already fill the grid, in which case
    /// no draw is consumed; should the generator's whole cycle never hit a
    /// free cell, the lowest free index is returned instead.
    #[verifier::loop_isolation(false)]
    pub fn get_open_space(random: &mut Random, grid_size: usize, occupied: &Vec<usize>) -> (r:
        Option<usize>)
        requires
            occupied@.len() <= grid_size,
        ensures
            occupied@.len() == grid_size ==> r is None && final(random)@ == old(random)@,
            occupied@.len() < grid_size ==> {
                let (res, st) = open_sample_rounds(
                    occupied@,
                    grid_size as int,
                    old(random)@,
                    open_sample_fuel(),
                );
                &&& final(random)@ == st
                &&& r is Some
                &&& (res is Some ==> r->Some_0 as int == res->Some_0)
                &&& (res is None ==> Some(r->Some_0 as int) == first_unoccupied(
                    occupied@,
                    grid_size as int,
                ))
                &&& (r->Some_0 as int) < grid_size
                &&& !occupied@.contains(r->Some_0)
            },
    {
        if occupied.len() == grid_size {
            None
        } else {
            let ghost s0 = random@;
            let mut fuel: u64 = u64::MAX;
            while fuel > 0
                invariant
                    grid_size > 0,
                    open_sample_rounds(occupied@, grid_size as int, s0, open_sample_fuel())
                        == open_sample_rounds(occupied@, grid_size as int, random@, fuel as nat),
                decreases fuel,
            {
                let ghost st_before = random@;
                let idx = random.next() as usize % grid_size;

                if !Self::contains_position(occupied, idx) {
                    proof {
                        assert(open_sample_rounds(
                            occupied@,
                            grid_size as int,
                            st_before,
                            fuel as nat,
                        ) == (Some(idx as int), next_state(st_before)));
                    }
                    return Some(idx);
                }
                fuel = fuel - 1;
            }

            // The whole cycle never hit a free cell: fall back to the lowest
            // free index, consuming no further draw. The scan cannot fail,
            // since fewer occupants than cells always leave one free.
            let mut i: usize = 0;
            while i < grid_size
                invariant
                    i <= grid_size,
                    first_unoccupied(occupied@, grid_size as int) == first_unoccupied_from(
                        occupied@,
                        grid_size as int,
                        i as int,
                    ),
                    forall|j: int| 0 <= j < i ==> #[trigger] occupied@.contains((j as usize)),
                decreases grid_size - i,
            {
                if !Self::contains_position(occupied, i) {
                    return Some(i);
                }
                i = i + 1;
            }
            proof {
                lemma_cover_needs_length(occupied@, grid_size as int);
                assert(false);
            }
            None
        }
    }

    /// The (at most eight) valid Moore-neighbour coordinates of `idx`,
    /// bounds-checked: edges and corners yield fewer than eight.
    pub fn get_adjacent_positions(idx: usize, width: usize, height: usize) -> (r: Vec<Position>)
        requires
            width >= 1,
            (idx as int) < (width as int) * (height as int),
        ensures
            r@ == adjacent_positions(idx as int, width as int, height as int),
    {
        let ghost xi = (idx as int) % (width as int);
        let ghost yi = (idx as int) / (width as int);
        let ghost wi = width as int;
        let ghost hi = height as int;
        proof {
            vstd::arithmetic::div_mod::lemma_mod_bound(idx as int, wi);
            assert(0 <= yi && yi < hi) by (nonlinear_arith)
                requires
                    wi >= 1 && 0 <= idx as int && (idx as int) < wi * hi && yi == (idx as int)
                        / wi,
            ;
        }
        let x = idx % width;
        let y = idx / width;
        let mut r: Vec<Position> = Vec::new();
        if x >= 1 && y >= 1 {
            r.push(Position { x: x - 1, y: y - 1 });
        }
        proof {
            assert(r@ =~= maybe_pos(xi - 1, yi - 1, wi, hi));
        }
        if y >= 1 {
            r.push(Position { x, y: y - 1 });
        }
        proof {
            assert(r@ =~= maybe_pos(xi - 1, yi - 1, wi, hi) + maybe_pos(xi, yi - 1, wi, hi));
        }
        if x + 1 < width && y >= 1 {
            r.push(Position { x: x + 1, y: y - 1 });
        }
        proof {
            assert(r@ =~= maybe_pos(xi - 1, yi - 1, wi, hi) + maybe_pos(xi, yi - 1, wi, hi)
                + maybe_pos(xi + 1, yi - 1, wi, hi));
        }
        if x >= 1 {
            r.push(Position { x: x - 1, y });
        }
        proof {
            assert(r@ =~= maybe_pos(xi - 1, yi - 1, wi, hi) + maybe_pos(xi, yi - 1, wi, hi)
                + maybe_pos(xi + 1, yi - 1, wi, hi) + maybe_pos(xi - 1, yi, wi, hi));
        }
        if x + 1 < width {
            r.push(Position { x: x + 1, y });
        }
        proof {
            assert(r@ =~= maybe_pos(xi - 1, yi - 1, wi, hi) + maybe_pos(xi, yi - 1, wi, hi)
                + maybe_pos(xi + 1, yi - 1, wi, hi) + maybe_pos(xi - 1, yi, wi, hi) + maybe_pos(
                xi + 1,
                yi,
                wi,
                hi,
            ));
        }
        if x >= 1 && y + 1 < height {
            r.push(Position { x: x - 1, y: y + 1 });
        }
        proof {
            assert(r@ =~= maybe_pos(xi - 1, yi - 1, wi, hi) + maybe_pos(xi, yi - 1, wi, hi)
                + maybe_pos(xi + 1, yi - 1, wi, hi) + maybe_pos(xi - 1, yi, wi, hi) + maybe_pos(
                xi + 1,
                yi,
                wi,
                hi,
            ) + maybe_pos(xi - 1, yi + 1, wi, hi));
        }
        if y + 1 < height {
            r.push(Position { x, y: y + 1 });
        }
        proof {
            assert(r@ =~= maybe_pos(xi - 1, yi - 1, wi, hi) + maybe_pos(xi, yi - 1, wi, hi)
                + maybe_pos(xi + 1, yi - 1, wi, hi) + maybe_pos(xi - 1, yi, wi, hi) + maybe_pos(
                xi + 1,
                yi,
                wi,
                hi,
            ) + maybe_pos(xi - 1, yi + 1, wi, hi) + maybe_pos(xi, yi + 1, wi, hi));
        }
        if x + 1 < width && y + 1 < height {
            r.push(Position { x: x + 1, y: y + 1 });
        }
        proof {
            assert(r@ =~= adjacent_positions(idx as int, wi, hi));
        }
        r
    }

    /// Converts a linear index to coordinates.
    pub fn to_coords(idx: usize, width: usize) -> (r: Position)
        requires
            width >= 1,
        ensures
            r.x == idx as int % width as int,
            r.y == idx as int / width as int,
    {
        let x = idx % width;
        let y = idx / width;
        Position { x, y }
    }

    /// Converts coordinates to a linear index.
    pub fn to_index(x: usize, y: usize, width: usize) -> (r: usize)
        requires
            y * width + x <= usize::MAX,
        ensures
            r == y * width + x,
    {
        y * width + x
    }
}

} // verus!
