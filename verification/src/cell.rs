//! The packed per-cell state representation and its codec.
//!
//! One `u16` holds three non-overlapping bitfields: tree age (low byte,
//! saturating at 255), jack level (next four bits, 0 meaning no jack) and
//! bear presence (top four bits, only 0 and 1 ever occur). All arithmetic on
//! a field caps the field first, so a mutation never carries into the
//! neighbouring field.

use vstd::prelude::*;

use crate::tree::{
    harvest_amount_of, harvest_chance_of, spawn_chance_of, TreeKind, MATURE_GROW_AGE,
    SAPLING_GROW_AGE,
};

verus! {

pub const NONE_MASK: u16 = 0x0000;

pub const TREE_MASK: u16 = 0x00FF;

pub const JACK_MASK: u16 = 0x0F00;

pub const BEAR_MASK: u16 = 0xF000;

pub const TREE_REMOVE_MASK: u16 = 0xFF00;

pub const JACK_REMOVE_MASK: u16 = 0xF0FF;

pub const BEAR_REMOVE_MASK: u16 = 0x0FFF;

pub const TREE_SHIFT: u16 = 0;

pub const JACK_SHIFT: u16 = 8;

pub const BEAR_SHIFT: u16 = 12;

pub const JACK_MAX_LEVEL: u16 = 5;

pub const JACK_MIN_MAUL_PROTECTION: u16 = 75;

/// The tree-age field of a packed cell.
pub open spec fn tree_age(c: u16) -> u16 {
    c & TREE_MASK
}

/// The jack-level field of a packed cell.
pub open spec fn jack_level(c: u16) -> u16 {
    (c & JACK_MASK) >> JACK_SHIFT
}

/// The bear-presence field of a packed cell.
pub open spec fn bear_val(c: u16) -> u16 {
    (c & BEAR_MASK) >> BEAR_SHIFT
}

/// A cell the simulation can produce: the jack level never exceeds its cap
/// and the bear field only holds 0 or 1.
pub open spec fn wf_cell(c: u16) -> bool {
    jack_level(c) <= JACK_MAX_LEVEL && bear_val(c) <= 1
}

/// Growth stage of a cell's tree field: 0 is no tree at all.
pub open spec fn spec_tree_kind(age: u16) -> TreeKind {
    if age == 0 {
        TreeKind::Empty
    } else if age < SAPLING_GROW_AGE {
        TreeKind::Sapling
    } else if age < MATURE_GROW_AGE {
        TreeKind::Mature
    } else {
        TreeKind::Elder
    }
}

/// The cell after one unit is added to the field at `shift`.
pub open spec fn place_spec(c: u16, shift: u16) -> u16 {
    ((c + (1u16 << shift)) as u16)
}

/// The cell after the field excluded by `remove_mask` is cleared.
pub open spec fn remove_spec(c: u16, remove_mask: u16) -> u16 {
    c & remove_mask
}

/// The cell after its jack level is overwritten with `level`.
pub open spec fn set_jack_spec(c: u16, level: u16) -> u16 {
    (((c & JACK_REMOVE_MASK) + (level << JACK_SHIFT)) as u16)
}

/// The cell after its tree age is lowered to `target`.
pub open spec fn de_age_spec(c: u16, target: u16) -> u16 {
    ((c - (tree_age(c) - target)) as u16)
}

/// Every field fits its bit width.
pub proof fn lemma_field_bounds(c: u16)
    ensures
        tree_age(c) <= 255,
        jack_level(c) <= 15,
        bear_val(c) <= 15,
{
    assert((c & 0x00FFu16) <= 255 && ((c & 0x0F00u16) >> 8u16) <= 15 && ((c & 0xF000u16)
        >> 12u16) <= 15) by (bit_vector);
}

/// Shifting by the tree field's offset is the identity.
pub proof fn lemma_shr_zero(x: u16)
    ensures
        x >> TREE_SHIFT == x,
{
    assert(x >> 0u16 == x) by (bit_vector);
}

/// A field is zero exactly when its masked bits are.
pub proof fn lemma_mask_zero(c: u16)
    ensures
        (c & JACK_MASK == 0) <==> jack_level(c) == 0,
        (c & BEAR_MASK == 0) <==> bear_val(c) == 0,
{
    assert(((c & 0x0F00u16 == 0) <==> ((c & 0x0F00u16) >> 8u16) == 0) && ((c & 0xF000u16 == 0)
        <==> ((c & 0xF000u16) >> 12u16) == 0)) by (bit_vector);
}

/// A zero cell holds nothing.
pub proof fn lemma_zero_cell()
    ensures
        tree_age(0) == 0,
        jack_level(0) == 0,
        bear_val(0) == 0,
{
    assert((0u16 & 0x00FFu16) == 0 && ((0u16 & 0x0F00u16) >> 8u16) == 0 && ((0u16 & 0xF000u16)
        >> 12u16) == 0) by (bit_vector);
}

/// Adding a unit to an uncapped tree field raises only the tree age.
pub proof fn lemma_place_tree(c: u16)
    requires
        tree_age(c) < 255,
    ensures
        c + (1u16 << TREE_SHIFT) <= u16::MAX,
        tree_age(place_spec(c, TREE_SHIFT)) == tree_age(c) + 1,
        jack_level(place_spec(c, TREE_SHIFT)) == jack_level(c),
        bear_val(place_spec(c, TREE_SHIFT)) == bear_val(c),
{
    assert((c & 0x00FFu16) < 255 ==> c + (1u16 << 0u16) <= 0xFFFF && (((c + (1u16 << 0u16)) as u16)
        & 0x00FFu16) == (c & 0x00FFu16) + 1 && (((c + (1u16 << 0u16)) as u16) & 0x0F00u16) == (c
        & 0x0F00u16) && (((c + (1u16 << 0u16)) as u16) & 0xF000u16) == (c & 0xF000u16))
        by (bit_vector);
}

/// Adding a unit to an uncapped jack field raises only the jack level.
pub proof fn lemma_place_jack(c: u16)
    requires
        jack_level(c) < 15,
    ensures
        c + (1u16 << JACK_SHIFT) <= u16::MAX,
        tree_age(place_spec(c, JACK_SHIFT)) == tree_age(c),
        jack_level(place_spec(c, JACK_SHIFT)) == jack_level(c) + 1,
        bear_val(place_spec(c, JACK_SHIFT)) == bear_val(c),
{
    assert(((c & 0x0F00u16) >> 8u16) < 15 ==> c + (1u16 << 8u16) <= 0xFFFF && (((c + (1u16
        << 8u16)) as u16) & 0x00FFu16) == (c & 0x00FFu16) && ((((c + (1u16 << 8u16)) as u16)
        & 0x0F00u16) >> 8u16) == ((c & 0x0F00u16) >> 8u16) + 1 && (((c + (1u16 << 8u16)) as u16)
        & 0xF000u16) == (c & 0xF000u16)) by (bit_vector);
}

/// Adding a unit to an uncapped bear field raises only the bear value.
pub proof fn lemma_place_bear(c: u16)
    requires
        bear_val(c) < 15,
    ensures
        c + (1u16 << BEAR_SHIFT) <= u16::MAX,
        tree_age(place_spec(c, BEAR_SHIFT)) == tree_age(c),
        jack_level(place_spec(c, BEAR_SHIFT)) == jack_level(c),
        bear_val(place_spec(c, BEAR_SHIFT)) == bear_val(c) + 1,
{
    assert(((c & 0xF000u16) >> 12u16) < 15 ==> c + (1u16 << 12u16) <= 0xFFFF && (((c + (1u16
        << 12u16)) as u16) & 0x00FFu16) == (c & 0x00FFu16) && (((c + (1u16 << 12u16)) as u16)
        & 0x0F00u16) == (c & 0x0F00u16) && ((((c + (1u16 << 12u16)) as u16) & 0xF000u16)
        >> 12u16) == ((c & 0xF000u16) >> 12u16) + 1) by (bit_vector);
}

/// Clearing the tree field leaves the other fields alone.
pub proof fn lemma_remove_tree(c: u16)
    ensures
        tree_age(remove_spec(c, TREE_REMOVE_MASK)) == 0,
        jack_level(remove_spec(c, TREE_REMOVE_MASK)) == jack_level(c),
        bear_val(remove_spec(c, TREE_REMOVE_MASK)) == bear_val(c),
{
    assert(((c & 0xFF00u16) & 0x00FFu16) == 0 && ((c & 0xFF00u16) & 0x0F00u16) == (c & 0x0F00u16)
        && ((c & 0xFF00u16) & 0xF000u16) == (c & 0xF000u16)) by (bit_vector);
}

/// Clearing the jack field leaves the other fields alone.
pub proof fn lemma_remove_jack(c: u16)
    ensures
        tree_age(remove_spec(c, JACK_REMOVE_MASK)) == tree_age(c),
        jack_level(remove_spec(c, JACK_REMOVE_MASK)) == 0,
        bear_val(remove_spec(c, JACK_REMOVE_MASK)) == bear_val(c),
{
    assert(((c & 0xF0FFu16) & 0x00FFu16) == (c & 0x00FFu16) && (((c & 0xF0FFu16) & 0x0F00u16) >> 8u16) == 0
        && ((c & 0xF0FFu16) & 0xF000u16) == (c & 0xF000u16)) by (bit_vector);
}

/// Clearing the bear field leaves the other fields alone.
pub proof fn lemma_remove_bear(c: u16)
    ensures
        tree_age(remove_spec(c, BEAR_REMOVE_MASK)) == tree_age(c),
        jack_level(remove_spec(c, BEAR_REMOVE_MASK)) == jack_level(c),
        bear_val(remove_spec(c, BEAR_REMOVE_MASK)) == 0,
{
    assert(((c & 0x0FFFu16) & 0x00FFu16) == (c & 0x00FFu16) && ((c & 0x0FFFu16) & 0x0F00u16) == (c
        & 0x0F00u16) && (((c & 0x0FFFu16) & 0xF000u16) >> 12u16) == 0) by (bit_vector);
}

/// Overwriting the jack level leaves the other fields alone.
pub proof fn lemma_set_jack(c: u16, level: u16)
    requires
        level <= 15,
    ensures
        (c & JACK_REMOVE_MASK) + (level << JACK_SHIFT) <= u16::MAX,
        tree_age(set_jack_spec(c, level)) == tree_age(c),
        jack_level(set_jack_spec(c, level)) == level,
        bear_val(set_jack_spec(c, level)) == bear_val(c),
{
    assert(level <= 15 ==> (c & 0xF0FFu16) + (level << 8u16) <= 0xFFFF && ((((c & 0xF0FFu16) + (
    level << 8u16)) as u16) & 0x00FFu16) == (c & 0x00FFu16) && (((((c & 0xF0FFu16) + (level
        << 8u16)) as u16) & 0x0F00u16) >> 8u16) == level && ((((c & 0xF0FFu16) + (level
        << 8u16)) as u16) & 0xF000u16) == (c & 0xF000u16)) by (bit_vector);
}

/// Lowering the tree age to a target within its range leaves the other
/// fields alone.
pub proof fn lemma_de_age(c: u16, target: u16)
    requires
        target <= tree_age(c),
    ensures
        tree_age(c) - target <= c,
        tree_age(de_age_spec(c, target)) == target,
        jack_level(de_age_spec(c, target)) == jack_level(c),
        bear_val(de_age_spec(c, target)) == bear_val(c),
{
    assert(target <= (c & 0x00FFu16) ==> (c & 0x00FFu16) - target <= c && (((c - ((c & 0x00FFu16)
        - target)) as u16) & 0x00FFu16) == target && (((c - ((c & 0x00FFu16) - target)) as u16)
        & 0x0F00u16) == (c & 0x0F00u16) && (((c - ((c & 0x00FFu16) - target)) as u16)
        & 0xF000u16) == (c & 0xF000u16)) by (bit_vector);
}

/// Unpacks a cell into its three logical fields, highest first:
/// bear presence, jack level, tree age.
pub fn decode(cell: u16) -> (r: (u16, u16, u16))
    ensures
        r.0 == bear_val(cell),
        r.1 == jack_level(cell),
        r.2 == tree_age(cell),
{
    ((cell & BEAR_MASK) >> BEAR_SHIFT, (cell & JACK_MASK) >> JACK_SHIFT, cell & TREE_MASK)
}

/// Adds one unit to the field at `shift`; the caller caps the field first.
pub fn place_entity(cell: u16, shift: u16) -> (r: u16)
    requires
        shift == TREE_SHIFT || shift == JACK_SHIFT || shift == BEAR_SHIFT,
        shift == TREE_SHIFT ==> tree_age(cell) < 255,
        shift == JACK_SHIFT ==> jack_level(cell) < 15,
        shift == BEAR_SHIFT ==> bear_val(cell) < 15,
    ensures
        r == place_spec(cell, shift),
{
    proof {
        if shift == TREE_SHIFT {
            lemma_place_tree(cell);
        } else if shift == JACK_SHIFT {
            lemma_place_jack(cell);
        } else {
            lemma_place_bear(cell);
        }
    }
    cell + (1u16 << shift)
}

/// Clears exactly one field via the field's complement mask.
pub fn remove_entity(cell: u16, remove_mask: u16) -> (r: u16)
    ensures
        r == remove_spec(cell, remove_mask),
{
    cell & remove_mask
}

/// Classifies the tree field of a cell.
pub fn get_tree_kind(cell: u16) -> (r: TreeKind)
    ensures
        r == spec_tree_kind(tree_age(cell)),
{
    let age = cell & TREE_MASK;
    if age == 0 {
        TreeKind::Empty
    } else if age < SAPLING_GROW_AGE {
        TreeKind::Sapling
    } else if age < MATURE_GROW_AGE {
        TreeKind::Mature
    } else {
        TreeKind::Elder
    }
}

/// Spawn chance of the tree in this cell.
pub fn get_sapling_spawn_chance(cell: u16) -> (r: u32)
    ensures
        r == spawn_chance_of(spec_tree_kind(tree_age(cell))),
{
    match get_tree_kind(cell) {
        TreeKind::Empty => 0,
        TreeKind::Sapling => 0,
        TreeKind::Mature => 10,
        TreeKind::Elder => 20,
    }
}

/// Harvest chance of the tree in this cell.
pub fn get_tree_harvest_chance(cell: u16) -> (r: u32)
    ensures
        r == harvest_chance_of(spec_tree_kind(tree_age(cell))),
{
    match get_tree_kind(cell) {
        TreeKind::Empty => 0,
        TreeKind::Sapling => 99,
        TreeKind::Mature => 75,
        TreeKind::Elder => 66,
    }
}

/// Lumber yielded when the tree in this cell is harvested.
pub fn get_harvest_amount(cell: u16) -> (r: u32)
    ensures
        r == harvest_amount_of(spec_tree_kind(tree_age(cell))),
{
    match get_tree_kind(cell) {
        TreeKind::Empty => 0,
        TreeKind::Sapling => 0,
        TreeKind::Mature => 1,
        TreeKind::Elder => 2,
    }
}

/// Chance (percent) that a bear's attack on the jack in this cell succeeds:
/// protection grows with the level but saturates, and a small bonus for low
/// levels decays quadratically.
pub open spec fn spec_maul_chance(level: u16) -> u32 {
    let base = (level as int) * 10;
    let bonus = if (level as int) * (level as int) >= 10 {
        0int
    } else {
        10 - (level as int) * (level as int)
    };
    let protection = base + bonus;
    let capped = if protection >= JACK_MIN_MAUL_PROTECTION as int {
        JACK_MIN_MAUL_PROTECTION as int
    } else {
        protection
    };
    (100 - capped) as u32
}

/// Maul chance against the jack in this cell.
pub fn get_jack_maul_chance(cell: u16) -> (r: u32)
    ensures
        r == spec_maul_chance(jack_level(cell)),
{
    proof {
        lemma_field_bounds(cell);
    }
    let level = (cell & JACK_MASK) >> JACK_SHIFT;
    assert(level * level <= 225) by (nonlinear_arith)
        requires
            level <= 15,
    ;
    let squared = level * level;
    let base_maul_protection = level * 10;
    let low_level_protection_bonus = 10 - (if squared < 10 {
        squared
    } else {
        10
    });
    let maul_protection = base_maul_protection + low_level_protection_bonus;
    let maul_chance = 100 - (if maul_protection < JACK_MIN_MAUL_PROTECTION {
        maul_protection
    } else {
        JACK_MIN_MAUL_PROTECTION
    });
    maul_chance as u32
}

} // verus!
