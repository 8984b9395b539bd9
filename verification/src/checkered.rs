use vstd::prelude::*;

verus! {

/// Whether the cell with the given integer coordinates shows the first of the two
/// textures of a checker pattern: it does when the coordinates add up to an even
/// number.
pub open spec fn checker_first(x: int, y: int, z: int) -> bool {
    (x + y + z) % 2 == 0
}

/// Whether a point whose scaled coordinates round down to `x_floor`, `y_floor`
/// and `z_floor` takes its color from the first texture of a checker pattern.
pub fn checker_cell_is_even(x_floor: i32, y_floor: i32, z_floor: i32) -> (even: bool)
    requires
        i32::MIN <= x_floor + y_floor <= i32::MAX,
        i32::MIN <= x_floor + y_floor + z_floor <= i32::MAX,
    ensures
        even == checker_first(x_floor as int, y_floor as int, z_floor as int),
{
    (x_floor + y_floor + z_floor) % 2 == 0
}

/// Neighbouring cells of a checker pattern show different textures: one step
/// along any axis switches from one texture to the other, and the cell at the
/// origin shows the first texture.
pub proof fn lemma_checker_alternates(x: int, y: int, z: int)
    ensures
        checker_first(0, 0, 0),
        checker_first(x + 1, y, z) != checker_first(x, y, z),
        checker_first(x, y + 1, z) != checker_first(x, y, z),
        checker_first(x, y, z + 1) != checker_first(x, y, z),
{
}

} // verus!
