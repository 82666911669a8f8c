use vstd::prelude::*;
use crate::cell::Hex;

verus! {

// Counting specifications over one column of the grid (a sequence of cells,
// indexed by y) and over a prefix of the columns. All sums run over the
// rectangle of the first `upto` columns and the first `h` cells of each.

/// Occupied cells among `col[0..upto)`.
pub open spec fn col_occupied(col: Seq<Hex>, upto: int) -> int
    decreases upto,
{
    if upto <= 0 {
        0
    } else {
        col_occupied(col, upto - 1) + (if col[upto - 1].value {
            1int
        } else {
            0int
        })
    }
}

/// Empty cells among `col[0..upto)`.
pub open spec fn col_empty(col: Seq<Hex>, upto: int) -> int
    decreases upto,
{
    if upto <= 0 {
        0
    } else {
        col_empty(col, upto - 1) + (if col[upto - 1].value {
            0int
        } else {
            1int
        })
    }
}

/// The sublattice class, 0, 1 or 2, of the cell at (x, y): even rows are
/// coloured by x mod 3 directly, odd rows by a shifted colouring.
pub open spec fn class_of(x: int, y: int) -> int {
    if y % 2 == 0 {
        x % 3
    } else if x % 3 == 1 {
        0
    } else if x % 3 == 2 {
        1
    } else {
        2
    }
}

/// Occupied cells of sublattice class `c` among `col[0..upto)`, where the
/// column sits at index `x` of the grid.
pub open spec fn col_class(col: Seq<Hex>, x: int, c: int, upto: int) -> int
    decreases upto,
{
    if upto <= 0 {
        0
    } else {
        col_class(col, x, c, upto - 1) + (if col[upto - 1].value && class_of(x, upto - 1) == c {
            1int
        } else {
            0int
        })
    }
}

/// The occupied cells of `col[0..upto)`, in order of increasing y.
pub open spec fn col_cells(col: Seq<Hex>, upto: int) -> Seq<Hex>
    decreases upto,
{
    if upto <= 0 {
        Seq::empty()
    } else {
        col_cells(col, upto - 1) + (if col[upto - 1].value {
            seq![col[upto - 1]]
        } else {
            Seq::empty()
        })
    }
}

/// Occupied cells in the rectangle of the first `upto` columns, `h` cells each.
pub open spec fn sum_occupied(g: Seq<Vec<Hex>>, upto: int, h: int) -> int
    decreases upto,
{
    if upto <= 0 {
        0
    } else {
        sum_occupied(g, upto - 1, h) + col_occupied(g[upto - 1]@, h)
    }
}

/// Empty cells in the rectangle of the first `upto` columns, `h` cells each.
pub open spec fn sum_empty(g: Seq<Vec<Hex>>, upto: int, h: int) -> int
    decreases upto,
{
    if upto <= 0 {
        0
    } else {
        sum_empty(g, upto - 1, h) + col_empty(g[upto - 1]@, h)
    }
}

/// Occupied cells of class `c` in the same rectangle.
pub open spec fn sum_class(g: Seq<Vec<Hex>>, c: int, upto: int, h: int) -> int
    decreases upto,
{
    if upto <= 0 {
        0
    } else {
        sum_class(g, c, upto - 1, h) + col_class(g[upto - 1]@, upto - 1, c, h)
    }
}

/// The occupied cells of the rectangle, column by column.
pub open spec fn sum_cells(g: Seq<Vec<Hex>>, upto: int, h: int) -> Seq<Hex>
    decreases upto,
{
    if upto <= 0 {
        Seq::empty()
    } else {
        sum_cells(g, upto - 1, h) + col_cells(g[upto - 1]@, h)
    }
}

pub proof fn lemma_col_occupied_bounds(col: Seq<Hex>, upto: int)
    requires
        upto >= 0,
    ensures
        0 <= col_occupied(col, upto) <= upto,
    decreases upto,
{
    if upto > 0 {
        lemma_col_occupied_bounds(col, upto - 1);
    }
}

pub proof fn lemma_col_occupied_monotone(col: Seq<Hex>, h1: int, h2: int)
    requires
        0 <= h1 <= h2,
    ensures
        col_occupied(col, h1) <= col_occupied(col, h2),
    decreases h2,
{
    if h1 < h2 {
        lemma_col_occupied_monotone(col, h1, h2 - 1);
    }
}

pub proof fn lemma_sum_occupied_monotone_h(g: Seq<Vec<Hex>>, upto: int, h1: int, h2: int)
    requires
        upto >= 0,
        0 <= h1 <= h2,
    ensures
        sum_occupied(g, upto, h1) <= sum_occupied(g, upto, h2),
    decreases upto,
{
    if upto > 0 {
        lemma_sum_occupied_monotone_h(g, upto - 1, h1, h2);
        lemma_col_occupied_monotone(g[upto - 1]@, h1, h2);
    }
}

pub proof fn lemma_sum_occupied_monotone_upto(g: Seq<Vec<Hex>>, u1: int, u2: int, h: int)
    requires
        0 <= u1 <= u2,
        h >= 0,
    ensures
        sum_occupied(g, u1, h) <= sum_occupied(g, u2, h),
    decreases u2,
{
    if u1 < u2 {
        lemma_sum_occupied_monotone_upto(g, u1, u2 - 1, h);
        lemma_col_occupied_bounds(g[u2 - 1]@, h);
    }
}

pub proof fn lemma_col_occupied_all_empty(col: Seq<Hex>, upto: int)
    requires
        forall|j: int| 0 <= j < upto ==> !(#[trigger] col[j]).value,
    ensures
        col_occupied(col, upto) == 0,
    decreases upto,
{
    if upto > 0 {
        lemma_col_occupied_all_empty(col, upto - 1);
    }
}

pub proof fn lemma_sum_occupied_all_empty(g: Seq<Vec<Hex>>, upto: int, h: int)
    requires
        forall|x: int, j: int| 0 <= x < upto && 0 <= j < h ==> !(#[trigger] g[x]@[j]).value,
    ensures
        sum_occupied(g, upto, h) == 0,
    decreases upto,
{
    if upto > 0 {
        lemma_sum_occupied_all_empty(g, upto - 1, h);
        lemma_col_occupied_all_empty(g[upto - 1]@, h);
    }
}

pub proof fn lemma_col_occupied_zero_pointwise(col: Seq<Hex>, upto: int)
    requires
        col_occupied(col, upto) == 0,
    ensures
        forall|j: int| 0 <= j < upto ==> !(#[trigger] col[j]).value,
    decreases upto,
{
    if upto > 0 {
        lemma_col_occupied_bounds(col, upto - 1);
        lemma_col_occupied_zero_pointwise(col, upto - 1);
    }
}

pub proof fn lemma_sum_occupied_zero_pointwise(g: Seq<Vec<Hex>>, upto: int, h: int)
    requires
        h >= 0,
        sum_occupied(g, upto, h) == 0,
    ensures
        forall|x: int, j: int| 0 <= x < upto && 0 <= j < h ==> !(#[trigger] g[x]@[j]).value,
    decreases upto,
{
    if upto > 0 {
        lemma_sum_occupied_bounds(g, upto - 1, h);
        lemma_col_occupied_bounds(g[upto - 1]@, h);
        lemma_sum_occupied_zero_pointwise(g, upto - 1, h);
        lemma_col_occupied_zero_pointwise(g[upto - 1]@, h);
    }
}

pub proof fn lemma_col_empty_complement(col: Seq<Hex>, upto: int)
    requires
        upto >= 0,
    ensures
        col_occupied(col, upto) + col_empty(col, upto) == upto,
    decreases upto,
{
    if upto > 0 {
        lemma_col_empty_complement(col, upto - 1);
    }
}

pub proof fn lemma_col_class_nonneg(col: Seq<Hex>, x: int, c: int, upto: int)
    requires
        upto >= 0,
    ensures
        0 <= col_class(col, x, c, upto),
    decreases upto,
{
    if upto > 0 {
        lemma_col_class_nonneg(col, x, c, upto - 1);
    }
}

/// Every occupied cell has exactly one of the three sublattice classes.
pub proof fn lemma_col_class_partition(col: Seq<Hex>, x: int, upto: int)
    requires
        upto >= 0,
    ensures
        col_class(col, x, 0, upto) + col_class(col, x, 1, upto) + col_class(col, x, 2, upto)
            == col_occupied(col, upto),
    decreases upto,
{
    if upto > 0 {
        lemma_col_class_partition(col, x, upto - 1);
    }
}

pub proof fn lemma_col_cells_len(col: Seq<Hex>, upto: int)
    requires
        upto >= 0,
    ensures
        col_cells(col, upto).len() == col_occupied(col, upto),
    decreases upto,
{
    if upto > 0 {
        lemma_col_cells_len(col, upto - 1);
    }
}

pub proof fn lemma_col_occupied_update(col: Seq<Hex>, j: int, h2: Hex, upto: int)
    requires
        0 <= j < col.len(),
        upto <= col.len(),
    ensures
        col_occupied(col.update(j, h2), upto) == col_occupied(col, upto) + (if j < upto {
            (if h2.value {
                1int
            } else {
                0int
            }) - (if col[j].value {
                1int
            } else {
                0int
            })
        } else {
            0int
        }),
    decreases upto,
{
    if upto > 0 {
        lemma_col_occupied_update(col, j, h2, upto - 1);
    }
}

pub proof fn lemma_col_empty_update(col: Seq<Hex>, j: int, h2: Hex, upto: int)
    requires
        0 <= j < col.len(),
        upto <= col.len(),
    ensures
        col_empty(col.update(j, h2), upto) == col_empty(col, upto) + (if j < upto {
            (if h2.value {
                0int
            } else {
                1int
            }) - (if col[j].value {
                0int
            } else {
                1int
            })
        } else {
            0int
        }),
    decreases upto,
{
    if upto > 0 {
        lemma_col_empty_update(col, j, h2, upto - 1);
    }
}

pub proof fn lemma_sum_occupied_update(g: Seq<Vec<Hex>>, x: int, c2: Vec<Hex>, upto: int, h: int)
    requires
        0 <= x < g.len(),
        upto <= g.len(),
    ensures
        sum_occupied(g.update(x, c2), upto, h) == sum_occupied(g, upto, h) + (if x < upto {
            col_occupied(c2@, h) - col_occupied(g[x]@, h)
        } else {
            0int
        }),
    decreases upto,
{
    if upto > 0 {
        lemma_sum_occupied_update(g, x, c2, upto - 1, h);
    }
}

pub proof fn lemma_sum_empty_update(g: Seq<Vec<Hex>>, x: int, c2: Vec<Hex>, upto: int, h: int)
    requires
        0 <= x < g.len(),
        upto <= g.len(),
    ensures
        sum_empty(g.update(x, c2), upto, h) == sum_empty(g, upto, h) + (if x < upto {
            col_empty(c2@, h) - col_empty(g[x]@, h)
        } else {
            0int
        }),
    decreases upto,
{
    if upto > 0 {
        lemma_sum_empty_update(g, x, c2, upto - 1, h);
    }
}

pub proof fn lemma_sum_occupied_bounds(g: Seq<Vec<Hex>>, upto: int, h: int)
    requires
        upto >= 0,
        h >= 0,
    ensures
        0 <= sum_occupied(g, upto, h) <= upto * h,
    decreases upto,
{
    if upto > 0 {
        lemma_sum_occupied_bounds(g, upto - 1, h);
        lemma_col_occupied_bounds(g[upto - 1]@, h);
        assert((upto - 1) * h + h == upto * h) by (nonlinear_arith);
    } else {
        assert(upto * h == 0) by (nonlinear_arith)
            requires upto == 0,
        ;
    }
}

pub proof fn lemma_sum_empty_complement(g: Seq<Vec<Hex>>, upto: int, h: int)
    requires
        upto >= 0,
        h >= 0,
    ensures
        sum_occupied(g, upto, h) + sum_empty(g, upto, h) == upto * h,
    decreases upto,
{
    if upto > 0 {
        lemma_sum_empty_complement(g, upto - 1, h);
        lemma_col_empty_complement(g[upto - 1]@, h);
        assert((upto - 1) * h + h == upto * h) by (nonlinear_arith);
    } else {
        assert(upto * h == 0) by (nonlinear_arith)
            requires upto == 0,
        ;
    }
}

pub proof fn lemma_sum_class_nonneg(g: Seq<Vec<Hex>>, c: int, upto: int, h: int)
    requires
        upto >= 0,
        h >= 0,
    ensures
        0 <= sum_class(g, c, upto, h),
    decreases upto,
{
    if upto > 0 {
        lemma_sum_class_nonneg(g, c, upto - 1, h);
        lemma_col_class_nonneg(g[upto - 1]@, upto - 1, c, h);
    }
}

/// The three sublattice counts partition the occupied cells of the rectangle.
pub proof fn lemma_sum_class_partition(g: Seq<Vec<Hex>>, upto: int, h: int)
    requires
        upto >= 0,
        h >= 0,
    ensures
        sum_class(g, 0, upto, h) + sum_class(g, 1, upto, h) + sum_class(g, 2, upto, h)
            == sum_occupied(g, upto, h),
    decreases upto,
{
    if upto > 0 {
        lemma_sum_class_partition(g, upto - 1, h);
        lemma_col_class_partition(g[upto - 1]@, upto - 1, h);
    }
}

pub proof fn lemma_sum_cells_len(g: Seq<Vec<Hex>>, upto: int, h: int)
    requires
        upto >= 0,
        h >= 0,
    ensures
        sum_cells(g, upto, h).len() == sum_occupied(g, upto, h),
    decreases upto,
{
    if upto > 0 {
        lemma_sum_cells_len(g, upto - 1, h);
        lemma_col_cells_len(g[upto - 1]@, h);
    }
}

} // verus!
