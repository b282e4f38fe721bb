//! Boundary-condition enforcement.
//!
//! The grid's outermost ring models a closed wall: after every primitive
//! operation each non-corner edge cell is re-derived from its interior
//! neighbour (sign-flipped when the wall is perpendicular to the reflected
//! axis), and each corner is set to the average of its two adjacent edge
//! cells.

use vstd::prelude::*;

use crate::nums::{
    NMAX, VMAX, all_zero, idx, in_range, lemma_cell_coords, lemma_idx_bounds, lemma_tdiv_bound,
    lemma_tdiv_zero, tdiv, tdiv_exec,
};

verus! {

/// Which wall treatment a field gets: density and pressure copy values
/// outward unchanged; each velocity component is reflected across the wall
/// perpendicular to its axis.
#[derive(Clone, Copy, Debug, PartialEq, Eq, Structural)]
pub enum BoundaryKind {
    Neutral,
    ReflectX,
    ReflectY,
}

/// Exact negation of a stored value (total on `i64`; the solver only
/// negates values inside `[-VMAX, VMAX]`).
pub open spec fn neg64(v: i64) -> i64 {
    (-(v as int)) as i64
}

/// Truncated average of two stored values.
pub open spec fn avg2(a: i64, b: i64) -> i64 {
    tdiv(a as int + b as int, 2) as i64
}

/// Value a non-corner edge cell (i, j) takes from field `x` under kind `b`.
pub open spec fn edge_after(b: BoundaryKind, x: Seq<i64>, n: int, i: int, j: int) -> i64 {
    if j == 0 {
        if b is ReflectY { neg64(x[idx(i, 1, n)]) } else { x[idx(i, 1, n)] }
    } else if j == n - 1 {
        if b is ReflectY { neg64(x[idx(i, n - 2, n)]) } else { x[idx(i, n - 2, n)] }
    } else if i == 0 {
        if b is ReflectX { neg64(x[idx(1, j, n)]) } else { x[idx(1, j, n)] }
    } else {
        if b is ReflectX { neg64(x[idx(n - 2, j, n)]) } else { x[idx(n - 2, j, n)] }
    }
}

/// Value cell (i, j) holds after boundary enforcement of kind `b` over `x`.
pub open spec fn sb_cell(b: BoundaryKind, x: Seq<i64>, n: int, i: int, j: int) -> i64 {
    if 1 <= i < n - 1 && 1 <= j < n - 1 {
        x[idx(i, j, n)]
    } else if i == 0 && j == 0 {
        avg2(edge_after(b, x, n, 1, 0), edge_after(b, x, n, 0, 1))
    } else if i == 0 && j == n - 1 {
        avg2(edge_after(b, x, n, 1, n - 1), edge_after(b, x, n, 0, n - 2))
    } else if i == n - 1 && j == 0 {
        avg2(edge_after(b, x, n, n - 2, 0), edge_after(b, x, n, n - 1, 1))
    } else if i == n - 1 && j == n - 1 {
        avg2(edge_after(b, x, n, n - 2, n - 1), edge_after(b, x, n, n - 1, n - 2))
    } else {
        edge_after(b, x, n, i, j)
    }
}

/// The whole field after boundary enforcement of kind `b`.
pub open spec fn sb(b: BoundaryKind, x: Seq<i64>, n: int) -> Seq<i64> {
    Seq::new((n * n) as nat, |c: int| sb_cell(b, x, n, c % n, c / n))
}

/// Consistency of a fixed-up field: every non-corner edge cell equals
/// its interior neighbour (sign-flipped per the kind), and every corner is
/// the average of its two adjacent edge cells.
pub open spec fn boundary_consistent(b: BoundaryKind, s: Seq<i64>, n: int) -> bool {
    &&& forall|i: int|
        1 <= i < n - 1 ==> #[trigger] s[idx(i, 0, n)] == (if b is ReflectY {
            neg64(s[idx(i, 1, n)])
        } else {
            s[idx(i, 1, n)]
        })
    &&& forall|i: int|
        1 <= i < n - 1 ==> #[trigger] s[idx(i, n - 1, n)] == (if b is ReflectY {
            neg64(s[idx(i, n - 2, n)])
        } else {
            s[idx(i, n - 2, n)]
        })
    &&& forall|j: int|
        1 <= j < n - 1 ==> #[trigger] s[idx(0, j, n)] == (if b is ReflectX {
            neg64(s[idx(1, j, n)])
        } else {
            s[idx(1, j, n)]
        })
    &&& forall|j: int|
        1 <= j < n - 1 ==> #[trigger] s[idx(n - 1, j, n)] == (if b is ReflectX {
            neg64(s[idx(n - 2, j, n)])
        } else {
            s[idx(n - 2, j, n)]
        })
    &&& s[idx(0, 0, n)] == avg2(s[idx(1, 0, n)], s[idx(0, 1, n)])
    &&& s[idx(0, n - 1, n)] == avg2(s[idx(1, n - 1, n)], s[idx(0, n - 2, n)])
    &&& s[idx(n - 1, 0, n)] == avg2(s[idx(n - 2, 0, n)], s[idx(n - 1, 1, n)])
    &&& s[idx(n - 1, n - 1, n)] == avg2(s[idx(n - 2, n - 1, n)], s[idx(n - 1, n - 2, n)])
}

/// Reading the fixed-up field at given coordinates yields the cell formula.
pub proof fn lemma_sb_at(b: BoundaryKind, x: Seq<i64>, n: int, i: int, j: int)
    requires
        3 <= n,
        0 <= i < n,
        0 <= j < n,
    ensures
        sb(b, x, n)[idx(i, j, n)] == sb_cell(b, x, n, i, j),
{
    lemma_idx_bounds(i, j, n);
}

/// Boundary enforcement leaves every interior cell alone.
pub proof fn lemma_sb_interior(b: BoundaryKind, x: Seq<i64>, n: int)
    requires
        3 <= n,
    ensures
        forall|i: int, j: int|
            1 <= i < n - 1 && 1 <= j < n - 1 ==> #[trigger] sb(b, x, n)[idx(i, j, n)] == x[idx(
                i,
                j,
                n,
            )],
{
    assert forall|i: int, j: int|
        1 <= i < n - 1 && 1 <= j < n - 1 implies #[trigger] sb(b, x, n)[idx(i, j, n)] == x[idx(
        i,
        j,
        n,
    )] by {
        lemma_sb_at(b, x, n, i, j);
    }
}

/// Boundary enforcement of any kind establishes the consistency the wall
/// model asks for, on any field content.
pub proof fn lemma_sb_boundary_consistent(b: BoundaryKind, x: Seq<i64>, n: int)
    requires
        3 <= n,
    ensures
        boundary_consistent(b, sb(b, x, n), n),
{
    let s = sb(b, x, n);
    assert forall|i: int| 1 <= i < n - 1 implies #[trigger] s[idx(i, 0, n)] == (if b is ReflectY {
        neg64(s[idx(i, 1, n)])
    } else {
        s[idx(i, 1, n)]
    }) by {
        lemma_sb_at(b, x, n, i, 0);
        lemma_sb_at(b, x, n, i, 1);
    }
    assert forall|i: int| 1 <= i < n - 1 implies #[trigger] s[idx(i, n - 1, n)] == (
    if b is ReflectY {
        neg64(s[idx(i, n - 2, n)])
    } else {
        s[idx(i, n - 2, n)]
    }) by {
        lemma_sb_at(b, x, n, i, n - 1);
        lemma_sb_at(b, x, n, i, n - 2);
    }
    assert forall|j: int| 1 <= j < n - 1 implies #[trigger] s[idx(0, j, n)] == (if b is ReflectX {
        neg64(s[idx(1, j, n)])
    } else {
        s[idx(1, j, n)]
    }) by {
        lemma_sb_at(b, x, n, 0, j);
        lemma_sb_at(b, x, n, 1, j);
    }
    assert forall|j: int| 1 <= j < n - 1 implies #[trigger] s[idx(n - 1, j, n)] == (
    if b is ReflectX {
        neg64(s[idx(n - 2, j, n)])
    } else {
        s[idx(n - 2, j, n)]
    }) by {
        lemma_sb_at(b, x, n, n - 1, j);
        lemma_sb_at(b, x, n, n - 2, j);
    }
    lemma_sb_at(b, x, n, 0, 0);
    lemma_sb_at(b, x, n, 1, 0);
    lemma_sb_at(b, x, n, 0, 1);
    lemma_sb_at(b, x, n, 0, n - 1);
    lemma_sb_at(b, x, n, 1, n - 1);
    lemma_sb_at(b, x, n, 0, n - 2);
    lemma_sb_at(b, x, n, n - 1, 0);
    lemma_sb_at(b, x, n, n - 2, 0);
    lemma_sb_at(b, x, n, n - 1, 1);
    lemma_sb_at(b, x, n, n - 1, n - 1);
    lemma_sb_at(b, x, n, n - 2, n - 1);
    lemma_sb_at(b, x, n, n - 1, n - 2);
}

/// Boundary enforcement keeps every value in the stored range.
pub proof fn lemma_sb_in_range(b: BoundaryKind, x: Seq<i64>, n: int)
    requires
        3 <= n,
        x.len() == n * n,
        in_range(x),
    ensures
        in_range(sb(b, x, n)),
        sb(b, x, n).len() == n * n,
{
    let s = sb(b, x, n);
    assert forall|c: int| 0 <= c < s.len() implies -VMAX <= #[trigger] s[c] <= VMAX by {
        lemma_cell_coords(c, n);
        let i = c % n;
        let j = c / n;
        assert(s[c] == sb_cell(b, x, n, i, j));
        lemma_sb_cell_in_range(b, x, n, i, j);
    }
}

/// Each cell of the fixed-up field stays in the stored range.
proof fn lemma_sb_cell_in_range(b: BoundaryKind, x: Seq<i64>, n: int, i: int, j: int)
    requires
        3 <= n,
        x.len() == n * n,
        in_range(x),
        0 <= i < n,
        0 <= j < n,
    ensures
        -VMAX <= sb_cell(b, x, n, i, j) <= VMAX,
{
    lemma_idx_bounds(i, j, n);
    lemma_idx_bounds(1, 1, n);
    lemma_idx_bounds(1, n - 2, n);
    lemma_idx_bounds(n - 2, 1, n);
    lemma_idx_bounds(n - 2, n - 2, n);
    if 0 <= i - 1 {
        lemma_idx_bounds(i - 1, j, n);
    }
    if i + 1 < n {
        lemma_idx_bounds(i + 1, j, n);
    }
    if 1 <= i < n - 1 {
        lemma_idx_bounds(i, 1, n);
        lemma_idx_bounds(i, n - 2, n);
    }
    if 1 <= j < n - 1 {
        lemma_idx_bounds(1, j, n);
        lemma_idx_bounds(n - 2, j, n);
    }
    lemma_edge_in_range(b, x, n);
    if (i == 0 || i == n - 1) && (j == 0 || j == n - 1) {
        let a = if i == 0 && j == 0 {
            edge_after(b, x, n, 1, 0)
        } else if i == 0 && j == n - 1 {
            edge_after(b, x, n, 1, n - 1)
        } else if i == n - 1 && j == 0 {
            edge_after(b, x, n, n - 2, 0)
        } else {
            edge_after(b, x, n, n - 2, n - 1)
        };
        let d = if i == 0 && j == 0 {
            edge_after(b, x, n, 0, 1)
        } else if i == 0 && j == n - 1 {
            edge_after(b, x, n, 0, n - 2)
        } else if i == n - 1 && j == 0 {
            edge_after(b, x, n, n - 1, 1)
        } else {
            edge_after(b, x, n, n - 1, n - 2)
        };
        lemma_tdiv_bound(a as int + d as int, 2, VMAX as int);
        assert(sb_cell(b, x, n, i, j) == avg2(a, d));
    }
}

/// Non-corner edge values copied (or flipped) from in-range interior cells
/// stay in range.
proof fn lemma_edge_in_range(b: BoundaryKind, x: Seq<i64>, n: int)
    requires
        3 <= n,
        x.len() == n * n,
        in_range(x),
    ensures
        forall|i: int, j: int|
            0 <= i < n && 0 <= j < n && !(1 <= i < n - 1 && 1 <= j < n - 1) && !((i == 0 || i == n
                - 1) && (j == 0 || j == n - 1)) ==> -VMAX <= #[trigger] edge_after(b, x, n, i, j)
                <= VMAX,
{
    assert forall|i: int, j: int|
        0 <= i < n && 0 <= j < n && !(1 <= i < n - 1 && 1 <= j < n - 1) && !((i == 0 || i == n - 1)
            && (j == 0 || j == n - 1)) implies -VMAX <= #[trigger] edge_after(b, x, n, i, j)
        <= VMAX by {
        if j == 0 || j == n - 1 {
            lemma_idx_bounds(i, 1, n);
            lemma_idx_bounds(i, n - 2, n);
        } else {
            lemma_idx_bounds(1, j, n);
            lemma_idx_bounds(n - 2, j, n);
        }
    }
}

/// On an all-zero field boundary enforcement is the identity.
pub proof fn lemma_sb_zero(b: BoundaryKind, x: Seq<i64>, n: int)
    requires
        3 <= n,
        x.len() == n * n,
        all_zero(x),
    ensures
        sb(b, x, n) == x,
{
    let s = sb(b, x, n);
    assert forall|c: int| 0 <= c < s.len() implies s[c] == x[c] by {
        lemma_cell_coords(c, n);
        let i = c % n;
        let j = c / n;
        assert(s[c] == sb_cell(b, x, n, i, j));
        lemma_idx_bounds(i, j, n);
        lemma_idx_bounds(1, 1, n);
        lemma_idx_bounds(1, n - 2, n);
        lemma_idx_bounds(n - 2, 1, n);
        lemma_idx_bounds(n - 2, n - 2, n);
        if 1 <= i < n - 1 {
            lemma_idx_bounds(i, 1, n);
            lemma_idx_bounds(i, n - 2, n);
        }
        if 1 <= j < n - 1 {
            lemma_idx_bounds(1, j, n);
            lemma_idx_bounds(n - 2, j, n);
        }
        lemma_tdiv_zero(2);
        assert(x[c] == 0);
    }
    assert(s =~= x);
}

/// Enforce the boundary condition of kind `b` on `cur`: copy every
/// non-corner edge cell from its interior neighbour (negated where `b`
/// reflects across that wall), then set each corner to the average of its
/// two adjacent edge cells.
pub fn set_bnd(size: usize, b: BoundaryKind, cur: &mut Vec<i64>)
    requires
        3 <= size <= NMAX,
        old(cur).len() == size * size,
        in_range(old(cur)@),
    ensures
        final(cur)@ == sb(b, old(cur)@, size as int),
        final(cur).len() == size * size,
        in_range(final(cur)@),
{
    let n = size;
    let ghost ni = n as int;
    let ghost x = cur@;
    proof {
        lemma_idx_bounds(1, 1, ni);
    }
    for i in 1..(n - 1)
        invariant
            3 <= n <= NMAX,
            ni == n as int,
            cur.len() == n * n,
            x.len() == ni * ni,
            in_range(x),
            in_range(cur@),
            forall|xx: int, yy: int|
                0 <= xx < ni && 0 <= yy < ni ==> #[trigger] cur@[idx(xx, yy, ni)] == (if 1 <= xx
                    < i && yy == 0 {
                    edge_after(b, x, ni, xx, 0)
                } else if 1 <= xx < i && yy == ni - 1 {
                    edge_after(b, x, ni, xx, ni - 1)
                } else {
                    x[idx(xx, yy, ni)]
                }),
    {
        proof {
            lemma_idx_bounds(i as int, 1, ni);
            lemma_idx_bounds(i as int, 0, ni);
            lemma_idx_bounds(i as int, ni - 2, ni);
            lemma_idx_bounds(i as int, ni - 1, ni);
        }
        let src_lo = cur[crate::nums::ix(i as u32, 1, n as u32)];
        let v_lo = if b == BoundaryKind::ReflectY {
            -src_lo
        } else {
            src_lo
        };
        let k_lo = crate::nums::ix(i as u32, 0, n as u32);
        cur.set(k_lo, v_lo);
        let src_hi = cur[crate::nums::ix(i as u32, (n - 2) as u32, n as u32)];
        let v_hi = if b == BoundaryKind::ReflectY {
            -src_hi
        } else {
            src_hi
        };
        let k_hi = crate::nums::ix(i as u32, (n - 1) as u32, n as u32);
        cur.set(k_hi, v_hi);
        proof {
            assert forall|xx: int, yy: int|
                0 <= xx < ni && 0 <= yy < ni implies #[trigger] cur@[idx(xx, yy, ni)] == (if 1 <= xx
                < i + 1 && yy == 0 {
                edge_after(b, x, ni, xx, 0)
            } else if 1 <= xx < i + 1 && yy == ni - 1 {
                edge_after(b, x, ni, xx, ni - 1)
            } else {
                x[idx(xx, yy, ni)]
            }) by {
                lemma_idx_bounds(xx, yy, ni);
                if xx == i as int && yy == 0 {
                } else if xx == i as int && yy == ni - 1 {
                } else {
                }
            }
        }
    }
    for j in 1..(n - 1)
        invariant
            3 <= n <= NMAX,
            ni == n as int,
            cur.len() == n * n,
            x.len() == ni * ni,
            in_range(x),
            in_range(cur@),
            forall|xx: int, yy: int|
                0 <= xx < ni && 0 <= yy < ni ==> #[trigger] cur@[idx(xx, yy, ni)] == (if 1 <= xx
                    < ni - 1 && yy == 0 {
                    edge_after(b, x, ni, xx, 0)
                } else if 1 <= xx < ni - 1 && yy == ni - 1 {
                    edge_after(b, x, ni, xx, ni - 1)
                } else if xx == 0 && 1 <= yy < j {
                    edge_after(b, x, ni, 0, yy)
                } else if xx == ni - 1 && 1 <= yy < j {
                    edge_after(b, x, ni, ni - 1, yy)
                } else {
                    x[idx(xx, yy, ni)]
                }),
    {
        proof {
            lemma_idx_bounds(1, j as int, ni);
            lemma_idx_bounds(0, j as int, ni);
            lemma_idx_bounds(ni - 2, j as int, ni);
            lemma_idx_bounds(ni - 1, j as int, ni);
        }
        let src_lo = cur[crate::nums::ix(1, j as u32, n as u32)];
        let v_lo = if b == BoundaryKind::ReflectX {
            -src_lo
        } else {
            src_lo
        };
        let k_lo = crate::nums::ix(0, j as u32, n as u32);
        cur.set(k_lo, v_lo);
        let src_hi = cur[crate::nums::ix((n - 2) as u32, j as u32, n as u32)];
        let v_hi = if b == BoundaryKind::ReflectX {
            -src_hi
        } else {
            src_hi
        };
        let k_hi = crate::nums::ix((n - 1) as u32, j as u32, n as u32);
        cur.set(k_hi, v_hi);
        proof {
            assert forall|xx: int, yy: int|
                0 <= xx < ni && 0 <= yy < ni implies #[trigger] cur@[idx(xx, yy, ni)] == (if 1 <= xx
                < ni - 1 && yy == 0 {
                edge_after(b, x, ni, xx, 0)
            } else if 1 <= xx < ni - 1 && yy == ni - 1 {
                edge_after(b, x, ni, xx, ni - 1)
            } else if xx == 0 && 1 <= yy < j + 1 {
                edge_after(b, x, ni, 0, yy)
            } else if xx == ni - 1 && 1 <= yy < j + 1 {
                edge_after(b, x, ni, ni - 1, yy)
            } else {
                x[idx(xx, yy, ni)]
            }) by {
                lemma_idx_bounds(xx, yy, ni);
            }
        }
    }
    // The four corners, each the truncated average of its two freshly
    // written edge neighbours.
    proof {
        lemma_idx_bounds(0, 0, ni);
        lemma_idx_bounds(1, 0, ni);
        lemma_idx_bounds(0, 1, ni);
        lemma_idx_bounds(0, ni - 1, ni);
        lemma_idx_bounds(1, ni - 1, ni);
        lemma_idx_bounds(0, ni - 2, ni);
        lemma_idx_bounds(ni - 1, 0, ni);
        lemma_idx_bounds(ni - 2, 0, ni);
        lemma_idx_bounds(ni - 1, 1, ni);
        lemma_idx_bounds(ni - 1, ni - 1, ni);
        lemma_idx_bounds(ni - 2, ni - 1, ni);
        lemma_idx_bounds(ni - 1, ni - 2, ni);
    }
    let a00 = cur[crate::nums::ix(1, 0, n as u32)];
    let b00 = cur[crate::nums::ix(0, 1, n as u32)];
    let k00 = crate::nums::ix(0, 0, n as u32);
    cur.set(k00, avg_exec(a00, b00));
    let a0n = cur[crate::nums::ix(1, (n - 1) as u32, n as u32)];
    let b0n = cur[crate::nums::ix(0, (n - 2) as u32, n as u32)];
    let k0n = crate::nums::ix(0, (n - 1) as u32, n as u32);
    cur.set(k0n, avg_exec(a0n, b0n));
    let an0 = cur[crate::nums::ix((n - 2) as u32, 0, n as u32)];
    let bn0 = cur[crate::nums::ix((n - 1) as u32, 1, n as u32)];
    let kn0 = crate::nums::ix((n - 1) as u32, 0, n as u32);
    cur.set(kn0, avg_exec(an0, bn0));
    let ann = cur[crate::nums::ix((n - 2) as u32, (n - 1) as u32, n as u32)];
    let bnn = cur[crate::nums::ix((n - 1) as u32, (n - 2) as u32, n as u32)];
    let knn = crate::nums::ix((n - 1) as u32, (n - 1) as u32, n as u32);
    cur.set(knn, avg_exec(ann, bnn));
    proof {
        assert forall|c: int| 0 <= c < ni * ni implies cur@[c] == sb(b, x, ni)[c] by {
            lemma_cell_coords(c, ni);
            let i = c % ni;
            let j = c / ni;
            lemma_sb_at(b, x, ni, i, j);
            lemma_idx_bounds(i, j, ni);
        }
        assert(cur@ =~= sb(b, x, ni));
    }
}

/// Truncated average of two stored values.
fn avg_exec(a: i64, b: i64) -> (r: i64)
    requires
        -VMAX <= a <= VMAX,
        -VMAX <= b <= VMAX,
    ensures
        r == avg2(a, b),
        -VMAX <= r <= VMAX,
{
    proof {
        lemma_tdiv_bound(a as int + b as int, 2, VMAX as int);
    }
    tdiv_exec(a as i128 + b as i128, 2) as i64
}

} // verus!
