use vstd::prelude::*;
use vstd::set_lib::{lemma_int_range, lemma_map_size, lemma_set_subset_finite, set_int_range};
use vstd::string::StringExecFns;

use super::cubie_face::CubieFace;
use crate::notation::{append_decimal, decimal};

verus! {

/// A layer that a side (or a cube) does not have was asked for.
#[derive(Debug, Copy, Clone, PartialEq, Eq, Structural)]
pub enum LayerError {
    /// The side has no row with this index.
    MissingRow { layer: usize },
    /// The side has no column with this index.
    MissingColumn { layer: usize },
    /// Counting this many layers back from the far edge of the side goes past its near edge.
    LayerUnderflow { layer: usize },
    /// The side has no row or column with this index to replace.
    MissingLayer { layer: usize },
}

/// The message that tells what a layer error is.
pub open spec fn layer_message(e: LayerError) -> Seq<char> {
    match e {
        LayerError::MissingRow { layer } => "side did not have required layer ("@ + decimal(
            layer as nat,
        ) + " of outer vec of side)"@,
        LayerError::MissingColumn { layer } => "side did not have required layer ("@ + decimal(
            layer as nat,
        ) + " of inner vec of side)"@,
        LayerError::LayerUnderflow { layer } => "requested layer index "@ + decimal(layer as nat)
            + " caused underflow"@,
        LayerError::MissingLayer { layer } => "side did not have requested layer ("@ + decimal(
            layer as nat,
        ) + ")"@,
    }
}

impl LayerError {
    /// The message that tells what this error is, such as
    /// `side did not have required layer (4 of outer vec of side)`.
    pub fn message(&self) -> (text: String)
        ensures
            text@ == layer_message(*self),
    {
        let (head, layer, tail) = match *self {
            LayerError::MissingRow { layer } => (
                "side did not have required layer (",
                layer,
                " of outer vec of side)",
            ),
            LayerError::MissingColumn { layer } => (
                "side did not have required layer (",
                layer,
                " of inner vec of side)",
            ),
            LayerError::LayerUnderflow { layer } => (
                "requested layer index ",
                layer,
                " caused underflow",
            ),
            LayerError::MissingLayer { layer } => ("side did not have requested layer (", layer, ")"),
        };
        let mut text = String::from_str(head);
        append_decimal(&mut text, layer);
        text.append(tail);
        text
    }
}

/// The `n` by `n` grid, as rows of cubies, that `flat` holds in row-major order.
pub open spec fn grid_of(n: nat, flat: Seq<CubieFace>) -> Seq<Seq<CubieFace>> {
    Seq::new(n, |r: int| Seq::new(n, |c: int| flat[r * n + c]))
}

/// `g` has `n` rows of `n` cubies each.
pub open spec fn is_square<T>(g: Seq<Seq<T>>, n: nat) -> bool {
    &&& g.len() == n
    &&& forall|r: int| 0 <= r < n ==> #[trigger] g[r].len() == n
}

/// Column `x` of a grid, from the top row down.
pub open spec fn column_of<T>(g: Seq<Seq<T>>, x: int) -> Seq<T> {
    Seq::new(g.len(), |r: int| g[r][x])
}

/// The grid turned a quarter turn clockwise: the cubie at row `r`, column `c` comes from
/// row `n - 1 - c`, column `r`.
pub open spec fn rotated_clockwise<T>(g: Seq<Seq<T>>) -> Seq<Seq<T>> {
    Seq::new(g.len(), |r: int| Seq::new(g.len(), |c: int| g[g.len() - 1 - c][r]))
}

/// The places, as row and column, of an `n` by `n` grid.
pub open spec fn grid_places(n: int) -> Set<(int, int)> {
    Set::new(|p: (int, int)| 0 <= p.0 < n && 0 <= p.1 < n)
}

/// On how many places of the `n` by `n` grid `g` the value `v` lies: its multiplicity in the
/// multiset of the grid's values.
pub open spec fn grid_count<T>(g: Seq<Seq<T>>, n: int, v: T) -> nat {
    grid_places(n).filter(|p: (int, int)| g[p.0][p.1] == v).len()
}

/// A grid has finitely many places.
proof fn lemma_grid_places_finite(n: int)
    requires
        n >= 0,
    ensures
        grid_places(n).finite(),
{
    let range = set_int_range(0, n);
    lemma_int_range(0, n);
    let row = |r: int| range.map(|c: int| (r, c));
    let rows = range.map(row);
    range.lemma_map_finite(row);
    assert forall|x: Set<(int, int)>| rows.contains(x) implies #[trigger] x.finite() by {
        let r = choose|r: int| range.contains(r) && row(r) == x;
        range.lemma_map_finite(|c: int| (r, c));
    }
    rows.lemma_flatten_finite();
    assert forall|p: (int, int)| grid_places(n).contains(p) implies rows.flatten().contains(p) by {
        assert(range.contains(p.0));
        assert(range.contains(p.1));
        assert(rows.contains(row(p.0)));
        assert(row(p.0).contains((p.0, p.1)));
    }
    lemma_set_subset_finite(rows.flatten(), grid_places(n));
}

/// A quarter turn only moves the values of a square grid: each value lies on as many places
/// after it as before.
pub proof fn lemma_rotated_clockwise_keeps_counts<T>(g: Seq<Seq<T>>, n: nat, v: T)
    requires
        is_square(g, n),
    ensures
        grid_count(rotated_clockwise(g), n as int, v) == grid_count(g, n as int, v),
{
    let m = n as int;
    let h = rotated_clockwise(g);
    let from = |p: (int, int)| (m - 1 - p.1, p.0);
    let to = |p: (int, int)| (p.1, m - 1 - p.0);
    lemma_grid_places_finite(m);
    let at_h = grid_places(m).filter(|p: (int, int)| h[p.0][p.1] == v);
    let at_g = grid_places(m).filter(|p: (int, int)| g[p.0][p.1] == v);
    lemma_set_subset_finite(grid_places(m), at_h);
    assert forall|d: (int, int)| at_g.contains(d) implies #[trigger] at_h.map(from).contains(d) by {
        let p = to(d);
        assert(from(p) == d);
        assert(h[p.0][p.1] == g[m - 1 - p.1][p.0]);
        assert(at_h.contains(p));
    }
    assert forall|d: (int, int)| at_h.map(from).contains(d) implies #[trigger] at_g.contains(d) by {
        let p = choose|p: (int, int)| at_h.contains(p) && from(p) == d;
        assert(h[p.0][p.1] == g[m - 1 - p.1][p.0]);
    }
    assert(at_h.map(from) =~= at_g);
    assert forall|a: (int, int), b: (int, int)| at_h.contains(a) && at_h.contains(b) && #[trigger] from(a)
        == #[trigger] from(b) implies a == b by {
        assert(to(from(a)) == a);
        assert(to(from(b)) == b);
    }
    lemma_map_size(at_h, at_g, from);
}

/// Four quarter turns clockwise bring a square grid back to where it started.
pub proof fn lemma_rotated_clockwise_four_times<T>(g: Seq<Seq<T>>, n: nat)
    requires
        is_square(g, n),
    ensures
        rotated_clockwise(rotated_clockwise(rotated_clockwise(rotated_clockwise(g)))) == g,
{
    let g1 = rotated_clockwise(g);
    let g2 = rotated_clockwise(g1);
    let g3 = rotated_clockwise(g2);
    let g4 = rotated_clockwise(g3);
    assert forall|r: int| 0 <= r < n implies #[trigger] g4[r] =~= g[r] by {
        assert forall|c: int| 0 <= c < n implies #[trigger] g4[r][c] == g[r][c] by {
            assert(g4[r][c] == g3[n - 1 - c][r]);
            assert(g3[n - 1 - c][r] == g2[n - 1 - r][n - 1 - c]);
            assert(g2[n - 1 - r][n - 1 - c] == g1[c][n - 1 - r]);
            assert(g1[c][n - 1 - r] == g[r][c]);
        }
    }
    assert(g4 =~= g);
}

/// Row `r`, column `c` of an `n` by `n` grid sits at `r * n + c` in row-major order.
pub proof fn lemma_flat_index(n: int, r: int, c: int)
    requires
        0 <= r < n,
        0 <= c < n,
    ensures
        0 <= r * n,
        r * n + n <= n * n,
        0 <= r * n + c < n * n,
{
    assert(0 <= r * n) by (nonlinear_arith)
        requires
            0 <= r,
            0 <= n,
    ;
    assert(r * n + n <= n * n) by (nonlinear_arith)
        requires
            r + 1 <= n,
            0 <= n,
    ;
}

/// Distinct cells of an `n` by `n` grid sit at distinct places in row-major order.
pub proof fn lemma_flat_index_unique(n: int, r1: int, c1: int, r2: int, c2: int)
    requires
        0 <= r1 < n,
        0 <= c1 < n,
        0 <= r2 < n,
        0 <= c2 < n,
        r1 * n + c1 == r2 * n + c2,
    ensures
        r1 == r2,
        c1 == c2,
{
    if r1 < r2 {
        assert(r1 * n + n <= r2 * n) by (nonlinear_arith)
            requires
                r1 + 1 <= r2,
                0 <= n,
        ;
    } else if r2 < r1 {
        assert(r2 * n + n <= r1 * n) by (nonlinear_arith)
            requires
                r2 + 1 <= r1,
                0 <= n,
        ;
    }
}

/// A representation of a cube side that uses a single [`Vec`] to support dynamic sizing at runtime, with better
/// performance than a naive nested `Vec<Vec<CubieFace>>` approach, while providing an API that 'looks like' a
/// `Vec<Vec<CubieFace>>` to some extent.
///
/// The single [`Vec`] stores the side in row-major order.
#[derive(Debug, PartialEq)]
pub struct FlatSide {
    side_length: usize,
    inner: Vec<CubieFace>,
}

impl View for FlatSide {
    type V = Seq<Seq<CubieFace>>;

    open spec fn view(&self) -> Seq<Seq<CubieFace>> {
        grid_of(self.spec_side_length(), self.flat())
    }
}

impl FlatSide {
    /// The number of cubies along each edge of this side.
    pub closed spec fn spec_side_length(&self) -> nat {
        self.side_length as nat
    }

    /// All cubies of this side in row-major order.
    pub closed spec fn flat(&self) -> Seq<CubieFace> {
        self.inner@
    }

    /// The storage holds exactly `side_length` squared cubies.
    pub open spec fn wf(&self) -> bool {
        self.flat().len() == self.spec_side_length() * self.spec_side_length()
    }

    /// A well-formed side is a square grid of its side length.
    pub proof fn lemma_square(&self)
        requires
            self.wf(),
        ensures
            is_square(self@, self.spec_side_length()),
            self.spec_side_length() * self.spec_side_length() <= usize::MAX,
    {
        assert(self.inner@.len() == self.inner.len());
    }

    /// Create a new [`FlatSide`] instance from an existing [`Vec`].
    ///
    /// Note that the length of `inner` must be equal to `side_length` squared.
    pub fn new(side_length: usize, inner: Vec<CubieFace>) -> (side: Self)
        requires
            side_length * side_length == inner.len(),
        ensures
            side.wf(),
            side.spec_side_length() == side_length,
            side.flat() == inner@,
            side@ == grid_of(side_length as nat, inner@),
    {
        Self { side_length, inner }
    }

    /// Get the side length.
    ///
    /// Note this is _not_ the length of the inner single [`Vec`].
    pub fn side_length(&self) -> (n: usize)
        ensures
            n == self.spec_side_length(),
    {
        self.side_length
    }

    /// The cubie at row `y`, column `x`.
    fn cell(&self, y: usize, x: usize) -> (cubie: CubieFace)
        requires
            self.wf(),
            y < self.spec_side_length(),
            x < self.spec_side_length(),
        ensures
            cubie == self@[y as int][x as int],
    {
        proof {
            self.lemma_square();
            lemma_flat_index(self.side_length as int, y as int, x as int);
        }
        self.inner[y * self.side_length + x]
    }

    /// Replace the cubie at row `y`, column `x` with `value`.
    fn set_cell(&mut self, y: usize, x: usize, value: CubieFace)
        requires
            old(self).wf(),
            y < old(self).spec_side_length(),
            x < old(self).spec_side_length(),
        ensures
            final(self).wf(),
            final(self).spec_side_length() == old(self).spec_side_length(),
            final(self)@ == old(self)@.update(y as int, old(self)@[y as int].update(x as int, value)),
    {
        let ghost n = self.side_length as int;
        proof {
            self.lemma_square();
            lemma_flat_index(n, y as int, x as int);
        }
        let i = y * self.side_length + x;
        self.inner.set(i, value);
        proof {
            let g = grid_of(n as nat, self.inner@);
            let o = old(self)@;
            let expected = o.update(y as int, o[y as int].update(x as int, value));
            assert forall|r: int, c: int| 0 <= r < n && 0 <= c < n implies #[trigger] g[r][c]
                == expected[r][c] by {
                lemma_flat_index(n, r, c);
                if r * n + c == y * n + x {
                    lemma_flat_index_unique(n, r, c, y as int, x as int);
                }
            }
            assert forall|r: int| 0 <= r < n implies #[trigger] g[r] =~= expected[r] by {}
            assert(g =~= expected);
        }
    }

    /// Swap the cubies at (`y1`, `x1`) and (`y2`, `x2`).
    fn swap_cells(&mut self, y1: usize, x1: usize, y2: usize, x2: usize)
        requires
            old(self).wf(),
            y1 < old(self).spec_side_length(),
            x1 < old(self).spec_side_length(),
            y2 < old(self).spec_side_length(),
            x2 < old(self).spec_side_length(),
        ensures
            final(self).wf(),
            final(self).spec_side_length() == old(self).spec_side_length(),
            forall|r: int, c: int|
                0 <= r < old(self).spec_side_length() && 0 <= c < old(self).spec_side_length()
                    ==> #[trigger] final(self)@[r][c] == if r == y1 && c == x1 {
                    old(self)@[y2 as int][x2 as int]
                } else if r == y2 && c == x2 {
                    old(self)@[y1 as int][x1 as int]
                } else {
                    old(self)@[r][c]
                },
    {
        let a = self.cell(y1, x1);
        let b = self.cell(y2, x2);
        self.set_cell(y1, x1, b);
        self.set_cell(y2, x2, a);
    }

    /// Get row index `y` of the side.
    pub fn row(&self, y: usize) -> (row: Option<&[CubieFace]>)
        requires
            self.wf(),
        ensures
            y >= self.spec_side_length() ==> row is None,
            y < self.spec_side_length() ==> row is Some && row->0@ == self@[y as int],
    {
        if y >= self.side_length {
            return None;
        }
        proof {
            self.lemma_square();
            lemma_flat_index(self.side_length as int, y as int, 0);
        }
        let start_i = y * self.side_length;
        let end_i_excl = start_i + self.side_length;
        let row = &self.inner.as_slice()[start_i..end_i_excl];
        proof {
            let n = self.side_length as int;
            assert(row@ =~= self@[y as int]);
        }
        Some(row)
    }

    /// Get a mutable reference to row index `y` of the side.
    ///
    /// What is written through the reference becomes row `y` of the side; while the row keeps
    /// its length, the side stays square.
    pub fn row_mut(&mut self, y: usize) -> (row: Option<&mut [CubieFace]>)
        requires
            old(self).wf(),
        ensures
            final(self).spec_side_length() == old(self).spec_side_length(),
            y >= old(self).spec_side_length() ==> row is None && final(self).flat() == old(self).flat(),
            y < old(self).spec_side_length() ==> {
                &&& row is Some
                &&& row->0@ == old(self)@[y as int]
                &&& final(self).flat() == old(self).flat().subrange(0, y * old(self).spec_side_length())
                    + final(row->0)@ + old(self).flat().subrange(
                    y * old(self).spec_side_length() + old(self).spec_side_length(),
                    old(self).flat().len() as int,
                )
            },
    {
        if y >= self.side_length {
            return None;
        }
        proof {
            self.lemma_square();
            lemma_flat_index(self.side_length as int, y as int, 0);
            lemma_flat_index(self.side_length as int, y as int, self.side_length - 1);
        }
        let n = self.side_length;
        let start_i = y * n;
        let ghost before = self.inner@;
        let (front, rest) = self.inner.as_mut_slice().split_at_mut(start_i);
        let (row, back) = rest.split_at_mut(n);
        proof {
            assert(row@ =~= old(self)@[y as int]);
            assert(front@ == before.subrange(0, start_i as int));
            assert(back@ =~= before.subrange(start_i + n, before.len() as int));
            assert(final(front)@ == front@);
            assert(final(back)@ == back@);
        }
        Some(row)
    }

    /// All rows of this side, from the top row down.
    pub fn rows(&self) -> (rows: Vec<Vec<CubieFace>>)
        requires
            self.wf(),
        ensures
            rows.len() == self.spec_side_length(),
            forall|r: int| 0 <= r < rows.len() ==> #[trigger] rows[r]@ == self@[r],
    {
        let n = self.side_length;
        let mut rows: Vec<Vec<CubieFace>> = Vec::new();
        let mut y: usize = 0;
        while y < n
            invariant
                self.wf(),
                n == self.spec_side_length(),
                y <= n,
                rows.len() == y,
                forall|r: int| 0 <= r < y ==> #[trigger] rows[r]@ == self@[r],
            decreases n - y,
        {
            let row = self.row(y);
            let row = row.unwrap();
            rows.push(vstd::slice::slice_to_vec(row));
            y = y + 1;
        }
        rows
    }

    /// Replace the values in row index `y` with the values in `values`.
    pub fn clone_row_from(&mut self, y: usize, values: &[CubieFace]) -> (res: Result<(), LayerError>)
        requires
            old(self).wf(),
            y >= old(self).spec_side_length() || values.len() == old(self).spec_side_length(),
        ensures
            final(self).wf(),
            final(self).spec_side_length() == old(self).spec_side_length(),
            y >= old(self).spec_side_length() ==> res == Err::<(), LayerError>(
                LayerError::MissingLayer { layer: y },
            ) && final(self)@ == old(self)@,
            y < old(self).spec_side_length() ==> res is Ok && final(self)@ == old(self)@.update(
                y as int,
                values@,
            ),
    {
        let n = self.side_length;
        if y >= n {
            return Err(LayerError::MissingLayer { layer: y });
        }
        let mut x: usize = 0;
        while x < n
            invariant
                self.wf(),
                n == self.spec_side_length(),
                n == old(self).spec_side_length(),
                y < n,
                x <= n,
                values.len() == n,
                self@.len() == n,
                forall|r: int| 0 <= r < n && r != y ==> #[trigger] self@[r] == old(self)@[r],
                forall|c: int| 0 <= c < n ==> #[trigger] self@[y as int][c] == if c < x {
                    values@[c]
                } else {
                    old(self)@[y as int][c]
                },
            decreases n - x,
        {
            self.set_cell(y, x, values[x]);
            x = x + 1;
        }
        assert(self@ =~= old(self)@.update(y as int, values@)) by {
            assert(self@[y as int] =~= values@);
        }
        Ok(())
    }

    /// Get column index `x` of the side, from the top row down.
    pub fn col(&self, x: usize) -> (col: Option<Vec<CubieFace>>)
        requires
            self.wf(),
        ensures
            x >= self.spec_side_length() ==> col is None,
            x < self.spec_side_length() ==> col is Some && col->0@ == column_of(self@, x as int),
    {
        let n = self.side_length;
        if x >= n {
            return None;
        }
        let mut col: Vec<CubieFace> = Vec::new();
        let mut y: usize = 0;
        while y < n
            invariant
                self.wf(),
                n == self.spec_side_length(),
                x < n,
                y <= n,
                col.len() == y,
                forall|r: int| 0 <= r < y ==> #[trigger] col@[r] == self@[r][x as int],
            decreases n - y,
        {
            col.push(self.cell(y, x));
            y = y + 1;
        }
        assert(col@ =~= column_of(self@, x as int));
        Some(col)
    }

    /// Replace the values in column index `x` with the values in `values`.
    ///
    /// Only as many cubies as both the column and `values` hold are replaced.
    pub fn clone_col_from(&mut self, x: usize, values: &[CubieFace]) -> (res: Result<(), LayerError>)
        requires
            old(self).wf(),
        ensures
            final(self).wf(),
            final(self).spec_side_length() == old(self).spec_side_length(),
            x >= old(self).spec_side_length() ==> res == Err::<(), LayerError>(
                LayerError::MissingLayer { layer: x },
            ) && final(self)@ == old(self)@,
            x < old(self).spec_side_length() ==> res is Ok && final(self)@.len() == old(self)@.len()
                && forall|r: int|
                0 <= r < old(self).spec_side_length() ==> #[trigger] final(self)@[r] == if r
                < values.len() {
                old(self)@[r].update(x as int, values@[r])
            } else {
                old(self)@[r]
            },
    {
        let n = self.side_length;
        if x >= n {
            return Err(LayerError::MissingLayer { layer: x });
        }
        proof {
            self.lemma_square();
        }
        let mut y: usize = 0;
        while y < n && y < values.len()
            invariant
                self.wf(),
                n == self.spec_side_length(),
                n == old(self).spec_side_length(),
                x < n,
                y <= n,
                y <= values.len(),
                is_square(old(self)@, n as nat),
                is_square(self@, n as nat),
                forall|r: int| 0 <= r < n ==> #[trigger] self@[r] == if r < y {
                    old(self)@[r].update(x as int, values@[r])
                } else {
                    old(self)@[r]
                },
            decreases n - y,
        {
            self.set_cell(y, x, values[y]);
            proof {
                self.lemma_square();
                assert forall|r: int| 0 <= r < n implies #[trigger] self@[r] == if r < y + 1 {
                    old(self)@[r].update(x as int, values@[r])
                } else {
                    old(self)@[r]
                } by {
                    if r == y {
                        assert(self@[r] =~= old(self)@[r].update(x as int, values@[r]));
                    }
                }
            }
            y = y + 1;
        }
        proof {
            self.lemma_square();
            assert forall|r: int| 0 <= r < n implies #[trigger] self@[r] == if r < values.len() {
                old(self)@[r].update(x as int, values@[r])
            } else {
                old(self)@[r]
            } by {
                if r < values.len() {
                    assert(r < y);
                }
            }
        }
        Ok(())
    }

    /// Iterate all [`CubieFace`]s of this side in row-major order.
    pub fn iter_flat(&self) -> (cubies: &[CubieFace])
        ensures
            cubies@ == self.flat(),
    {
        self.inner.as_slice()
    }

    /// Rotate this side in place, 90 degrees clockwise.
    pub fn rotate_90_degrees_clockwise(&mut self)
        requires
            old(self).wf(),
        ensures
            final(self).wf(),
            final(self).spec_side_length() == old(self).spec_side_length(),
            final(self)@ == rotated_clockwise(old(self)@),
    {
        self.reverse_order_of_rows();
        let ghost reversed = self@;
        let n = self.side_length;
        proof {
            self.lemma_square();
        }
        let mut i: usize = 1;
        while i < n
            invariant
                self.wf(),
                n == self.spec_side_length(),
                1 <= i || n == 0,
                i <= n || n == 0,
                is_square(reversed, n as nat),
                forall|r: int, c: int|
                    0 <= r < n && 0 <= c < n ==> #[trigger] self@[r][c] == if r < i && c < i {
                        reversed[c][r]
                    } else {
                        reversed[r][c]
                    },
            decreases n - i,
        {
            let mut j: usize = 0;
            while j < i
                invariant
                    self.wf(),
                    n == self.spec_side_length(),
                    1 <= i < n,
                    j <= i,
                    is_square(reversed, n as nat),
                    forall|r: int, c: int|
                        0 <= r < n && 0 <= c < n ==> #[trigger] self@[r][c] == if (r < i && c < i)
                            || (r == i && c < j) || (c == i && r < j) {
                            reversed[c][r]
                        } else {
                            reversed[r][c]
                        },
                decreases i - j,
            {
                self.swap_cells(j, i, i, j);
                j = j + 1;
            }
            i = i + 1;
        }
        proof {
            self.lemma_square();
            let o = old(self)@;
            let e = rotated_clockwise(o);
            assert forall|r: int| 0 <= r < n implies #[trigger] self@[r] =~= e[r] by {
                assert forall|c: int| 0 <= c < n implies self@[r][c] == e[r][c] by {
                    assert(reversed[c][r] == o[n - 1 - c][r]);
                }
            }
            assert(self@ =~= e);
        }
    }

    /// The equivalent of `.reverse()` on the naive `Vec<Vec<CubieFace>>` implementation of a side.
    pub fn reverse_order_of_rows(&mut self)
        requires
            old(self).wf(),
        ensures
            final(self).wf(),
            final(self).spec_side_length() == old(self).spec_side_length(),
            final(self)@ == old(self)@.reverse(),
    {
        let n = self.side_length;
        proof {
            self.lemma_square();
        }
        let rows_to_swap = n / 2;
        let mut i: usize = 0;
        while i < rows_to_swap
            invariant
                self.wf(),
                n == self.spec_side_length(),
                rows_to_swap == n / 2,
                i <= rows_to_swap,
                is_square(old(self)@, n as nat),
                forall|r: int, c: int|
                    0 <= r < n && 0 <= c < n ==> #[trigger] self@[r][c] == if r < i || r >= n - i {
                        old(self)@[n - 1 - r][c]
                    } else {
                        old(self)@[r][c]
                    },
            decreases rows_to_swap - i,
        {
            let mut x: usize = 0;
            while x < n
                invariant
                    self.wf(),
                    n == self.spec_side_length(),
                    rows_to_swap == n / 2,
                    i < rows_to_swap,
                    x <= n,
                    is_square(old(self)@, n as nat),
                    forall|r: int, c: int|
                        0 <= r < n && 0 <= c < n ==> #[trigger] self@[r][c] == if r < i || r >= n
                            - i || ((r == i || r == n - 1 - i) && c < x) {
                            old(self)@[n - 1 - r][c]
                        } else {
                            old(self)@[r][c]
                        },
                decreases n - x,
            {
                self.swap_cells(i, x, n - 1 - i, x);
                x = x + 1;
            }
            i = i + 1;
        }
        proof {
            self.lemma_square();
            let e = old(self)@.reverse();
            assert forall|r: int| 0 <= r < n implies #[trigger] self@[r] =~= e[r] by {}
            assert(self@ =~= e);
        }
    }
}

} // verus!
