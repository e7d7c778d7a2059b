use vstd::prelude::*;

use super::cubie_face::CubieFace;
use super::face::Face;
use super::flat_side::FlatSide;
use super::{Cube, CubeState, PuzzleCube};

verus! {

/// `n` blank cells.
pub open spec fn blanks(n: nat) -> Seq<Option<CubieFace>> {
    Seq::new(n, |i: int| None)
}

/// The cubies of `row`, each in a cell.
pub open spec fn cells(row: Seq<CubieFace>) -> Seq<Option<CubieFace>> {
    row.map_values(|c: CubieFace| Some(c))
}

/// Row `r` of the net of the cube, as it is printed: the up side indented by one side's width,
/// then the left, front, right and back sides next to each other, then the down side indented.
pub open spec fn net_row(s: CubeState, r: int) -> Seq<Option<CubieFace>> {
    let n = s.n as int;
    if r < n {
        blanks(s.n) + cells(s.up[r])
    } else if r < 2 * n {
        cells(s.left[r - n]) + cells(s.front[r - n]) + cells(s.right[r - n]) + cells(
            s.back[r - n],
        )
    } else {
        blanks(s.n) + cells(s.down[r - 2 * n])
    }
}

/// What the net of a cube shows, place by place: the up side's rows above the rest, each
/// indented by a side's width of blank cells; the left, front, right and back sides' rows side by
/// side below it; then the down side's rows, indented. Row `r` of each side is shown in row `r`
/// of its band, its cubie in column `c` in column `c` of its block.
pub open spec fn shows_net(rows: Seq<Seq<Option<CubieFace>>>, s: CubeState) -> bool {
    let n = s.n as int;
    &&& rows.len() == 3 * n
    &&& forall|r: int| 0 <= r < n ==> (#[trigger] rows[r]).len() == 2 * n
    &&& forall|r: int| n <= r < 2 * n ==> (#[trigger] rows[r]).len() == 4 * n
    &&& forall|r: int| 2 * n <= r < 3 * n ==> (#[trigger] rows[r]).len() == 2 * n
    &&& forall|r: int, c: int|
        0 <= r < n && 0 <= c < n ==> {
            &&& rows[r][c] is None
            &&& rows[2 * n + r][c] is None
            &&& rows[r][n + c] == Some(#[trigger] s.get(Face::Up, r, c))
            &&& rows[n + r][c] == Some(s.get(Face::Left, r, c))
            &&& rows[n + r][n + c] == Some(s.get(Face::Front, r, c))
            &&& rows[n + r][2 * n + c] == Some(s.get(Face::Right, r, c))
            &&& rows[n + r][3 * n + c] == Some(s.get(Face::Back, r, c))
            &&& rows[2 * n + r][n + c] == Some(s.get(Face::Down, r, c))
        }
}

/// The rows of the net, as `net_row` builds them, show every cubie of the cube in its place.
pub proof fn lemma_net_rows_show_net(s: CubeState)
    requires
        s.wf(),
    ensures
        shows_net(Seq::new((3 * s.n) as nat, |r: int| net_row(s, r)), s),
{
    let n = s.n as int;
    let rows = Seq::new((3 * s.n) as nat, |r: int| net_row(s, r));
    assert forall|r: int, c: int| 0 <= r < n && 0 <= c < n implies {
        &&& rows[r][c] is None
        &&& rows[2 * n + r][c] is None
        &&& rows[r][n + c] == Some(#[trigger] s.get(Face::Up, r, c))
        &&& rows[n + r][c] == Some(s.get(Face::Left, r, c))
        &&& rows[n + r][n + c] == Some(s.get(Face::Front, r, c))
        &&& rows[n + r][2 * n + c] == Some(s.get(Face::Right, r, c))
        &&& rows[n + r][3 * n + c] == Some(s.get(Face::Back, r, c))
        &&& rows[2 * n + r][n + c] == Some(s.get(Face::Down, r, c))
    } by {
        assert(s.up[r].len() == n);
        assert(s.down[r].len() == n);
        assert(s.left[r].len() == n);
        assert(s.front[r].len() == n);
        assert(s.right[r].len() == n);
        assert(s.back[r].len() == n);
        assert(rows[n + r] == net_row(s, n + r));
    }
    assert forall|r: int| 0 <= r < n implies (#[trigger] rows[r]).len() == 2 * n by {
        assert(s.up[r].len() == n);
    }
    assert forall|r: int| n <= r < 2 * n implies (#[trigger] rows[r]).len() == 4 * n by {
        assert(s.left[r - n].len() == n);
        assert(s.front[r - n].len() == n);
        assert(s.right[r - n].len() == n);
        assert(s.back[r - n].len() == n);
    }
    assert forall|r: int| 2 * n <= r < 3 * n implies (#[trigger] rows[r]).len() == 2 * n by {
        assert(s.down[r - 2 * n].len() == n);
    }
}

/// Appends `n` blank cells to `out`.
fn push_blanks(out: &mut Vec<Option<CubieFace>>, n: usize)
    ensures
        final(out)@ == old(out)@ + blanks(n as nat),
{
    let mut i: usize = 0;
    while i < n
        invariant
            i <= n,
            out@ == old(out)@ + blanks(i as nat),
        decreases n - i,
    {
        out.push(None);
        i = i + 1;
        proof {
            assert(out@ =~= old(out)@ + blanks(i as nat));
        }
    }
}

/// Appends the cubies of row `y` of `side` to `out`.
fn push_row(out: &mut Vec<Option<CubieFace>>, side: &FlatSide, y: usize)
    requires
        side.wf(),
        y < side.spec_side_length(),
    ensures
        final(out)@ == old(out)@ + cells(side@[y as int]),
{
    let row = side.row(y).unwrap();
    let mut i: usize = 0;
    while i < row.len()
        invariant
            i <= row@.len(),
            row@ == side@[y as int],
            out@ == old(out)@ + cells(row@.take(i as int)),
        decreases row.len() - i,
    {
        out.push(Some(row[i]));
        i = i + 1;
        proof {
            assert(out@ =~= old(out)@ + cells(row@.take(i as int)));
        }
    }
    proof {
        assert(row@.take(i as int) =~= row@);
    }
}

impl Cube {
    /// The cells of the cube's net, row by row, as the cube is printed: a blank cell where no
    /// cubie is shown.
    pub fn net_layout(&self) -> (rows: Vec<Vec<Option<CubieFace>>>)
        requires
            self.valid(),
        ensures
            rows.len() == 3 * self.state().n,
            forall|r: int| 0 <= r < rows.len() ==> #[trigger] rows[r]@ == net_row(self.state(), r),
            shows_net(rows@.map_values(|row: Vec<Option<CubieFace>>| row@), self.state()),
    {
        let n = self.side_length();
        proof {
            self.lemma_valid_state();
        }
        let up = self.side(Face::Up);
        let down = self.side(Face::Down);
        let front = self.side(Face::Front);
        let right = self.side(Face::Right);
        let back = self.side(Face::Back);
        let left = self.side(Face::Left);
        let ghost s = self.state();
        let mut rows: Vec<Vec<Option<CubieFace>>> = Vec::new();
        let mut r: usize = 0;
        while r < n
            invariant
                n == s.n,
                r <= n,
                up.wf() && up.spec_side_length() == n && up@ == s.up,
                rows.len() == r,
                forall|k: int| 0 <= k < r ==> #[trigger] rows[k]@ == net_row(s, k),
            decreases n - r,
        {
            let mut row: Vec<Option<CubieFace>> = Vec::new();
            push_blanks(&mut row, n);
            push_row(&mut row, up, r);
            rows.push(row);
            r = r + 1;
        }
        let mut r: usize = 0;
        while r < n
            invariant
                n == s.n,
                r <= n,
                left.wf() && left.spec_side_length() == n && left@ == s.left,
                front.wf() && front.spec_side_length() == n && front@ == s.front,
                right.wf() && right.spec_side_length() == n && right@ == s.right,
                back.wf() && back.spec_side_length() == n && back@ == s.back,
                rows.len() == n + r,
                forall|k: int| 0 <= k < n + r ==> #[trigger] rows[k]@ == net_row(s, k),
            decreases n - r,
        {
            let mut row: Vec<Option<CubieFace>> = Vec::new();
            push_row(&mut row, left, r);
            push_row(&mut row, front, r);
            push_row(&mut row, right, r);
            push_row(&mut row, back, r);
            rows.push(row);
            r = r + 1;
        }
        let mut r: usize = 0;
        while r < n
            invariant
                n == s.n,
                r <= n,
                down.wf() && down.spec_side_length() == n && down@ == s.down,
                rows.len() == 2 * n + r,
                forall|k: int| 0 <= k < 2 * n + r ==> #[trigger] rows[k]@ == net_row(s, k),
            decreases n - r,
        {
            let mut row: Vec<Option<CubieFace>> = Vec::new();
            push_blanks(&mut row, n);
            push_row(&mut row, down, r);
            rows.push(row);
            r = r + 1;
        }
        proof {
            lemma_net_rows_show_net(s);
            assert(rows@.map_values(|row: Vec<Option<CubieFace>>| row@) =~= Seq::new(
                (3 * s.n) as nat,
                |k: int| net_row(s, k),
            ));
        }
        rows
    }
}

} // verus!
