use vstd::prelude::*;
use crate::counting::{count_true, lemma_sum_congruent};
use crate::grid::{grid_count, grid_view};

verus! {

/// The character that the text rendering puts in cell `c` of row `r`: an
/// ink cell takes the next character of `text` in reading order, or a blank
/// once the text has run out; any other cell is blank.
pub open spec fn rendered_char(g: Seq<Seq<bool>>, text: Seq<char>, r: int, c: int) -> char {
    if g[r][c] {
        let k = grid_count(g.take(r)) + count_true(g[r].take(c));
        if k < text.len() {
            text[k]
        } else {
            ' '
        }
    } else {
        ' '
    }
}

/// `k`, or `n` where `k` is larger.
pub open spec fn min_len(k: int, n: int) -> int {
    if k <= n {
        k
    } else {
        n
    }
}

proof fn lemma_grid_count_push(g: Seq<Seq<bool>>, r: int)
    requires
        0 <= r < g.len(),
    ensures
        grid_count(g.take(r + 1)) == grid_count(g.take(r)) + count_true(g[r]),
{
    lemma_sum_congruent(
        |i: int| count_true(g.take(r + 1)[i]),
        |i: int| count_true(g.take(r)[i]),
        r,
    );
}

/// Lays `text` over the ink cells of `grid`, row by row: one line of
/// characters per grid row, as `rendered_char` says.
pub fn render_text_rows(grid: &Vec<Vec<bool>>, text: &Vec<char>) -> (rows: Vec<Vec<char>>)
    ensures
        rows@.len() == grid@.len(),
        forall|r: int| 0 <= r < rows@.len() ==> #[trigger] rows@[r]@.len() == grid@[r]@.len(),
        forall|r: int, c: int|
            0 <= r < rows@.len() && 0 <= c < rows@[r]@.len() ==> #[trigger] rows@[r]@[c]
                == rendered_char(grid_view(grid), text@, r, c),
{
    let ghost g = grid_view(grid);
    let mut rows: Vec<Vec<char>> = Vec::new();
    let mut next: usize = 0;
    let mut r: usize = 0;
    while r < grid.len()
        invariant
            g == grid_view(grid),
            r <= grid@.len(),
            rows@.len() == r,
            next == min_len(grid_count(g.take(r as int)), text@.len() as int),
            forall|i: int| 0 <= i < r ==> #[trigger] rows@[i]@.len() == grid@[i]@.len(),
            forall|i: int, c: int|
                0 <= i < r && 0 <= c < rows@[i]@.len() ==> #[trigger] rows@[i]@[c]
                    == rendered_char(g, text@, i, c),
        decreases grid@.len() - r,
    {
        let row = &grid[r];
        let mut line: Vec<char> = Vec::new();
        let mut c: usize = 0;
        proof {
            assert(g[r as int] == row@);
            assert(row@.take(0) =~= Seq::<bool>::empty());
        }
        while c < row.len()
            invariant
                g == grid_view(grid),
                r < grid@.len(),
                row@ == g[r as int],
                c <= row@.len(),
                line@.len() == c,
                next == min_len(
                    grid_count(g.take(r as int)) + count_true(row@.take(c as int)),
                    text@.len() as int,
                ),
                forall|k: int| 0 <= k < c ==> #[trigger] line@[k] == rendered_char(g, text@, r as int, k),
            decreases row@.len() - c,
        {
            proof {
                assert(row@.take(c + 1).drop_last() =~= row@.take(c as int));
            }
            if row[c] {
                if next < text.len() {
                    line.push(text[next]);
                    next = next + 1;
                } else {
                    line.push(' ');
                }
            } else {
                line.push(' ');
            }
            c += 1;
        }
        proof {
            assert(row@.take(row@.len() as int) =~= row@);
            lemma_grid_count_push(g, r as int);
        }
        rows.push(line);
        r += 1;
    }
    rows
}

} // verus!
