use vstd::prelude::*;
use rand::seq::SliceRandom;
use crate::counting::{count_true, sum_to, lemma_count_zero, lemma_sum_zero_parts, lemma_count_concat, lemma_count_multiset, lemma_sum_congruent, lemma_sum_swap, row_sum, col_sum};
use crate::density::{is_ink, family_total, pixel_ink};
use crate::pixels::{PixelImage, raw_spec};

verus! {

/// The rows of a grid as sequences.
pub open spec fn grid_view(g: &Vec<Vec<bool>>) -> Seq<Seq<bool>> {
    g@.map_values(|r: Vec<bool>| r@)
}

/// The `k`-th run of `n` entries of `s`.
pub open spec fn piece(s: Seq<bool>, n: int, k: int) -> Seq<bool> {
    s.subrange(k * n, k * n + n)
}

/// `g` has `height * n` rows of `width * n` cells: one `n` by `n` block for
/// each pixel of a `width` by `height` image.
pub open spec fn is_grid(g: Seq<Seq<bool>>, width: int, height: int, n: int) -> bool {
    &&& g.len() == height * n
    &&& forall|r: int| 0 <= r < g.len() ==> #[trigger] g[r].len() == width * n
}

/// Row `dy` of the block of pixel `(x, y)`.
pub open spec fn block_row(g: Seq<Seq<bool>>, n: int, x: int, y: int, dy: int) -> Seq<bool> {
    piece(g[y * n + dy], n, x)
}

/// Number of ink cells in the block of pixel `(x, y)`.
pub open spec fn block_count(g: Seq<Seq<bool>>, n: int, x: int, y: int) -> int {
    sum_to(|dy: int| count_true(block_row(g, n, x, y, dy)), n)
}

/// Number of ink cells in the whole grid.
pub open spec fn grid_count(g: Seq<Seq<bool>>) -> int {
    sum_to(|r: int| count_true(g[r]), g.len() as int)
}

/// Sum over all pixels of the ink cells in their blocks.
pub open spec fn blocks_total(g: Seq<Seq<bool>>, width: int, height: int, n: int) -> int {
    sum_to(|y: int| sum_to(|x: int| block_count(g, n, x, y), width), height)
}

/// A block without ink is blank: none of its cells is inked.
pub proof fn lemma_blank_block(g: Seq<Seq<bool>>, width: int, height: int, n: int, x: int, y: int)
    requires
        is_grid(g, width, height, n),
        0 <= x < width,
        0 <= y < height,
        block_count(g, n, x, y) == 0,
    ensures
        forall|dy: int, dx: int| 0 <= dy < n && 0 <= dx < n ==> !#[trigger] g[y * n + dy][x * n + dx],
{
    let f = |dy: int| count_true(block_row(g, n, x, y, dy));
    assert forall|dy: int| 0 <= dy < n implies #[trigger] f(dy) >= 0 by {
        lemma_count_zero(block_row(g, n, x, y, dy));
    }
    lemma_sum_zero_parts(f, n);
    assert forall|dy: int, dx: int| 0 <= dy < n && 0 <= dx < n implies !#[trigger] g[y * n + dy][x
        * n + dx] by {
        assert(0 <= y * n + dy < height * n && x * n + n <= width * n && 0 <= x * n) by (nonlinear_arith)
            requires
                0 <= y < height,
                0 <= x < width,
                0 <= dy < n,
        ;
        assert(f(dy) == 0);
        lemma_count_zero(block_row(g, n, x, y, dy));
        assert(block_row(g, n, x, y, dy)[dx] == g[y * n + dy][x * n + dx]);
    }
}

proof fn lemma_mul_le(a: int, b: int, n: int)
    requires
        0 <= a <= b,
        0 <= n,
    ensures
        a * n <= b * n,
{
    assert(a * n <= b * n) by (nonlinear_arith)
        requires
            0 <= a <= b,
            0 <= n,
    ;
}

proof fn lemma_mul_succ(a: int, n: int)
    ensures
        (a + 1) * n == a * n + n,
{
    assert((a + 1) * n == a * n + n) by (nonlinear_arith);
}

/// The first `k` runs of `n` entries of `s` together hold the ink of the
/// first `k * n` entries.
pub proof fn lemma_pieces_count(s: Seq<bool>, n: int, k: int)
    requires
        0 <= n,
        0 <= k,
        k * n <= s.len(),
    ensures
        sum_to(|i: int| count_true(piece(s, n, i)), k) == count_true(s.subrange(0, k * n)),
    decreases k,
{
    if k == 0 {
        assert(s.subrange(0, 0) =~= Seq::<bool>::empty());
    } else {
        lemma_mul_succ(k - 1, n);
        lemma_mul_le(k - 1, k, n);
        lemma_pieces_count(s, n, k - 1);
        assert(s.subrange(0, k * n) =~= s.subrange(0, (k - 1) * n) + piece(s, n, k - 1));
        lemma_count_concat(s.subrange(0, (k - 1) * n), piece(s, n, k - 1));
    }
}

/// `sum_to(f, a + k)` splits at `a`.
proof fn lemma_sum_shift(f: spec_fn(int) -> int, a: int, k: int)
    requires
        0 <= a,
        0 <= k,
    ensures
        sum_to(f, a + k) == sum_to(f, a) + sum_to(|d: int| f(a + d), k),
    decreases k,
{
    if k > 0 {
        lemma_sum_shift(f, a, k - 1);
    }
}

/// Sum of `f` over the `n` rows of band `y`.
pub open spec fn band(f: spec_fn(int) -> int, n: int, y: int) -> int {
    sum_to(|dy: int| f(y * n + dy), n)
}

/// A sum over `height * n` rows, taken band by band.
proof fn lemma_sum_bands(f: spec_fn(int) -> int, n: int, height: int)
    requires
        0 <= n,
        0 <= height,
    ensures
        sum_to(f, height * n) == sum_to(|y: int| band(f, n, y), height),
    decreases height,
{
    if height > 0 {
        lemma_sum_bands(f, n, height - 1);
        lemma_mul_succ(height - 1, n);
        assert((height - 1) * n >= 0) by (nonlinear_arith)
            requires
                height >= 1,
                n >= 0,
        ;
        lemma_sum_shift(f, (height - 1) * n, n);
        let y = height - 1;
        lemma_sum_congruent(|d: int| f(y * n + d), |dy: int| f(y * n + dy), n);
    }
}

/// No ink cell is counted twice and none is missed: the ink of the whole grid
/// is the sum of the ink in the blocks of all pixels.
pub proof fn lemma_grid_total(g: Seq<Seq<bool>>, width: int, height: int, n: int)
    requires
        0 <= width,
        0 <= height,
        1 <= n,
        is_grid(g, width, height, n),
    ensures
        grid_count(g) == blocks_total(g, width, height, n),
{
    let c = |r: int| count_true(g[r]);
    lemma_sum_bands(c, n, height);
    assert forall|y: int| 0 <= y < height implies #[trigger] band(c, n, y) == sum_to(
        |x: int| block_count(g, n, x, y),
        width,
    ) by {
        let f = |dy: int, x: int| count_true(block_row(g, n, x, y, dy));
        assert forall|dy: int| 0 <= dy < n implies #[trigger] c(y * n + dy) == row_sum(
            f,
            dy,
            width,
        ) by {
            let r = y * n + dy;
            assert(0 <= r < height * n) by (nonlinear_arith)
                requires
                    0 <= y < height,
                    0 <= dy < n,
                    r == y * n + dy,
            ;
            assert(g[r].len() == width * n);
            lemma_pieces_count(g[r], n, width);
            assert(g[r].subrange(0, width * n) =~= g[r]);
            lemma_sum_congruent(
                |i: int| count_true(piece(g[r], n, i)),
                |x: int| f(dy, x),
                width,
            );
        }
        lemma_sum_congruent(|dy: int| c(y * n + dy), |dy: int| row_sum(f, dy, width), n);
        lemma_sum_swap(f, n, width);
        assert forall|x: int| 0 <= x < width implies #[trigger] col_sum(f, x, n) == block_count(
            g,
            n,
            x,
            y,
        ) by {
            lemma_sum_congruent(
                |dy: int| f(dy, x),
                |dy: int| count_true(block_row(g, n, x, y, dy)),
                n,
            );
        }
        lemma_sum_congruent(
            |x: int| col_sum(f, x, n),
            |x: int| block_count(g, n, x, y),
            width,
        );
    }
    lemma_sum_congruent(
        |y: int| band(c, n, y),
        |y: int| sum_to(|x: int| block_count(g, n, x, y), width),
        height,
    );
}

/// Relies on rand's `SliceRandom::shuffle` with the thread-local generator:
/// it only swaps entries, so the result is a permutation of the input.
#[verifier::external_body]
fn shuffle_cells(cells: &mut Vec<bool>)
    ensures
        final(cells)@.to_multiset() == old(cells)@.to_multiset(),
{
    cells.shuffle(&mut rand::thread_rng());
}

/// The cells of one block, in a uniformly random order: `area` cells of which
/// exactly `ink` are inked.
pub fn dither_block(ink: u32, area: u32) -> (cells: Vec<bool>)
    requires
        ink <= area,
    ensures
        cells@.len() == area,
        count_true(cells@) == ink,
{
    let mut cells: Vec<bool> = Vec::new();
    let mut i: u32 = 0;
    while i < area
        invariant
            i <= area,
            ink <= area,
            cells@.len() == i,
            count_true(cells@) == if i <= ink { i } else { ink },
        decreases area - i,
    {
        let ghost before = cells@;
        cells.push(i < ink);
        assert(cells@.drop_last() =~= before);
        i += 1;
    }
    proof {
        broadcast use vstd::seq_lib::group_to_multiset_ensures;
        lemma_count_multiset(cells@);
    }
    let ghost ordered = cells@;
    shuffle_cells(&mut cells);
    proof {
        broadcast use vstd::seq_lib::group_to_multiset_ensures;
        lemma_count_multiset(cells@);
        assert(cells@.len() == cells@.to_multiset().len());
        assert(ordered.len() == ordered.to_multiset().len());
    }
    cells
}

proof fn lemma_index_in_band(y: int, dy: int, y2: int, n: int)
    requires
        0 <= y < y2,
        0 <= dy < n,
    ensures
        0 <= y * n + dy < y2 * n,
        y * n + n <= y2 * n,
{
    assert(0 <= y * n + dy < y2 * n && y * n + n <= y2 * n) by (nonlinear_arith)
        requires
            0 <= y < y2,
            0 <= dy < n,
    ;
}

/// Lays the blocks out in a grid: block `y * width + x` covers the cells of
/// pixel `(x, y)`, its entry `dy * n + dx` the cell at row `y * n + dy` and
/// column `x * n + dx`.
pub fn assemble_grid(blocks: &Vec<Vec<bool>>, width: u32, height: u32, grid_size: u32) -> (grid:
    Vec<Vec<bool>>)
    requires
        blocks@.len() == width as int * height as int,
        forall|p: int|
            0 <= p < blocks@.len() ==> #[trigger] blocks@[p]@.len() == grid_size as int
                * grid_size as int,
        width as int * grid_size as int <= u32::MAX,
        height as int * grid_size as int <= u32::MAX,
    ensures
        is_grid(grid_view(&grid), width as int, height as int, grid_size as int),
        forall|x: int, y: int, dy: int|
            0 <= x < width && 0 <= y < height && 0 <= dy < grid_size ==> #[trigger] block_row(
                grid_view(&grid),
                grid_size as int,
                x,
                y,
                dy,
            ) == piece(blocks@[y * width + x]@, grid_size as int, dy),
{
    let w = width as usize;
    let h = height as usize;
    let n = grid_size as usize;
    let ghost wi = width as int;
    let ghost ni = grid_size as int;
    let mut grid: Vec<Vec<bool>> = Vec::new();
    let mut y: usize = 0;
    while y < h
        invariant
            w == width,
            h == height,
            n == grid_size,
            wi == width,
            ni == grid_size,
            y <= h,
            blocks@.len() == width as int * height as int,
            forall|p: int| 0 <= p < blocks@.len() ==> #[trigger] blocks@[p]@.len() == ni * ni,
            wi * ni <= u32::MAX,
            height as int * ni <= u32::MAX,
            grid@.len() == y * ni,
            forall|r: int| 0 <= r < grid@.len() ==> #[trigger] grid@[r]@.len() == wi * ni,
            forall|x: int, y2: int, dy: int|
                0 <= x < wi && 0 <= y2 < y && 0 <= dy < ni ==> #[trigger] block_row(
                    grid_view(&grid),
                    ni,
                    x,
                    y2,
                    dy,
                ) == piece(blocks@[y2 * wi + x]@, ni, dy),
        decreases h - y,
    {
        let mut dy: usize = 0;
        while dy < n
            invariant
                w == width,
                h == height,
                n == grid_size,
                wi == width,
                ni == grid_size,
                y < h,
                dy <= n,
                blocks@.len() == width as int * height as int,
                forall|p: int| 0 <= p < blocks@.len() ==> #[trigger] blocks@[p]@.len() == ni * ni,
                wi * ni <= u32::MAX,
                height as int * ni <= u32::MAX,
                grid@.len() == y * ni + dy,
                forall|r: int| 0 <= r < grid@.len() ==> #[trigger] grid@[r]@.len() == wi * ni,
                forall|x: int, y2: int, dy2: int|
                    0 <= x < wi && 0 <= y2 < y && 0 <= dy2 < ni ==> #[trigger] block_row(
                        grid_view(&grid),
                        ni,
                        x,
                        y2,
                        dy2,
                    ) == piece(blocks@[y2 * wi + x]@, ni, dy2),
                forall|x: int, dy2: int|
                    0 <= x < wi && 0 <= dy2 < dy ==> #[trigger] block_row(
                        grid_view(&grid),
                        ni,
                        x,
                        y as int,
                        dy2,
                    ) == piece(blocks@[y * wi + x]@, ni, dy2),
            decreases n - dy,
        {
            let mut row: Vec<bool> = Vec::new();
            let mut x: usize = 0;
            while x < w
                invariant
                    w == width,
                    h == height,
                    n == grid_size,
                    wi == width,
                    ni == grid_size,
                    y < h,
                    dy < n,
                    x <= w,
                    blocks@.len() == width as int * height as int,
                    forall|p: int|
                        0 <= p < blocks@.len() ==> #[trigger] blocks@[p]@.len() == ni * ni,
                    wi * ni <= u32::MAX,
                    row@.len() == x * ni,
                    forall|x2: int|
                        0 <= x2 < x ==> #[trigger] piece(row@, ni, x2) == piece(
                            blocks@[y * wi + x2]@,
                            ni,
                            dy as int,
                        ),
                decreases w - x,
            {
                proof {
                    assert(0 <= y * wi + x < wi * height) by (nonlinear_arith)
                        requires
                            0 <= y < height,
                            0 <= x < wi,
                    ;
                    assert(x * ni + ni <= wi * ni) by (nonlinear_arith)
                        requires
                            0 <= x < wi,
                            0 <= ni,
                    ;
                }
                let nb = blocks.len();
                assert(y * wi + x < nb);
                let p = y * w + x;
                let block = &blocks[p];
                let bl = block.len();
                let mut dx: usize = 0;
                while dx < n
                    invariant
                        n == grid_size,
                        wi == width,
                        ni == grid_size,
                        dy < n,
                        dx <= n,
                        x < wi,
                        block@.len() == ni * ni,
                        bl == block@.len(),
                        block@ == blocks@[y * wi + x]@,
                        x * ni + ni <= wi * ni,
                        wi * ni <= u32::MAX,
                        row@.len() == x * ni + dx,
                        row@.subrange(x * ni, x * ni + dx) == piece(block@, ni, dy as int).subrange(
                            0,
                            dx as int,
                        ),
                        forall|x2: int|
                            0 <= x2 < x ==> #[trigger] piece(row@, ni, x2) == piece(
                                blocks@[y * wi + x2]@,
                                ni,
                                dy as int,
                            ),
                    decreases n - dx,
                {
                    proof {
                        assert(dy * ni + dx < ni * ni) by (nonlinear_arith)
                            requires
                                0 <= dy < ni,
                                0 <= dx < ni,
                        ;
                        assert(dy * ni + ni <= ni * ni) by (nonlinear_arith)
                            requires
                                0 <= dy < ni,
                        ;
                    }
                    let ghost before = row@;
                    assert(dy * ni + dx < bl);
                    row.push(block[dy * n + dx]);
                    proof {
                        assert(row@.subrange(x * ni, x * ni + dx + 1) =~= piece(
                            block@,
                            ni,
                            dy as int,
                        ).subrange(0, dx + 1)) by {
                            assert(before.subrange(x * ni, x * ni + dx) =~= piece(
                                block@,
                                ni,
                                dy as int,
                            ).subrange(0, dx as int));
                        }
                        assert forall|x2: int| 0 <= x2 < x implies #[trigger] piece(row@, ni, x2)
                            == piece(blocks@[y * wi + x2]@, ni, dy as int) by {
                            assert(x2 * ni + ni <= x * ni) by (nonlinear_arith)
                                requires
                                    0 <= x2 < x,
                                    0 <= ni,
                            ;
                            assert(x2 * ni >= 0) by (nonlinear_arith)
                                requires
                                    0 <= x2,
                                    0 <= ni,
                            ;
                            assert(piece(row@, ni, x2) =~= piece(before, ni, x2));
                        }
                    }
                    dx += 1;
                }
                proof {
                    assert(dy * ni + ni <= ni * ni) by (nonlinear_arith)
                        requires
                            0 <= dy < ni,
                    ;
                    assert(dy * ni >= 0) by (nonlinear_arith)
                        requires
                            0 <= dy,
                            0 <= ni,
                    ;
                    assert(piece(block@, ni, dy as int).subrange(0, ni) =~= piece(
                        block@,
                        ni,
                        dy as int,
                    ));
                    assert(row@.subrange(x * ni, x * ni + ni) =~= piece(block@, ni, dy as int));
                    assert((x + 1) * ni == x * ni + ni) by (nonlinear_arith);
                }
                x += 1;
            }
            let ghost old_grid = grid_view(&grid);
            proof {
                assert((y as int) * ni + dy < height as int * ni) by (nonlinear_arith)
                    requires
                        0 <= y < height,
                        0 <= dy < ni,
                ;
            }
            grid.push(row);
            proof {
                let gv = grid_view(&grid);
                assert(gv.len() == old_grid.len() + 1);
                assert forall|k: int| 0 <= k < old_grid.len() implies gv[k] == old_grid[k] by {}
                assert(gv[y * ni + dy] == row@);
                assert forall|x2: int, y2: int, dy2: int|
                    0 <= x2 < wi && 0 <= y2 < y && 0 <= dy2 < ni implies #[trigger] block_row(
                    gv,
                    ni,
                    x2,
                    y2,
                    dy2,
                ) == piece(blocks@[y2 * wi + x2]@, ni, dy2) by {
                    lemma_index_in_band(y2, dy2, y as int, ni);
                    assert(block_row(old_grid, ni, x2, y2, dy2) == piece(
                        blocks@[y2 * wi + x2]@,
                        ni,
                        dy2,
                    ));
                }
                assert forall|x2: int, dy2: int|
                    0 <= x2 < wi && 0 <= dy2 <= dy implies #[trigger] block_row(
                    gv,
                    ni,
                    x2,
                    y as int,
                    dy2,
                ) == piece(blocks@[y * wi + x2]@, ni, dy2) by {
                    if dy2 < dy {
                        assert(block_row(old_grid, ni, x2, y as int, dy2) == piece(
                            blocks@[y * wi + x2]@,
                            ni,
                            dy2,
                        ));
                    } else {
                        assert(piece(row@, ni, x2) == piece(blocks@[y * wi + x2]@, ni, dy as int));
                    }
                }
            }
            dy += 1;
        }
        proof {
            assert((y + 1) * ni == y * ni + ni) by (nonlinear_arith);
        }
        y += 1;
    }
    grid
}

/// The halftone grid of `image`: each pixel becomes a `grid_size` by
/// `grid_size` block in which as many cells as the density mapper gives for
/// the pixel (curve of `family` at `gamma`) are inked, in a random pattern.
pub fn create_picture_grid<G: Fn(u32, u32, u32, u32) -> u32>(
    image: &PixelImage,
    grid_size: u32,
    gamma: u32,
    family: &G,
) -> (grid: Vec<Vec<bool>>)
    requires
        image.wf(),
        grid_size >= 1,
        gamma > 0,
        grid_size as int * grid_size as int <= u32::MAX,
        image.width as int * grid_size as int <= u32::MAX,
        image.height as int * grid_size as int <= u32::MAX,
        family_total(*family),
    ensures
        is_grid(grid_view(&grid), image.width as int, image.height as int, grid_size as int),
        forall|x: int, y: int|
            0 <= x < image.width && 0 <= y < image.height ==> is_ink(
                *family,
                gamma,
                raw_spec(image.pixels@[y * image.width + x]),
                (grid_size * grid_size) as u32,
                #[trigger] block_count(grid_view(&grid), grid_size as int, x, y),
            ) && block_count(grid_view(&grid), grid_size as int, x, y) <= grid_size * grid_size,
        grid_count(grid_view(&grid)) == blocks_total(
            grid_view(&grid),
            image.width as int,
            image.height as int,
            grid_size as int,
        ),
{
    let area = grid_size * grid_size;
    let mut blocks: Vec<Vec<bool>> = Vec::new();
    let mut p: usize = 0;
    while p < image.pixels.len()
        invariant
            p <= image.pixels@.len(),
            blocks@.len() == p,
            area == grid_size * grid_size,
            family_total(*family),
            forall|q: int|
                0 <= q < p ==> #[trigger] blocks@[q]@.len() == area && is_ink(
                    *family,
                    gamma,
                    raw_spec(image.pixels@[q]),
                    area,
                    count_true(blocks@[q]@),
                ),
        decreases image.pixels@.len() - p,
    {
        let raw = image.pixels[p].raw();
        let ink = pixel_ink(family, gamma, raw, area);
        let cells = dither_block(ink, area);
        blocks.push(cells);
        p += 1;
    }
    let grid = assemble_grid(&blocks, image.width, image.height, grid_size);
    proof {
        let gv = grid_view(&grid);
        let n = grid_size as int;
        let w = image.width as int;
        assert forall|x: int, y: int|
            0 <= x < image.width && 0 <= y < image.height implies is_ink(
            *family,
            gamma,
            raw_spec(image.pixels@[y * image.width + x]),
            area,
            #[trigger] block_count(gv, n, x, y),
        ) by {
            assert(0 <= y * w + x < w * image.height) by (nonlinear_arith)
                requires
                    0 <= y < image.height,
                    0 <= x < w,
            ;
            let b = blocks@[y * w + x]@;
            lemma_pieces_count(b, n, n);
            assert(b.subrange(0, n * n) =~= b);
            lemma_sum_congruent(
                |dy: int| count_true(block_row(gv, n, x, y, dy)),
                |i: int| count_true(piece(b, n, i)),
                n,
            );
        }
        lemma_grid_total(gv, w, image.height as int, n);
    }
    grid
}

} // verus!
