//! The gamma search: a bisection over gammas in fixed point, each probe a
//! count-only scan of the image.

use vstd::prelude::*;
use crate::counting::{seq_sum, lemma_seq_sum_const};
use crate::density::{is_ink, family_total, pixel_ink, clamp_spec};
use crate::pixels::{Pixel, PixelImage, raw_spec, MAX_RAW};

verus! {

/// Gammas are fixed-point numbers with 24 fractional bits: `GAMMA_ONE`
/// stands for 1.
pub const GAMMA_ONE: u32 = 16777216;

/// The upper end of the gamma search, 100.
pub const GAMMA_MAX: u32 = 100 * GAMMA_ONE;

/// A gamma and the ink count that a scan of the image gave with it.
#[derive(Clone, Copy, Debug, PartialEq, Eq)]
pub struct GammaFit {
    pub gamma: u32,
    pub ink: u64,
}

/// No gamma in the search range gives the image enough ink.
#[derive(Clone, Copy, Debug, PartialEq, Eq)]
pub struct NoSolution;

/// `total` is an ink count that a scan of `image` can give at `gamma`: the sum
/// over its pixels of ink counts that the density mapper gives for them.
pub open spec fn is_scan_total<G: Fn(u32, u32, u32, u32) -> u32>(
    family: G,
    image: PixelImage,
    grid_size: u32,
    gamma: u32,
    total: int,
) -> bool {
    exists|inks: Seq<int>|
        inks.len() == image.pixels@.len() && (forall|i: int|
            0 <= i < inks.len() ==> #[trigger] is_ink(
                family,
                gamma,
                raw_spec(image.pixels@[i]),
                (grid_size * grid_size) as u32,
                inks[i],
            )) && total == seq_sum(inks)
}

/// The total ink count of `image` at `gamma`, without building the grid.
pub fn count_ink<G: Fn(u32, u32, u32, u32) -> u32>(
    image: &PixelImage,
    grid_size: u32,
    gamma: u32,
    family: &G,
) -> (total: u64)
    requires
        grid_size as int * grid_size as int <= u32::MAX,
        image.pixels@.len() * (grid_size as int * grid_size as int) <= u64::MAX,
        family_total(*family),
    ensures
        is_scan_total(*family, *image, grid_size, gamma, total as int),
{
    let area = grid_size * grid_size;
    let mut total: u64 = 0;
    let ghost mut inks: Seq<int> = Seq::empty();
    let mut p: usize = 0;
    while p < image.pixels.len()
        invariant
            p <= image.pixels@.len(),
            area == grid_size * grid_size,
            image.pixels@.len() * (area as int) <= u64::MAX,
            family_total(*family),
            inks.len() == p,
            forall|i: int|
                0 <= i < p ==> #[trigger] is_ink(
                    *family,
                    gamma,
                    raw_spec(image.pixels@[i]),
                    area,
                    inks[i],
                ),
            total == seq_sum(inks),
            total <= p * area,
        decreases image.pixels@.len() - p,
    {
        let raw = image.pixels[p].raw();
        let ink = pixel_ink(family, gamma, raw, area);
        proof {
            assert((p + 1) * area == p * area + area) by (nonlinear_arith);
            assert((p + 1) * area <= image.pixels@.len() * area) by (nonlinear_arith)
                requires
                    p + 1 <= image.pixels@.len(),
                    0 <= area,
            ;
            let old_inks = inks;
            inks = inks.push(ink as int);
            assert(inks.drop_last() =~= old_inks);
        }
        total = total + ink as u64;
        p += 1;
    }
    proof {
        assert(inks.len() == image.pixels@.len());
    }
    total
}

/// What the gamma search promises for `target` on `image`:
/// - a fit is a gamma strictly inside the search range with which a scan gave
///   at least `target` ink cells;
/// - no solution comes only after the scan at gamma 1 gave fewer than `target`,
///   and so did the scan at the smallest positive gamma;
/// - when every scan at gamma 1 gives exactly `target`, the answer is gamma 1
///   with that count, found by the first scan;
/// - a fit over the target is the closest the bisection can come: the next
///   gamma above it gave fewer than `target`, or lies at the top of the range.
pub open spec fn search_outcome<G: Fn(u32, u32, u32, u32) -> u32>(
    family: G,
    image: PixelImage,
    grid_size: u32,
    target: u64,
    r: Result<GammaFit, NoSolution>,
) -> bool {
    &&& r matches Ok(fit) ==> {
        &&& fit.ink >= target
        &&& 0 < fit.gamma < GAMMA_MAX
        &&& is_scan_total(family, image, grid_size, fit.gamma, fit.ink as int)
    }
    &&& r is Err ==> exists|t: int|
        t < target && #[trigger] is_scan_total(family, image, grid_size, GAMMA_ONE, t)
    &&& r is Err ==> exists|t: int|
        t < target && #[trigger] is_scan_total(family, image, grid_size, 1, t)
    &&& r matches Ok(fit) ==> (fit.ink != target ==> fit.gamma + 1 == GAMMA_MAX || exists|t: int|
        t < target && #[trigger] is_scan_total(
            family,
            image,
            grid_size,
            (fit.gamma + 1) as u32,
            t,
        ))
    &&& (forall|t: int|
        #[trigger] is_scan_total(family, image, grid_size, GAMMA_ONE, t) ==> t == target) ==> r
        == Ok::<GammaFit, NoSolution>(GammaFit { gamma: GAMMA_ONE, ink: target })
}

/// Searches by bisection for the gamma whose ink count is closest to `target`
/// without falling short of it. The search starts at gamma 1 between the
/// bounds 0 and 100; a scan over the target raises the lower bound and is kept
/// as the best fit so far, one under it lowers the upper bound, an exact hit
/// ends the search. It stops when the midpoint of the bounds meets one of them.
pub fn find_distribution<G: Fn(u32, u32, u32, u32) -> u32>(
    image: &PixelImage,
    grid_size: u32,
    target: u64,
    family: &G,
) -> (r: Result<GammaFit, NoSolution>)
    requires
        grid_size as int * grid_size as int <= u32::MAX,
        image.pixels@.len() * (grid_size as int * grid_size as int) <= u64::MAX,
        family_total(*family),
    ensures
        search_outcome(*family, *image, grid_size, target, r),
{
    let mut low: u32 = 0;
    let mut high: u32 = GAMMA_MAX;
    let mut gamma: u32 = GAMMA_ONE;
    let mut last_over: Option<GammaFit> = None;
    let ghost mut probed = false;
    let ghost mut first_total: int = 0;
    let ghost mut last_under: int = 0;
    while gamma != low && gamma != high
        invariant
            grid_size as int * grid_size as int <= u32::MAX,
            image.pixels@.len() * (grid_size as int * grid_size as int) <= u64::MAX,
            family_total(*family),
            low <= gamma <= high <= GAMMA_MAX,
            !probed ==> gamma == GAMMA_ONE && low == 0 && high == GAMMA_MAX && last_over is None,
            probed ==> is_scan_total(*family, *image, grid_size, GAMMA_ONE, first_total)
                && first_total != target,
            probed && last_over is None ==> first_total < target,
            probed ==> gamma == (low + high) / 2,
            high >= 1,
            low < high,
            last_over is None ==> low == 0,
            last_over matches Some(fit) ==> fit.gamma == low,
            high < GAMMA_MAX ==> last_under < target && is_scan_total(
                *family,
                *image,
                grid_size,
                high,
                last_under,
            ),
            last_over matches Some(fit) ==> {
                &&& fit.ink >= target
                &&& 0 < fit.gamma < GAMMA_MAX
                &&& is_scan_total(*family, *image, grid_size, fit.gamma, fit.ink as int)
            },
        decreases high - low,
    {
        let total = count_ink(image, grid_size, gamma, family);
        if total == target {
            let fit = GammaFit { gamma, ink: total };
            proof {
                if !probed {
                    assert(is_scan_total(*family, *image, grid_size, GAMMA_ONE, total as int));
                }
            }
            return Ok(fit);
        }
        proof {
            if !probed {
                first_total = total as int;
                probed = true;
            }
        }
        if total > target {
            last_over = Some(GammaFit { gamma, ink: total });
            low = gamma;
        } else {
            proof {
                last_under = total as int;
            }
            high = gamma;
        }
        gamma = (low + high) / 2;
    }
    proof {
        assert(probed);
        assert(high == low + 1);
    }
    match last_over {
        Some(fit) => {
            proof {
                if high < GAMMA_MAX {
                    assert(((fit.gamma + 1) as u32) == high);
                    assert(is_scan_total(
                        *family,
                        *image,
                        grid_size,
                        (fit.gamma + 1) as u32,
                        last_under,
                    ));
                }
            }
            Ok(fit)
        },
        None => Err(NoSolution),
    }
}

/// Every scan of an image whose pixels all ask for the same ink count `ink`
/// adds up to `ink` per pixel.
proof fn lemma_uniform_scan<G: Fn(u32, u32, u32, u32) -> u32>(
    family: G,
    image: PixelImage,
    grid_size: u32,
    gamma: u32,
    total: int,
    ink: int,
)
    requires
        is_scan_total(family, image, grid_size, gamma, total),
        forall|i: int, r: int|
            0 <= i < image.pixels@.len() && #[trigger] is_ink(
                family,
                gamma,
                raw_spec(image.pixels@[i]),
                (grid_size * grid_size) as u32,
                r,
            ) ==> r == ink,
    ensures
        total == image.pixels@.len() * ink,
{
    let inks = choose|inks: Seq<int>|
        inks.len() == image.pixels@.len() && (forall|i: int|
            0 <= i < inks.len() ==> #[trigger] is_ink(
                family,
                gamma,
                raw_spec(image.pixels@[i]),
                (grid_size * grid_size) as u32,
                inks[i],
            )) && total == seq_sum(inks);
    assert forall|i: int| 0 <= i < inks.len() implies #[trigger] inks[i] == ink by {
        assert(is_ink(
            family,
            gamma,
            raw_spec(image.pixels@[i]),
            (grid_size * grid_size) as u32,
            inks[i],
        ));
    }
    lemma_seq_sum_const(inks, ink);
}

/// For an image with no darkness anywhere, and a curve that sends 0 to 0 at
/// every positive gamma, no gamma gives any ink: the search finds no solution
/// for a positive target, and answers gamma 1 with no ink for a target of 0.
pub proof fn lemma_white_image<G: Fn(u32, u32, u32, u32) -> u32>(
    family: G,
    image: PixelImage,
    grid_size: u32,
    target: u64,
    r: Result<GammaFit, NoSolution>,
)
    requires
        forall|i: int| 0 <= i < image.pixels@.len() ==> (#[trigger] image.pixels@[i]).darkness == 0,
        forall|g: u32, l: u32|
            g > 0 && #[trigger] call_ensures(family, (g, 0u32, MAX_RAW, (grid_size * grid_size) as u32), l)
                ==> l == 0,
        search_outcome(family, image, grid_size, target, r),
    ensures
        target > 0 ==> r is Err,
        target == 0 ==> r == Ok::<GammaFit, NoSolution>(GammaFit { gamma: GAMMA_ONE, ink: 0 }),
{
    let area = (grid_size * grid_size) as u32;
    assert forall|g: u32, t: int| g > 0 && #[trigger] is_scan_total(family, image, grid_size, g, t)
        implies t == 0 by {
        assert forall|i: int, k: int|
            0 <= i < image.pixels@.len() && #[trigger] is_ink(
                family,
                g,
                raw_spec(image.pixels@[i]),
                area,
                k,
            ) implies k == 0 by {
            assert(raw_spec(image.pixels@[i]) == 0);
            let level = choose|level: u32|
                call_ensures(family, (g, 0u32, MAX_RAW, area), level) && k == clamp_spec(
                    level,
                    area,
                );
        }
        lemma_uniform_scan(family, image, grid_size, g, t, 0);
    }
    if target == 0 {
        assert forall|t: int| #[trigger] is_scan_total(family, image, grid_size, GAMMA_ONE, t)
            implies t == target by {}
    }
}

/// For an image that is black and opaque everywhere, and a curve that sends
/// the full raw value to a full block at every gamma, the search succeeds for
/// every target up to the number of cells in the grid, with at least the
/// target's ink.
pub proof fn lemma_black_image<G: Fn(u32, u32, u32, u32) -> u32>(
    family: G,
    image: PixelImage,
    grid_size: u32,
    target: u64,
    r: Result<GammaFit, NoSolution>,
)
    requires
        forall|i: int|
            0 <= i < image.pixels@.len() ==> #[trigger] image.pixels@[i] == (Pixel {
                darkness: 255,
                alpha: 255,
            }),
        forall|g: u32, l: u32|
            #[trigger] call_ensures(family, (g, MAX_RAW, MAX_RAW, (grid_size * grid_size) as u32), l) ==> l
                >= (grid_size * grid_size) as u32,
        target <= image.pixels@.len() * (grid_size as int * grid_size as int),
        grid_size as int * grid_size as int <= u32::MAX,
        search_outcome(family, image, grid_size, target, r),
    ensures
        r matches Ok(fit) && fit.ink >= target,
{
    let area = (grid_size * grid_size) as u32;
    assert(area == grid_size as int * grid_size as int);
    if r is Err {
        let t = choose|t: int|
            t < target && #[trigger] is_scan_total(family, image, grid_size, GAMMA_ONE, t);
        assert forall|i: int, k: int|
            0 <= i < image.pixels@.len() && #[trigger] is_ink(
                family,
                GAMMA_ONE,
                raw_spec(image.pixels@[i]),
                area,
                k,
            ) implies k == area by {
            assert(raw_spec(image.pixels@[i]) == MAX_RAW);
            let level = choose|level: u32|
                call_ensures(family, (GAMMA_ONE, MAX_RAW, MAX_RAW, area), level) && k
                    == clamp_spec(level, area);
        }
        lemma_uniform_scan(family, image, grid_size, GAMMA_ONE, t, area as int);
    }
}

/// A smaller gamma never gives a pixel less ink: the curves of `family` fall
/// as the gamma grows.
pub open spec fn family_monotone<G: Fn(u32, u32, u32, u32) -> u32>(family: G, area: u32) -> bool {
    forall|g1: u32, g2: u32, v: u32, l1: u32, l2: u32|
        g1 <= g2 && #[trigger] call_ensures(family, (g1, v, MAX_RAW, area), l1)
            && #[trigger] call_ensures(family, (g2, v, MAX_RAW, area), l2) ==> l2 <= l1
}

proof fn lemma_seq_sum_le(a: Seq<int>, b: Seq<int>)
    requires
        a.len() == b.len(),
        forall|i: int| 0 <= i < a.len() ==> #[trigger] a[i] <= b[i],
    ensures
        seq_sum(a) <= seq_sum(b),
    decreases a.len(),
{
    if a.len() > 0 {
        lemma_seq_sum_le(a.drop_last(), b.drop_last());
    }
}

/// With a monotone family, a scan at a smaller gamma gives at least as much ink.
pub proof fn lemma_scan_monotone<G: Fn(u32, u32, u32, u32) -> u32>(
    family: G,
    image: PixelImage,
    grid_size: u32,
    g1: u32,
    g2: u32,
    t1: int,
    t2: int,
)
    requires
        family_monotone(family, (grid_size * grid_size) as u32),
        g1 <= g2,
        is_scan_total(family, image, grid_size, g1, t1),
        is_scan_total(family, image, grid_size, g2, t2),
    ensures
        t2 <= t1,
{
    let area = (grid_size * grid_size) as u32;
    let a = choose|inks: Seq<int>|
        inks.len() == image.pixels@.len() && (forall|i: int|
            0 <= i < inks.len() ==> #[trigger] is_ink(
                family,
                g1,
                raw_spec(image.pixels@[i]),
                area,
                inks[i],
            )) && t1 == seq_sum(inks);
    let b = choose|inks: Seq<int>|
        inks.len() == image.pixels@.len() && (forall|i: int|
            0 <= i < inks.len() ==> #[trigger] is_ink(
                family,
                g2,
                raw_spec(image.pixels@[i]),
                area,
                inks[i],
            )) && t2 == seq_sum(inks);
    assert forall|i: int| 0 <= i < b.len() implies #[trigger] b[i] <= a[i] by {
        let v = raw_spec(image.pixels@[i]);
        assert(is_ink(family, g1, v, area, a[i]));
        assert(is_ink(family, g2, v, area, b[i]));
        let l1 = choose|l: u32|
            call_ensures(family, (g1, v, MAX_RAW, area), l) && a[i] == clamp_spec(l, area);
        let l2 = choose|l: u32|
            call_ensures(family, (g2, v, MAX_RAW, area), l) && b[i] == clamp_spec(l, area);
    }
    lemma_seq_sum_le(b, a);
}

/// With a monotone family, the search fails only when no gamma in its range
/// reaches the target: whenever a scan at some positive gamma gives at least
/// `target` ink cells, the search finds a fit, which is never short of the
/// target.
pub proof fn lemma_search_complete<G: Fn(u32, u32, u32, u32) -> u32>(
    family: G,
    image: PixelImage,
    grid_size: u32,
    target: u64,
    gamma: u32,
    total: int,
    r: Result<GammaFit, NoSolution>,
)
    requires
        family_monotone(family, (grid_size * grid_size) as u32),
        gamma >= 1,
        is_scan_total(family, image, grid_size, gamma, total),
        total >= target,
        search_outcome(family, image, grid_size, target, r),
    ensures
        r matches Ok(fit) && fit.ink >= target,
{
    if r is Err {
        let t = choose|t: int| t < target && #[trigger] is_scan_total(family, image, grid_size, 1, t);
        lemma_scan_monotone(family, image, grid_size, 1, gamma, t, total);
    }
}

/// With a monotone family, a fit is the closest count to the target that is
/// not short of it: no gamma inside the search range gives a count from
/// `target` up to but below the fit's.
pub proof fn lemma_search_closest<G: Fn(u32, u32, u32, u32) -> u32>(
    family: G,
    image: PixelImage,
    grid_size: u32,
    target: u64,
    r: Result<GammaFit, NoSolution>,
    gamma: u32,
    total: int,
)
    requires
        family_monotone(family, (grid_size * grid_size) as u32),
        search_outcome(family, image, grid_size, target, r),
        r is Ok,
        1 <= gamma < GAMMA_MAX,
        is_scan_total(family, image, grid_size, gamma, total),
        total >= target,
    ensures
        r matches Ok(fit) && total >= fit.ink,
{
    let fit = r->Ok_0;
    if fit.ink != target {
        if gamma <= fit.gamma {
            lemma_scan_monotone(family, image, grid_size, gamma, fit.gamma, total, fit.ink as int);
        } else {
            let next = (fit.gamma + 1) as u32;
            let t = choose|t: int|
                t < target && #[trigger] is_scan_total(family, image, grid_size, next, t);
            lemma_scan_monotone(family, image, grid_size, next, gamma, t, total);
        }
    }
}

/// With a monotone family, a longer text never gets a smaller ink budget: of
/// the fits for two targets, the larger target's has at least as much ink.
pub proof fn lemma_search_ordered<G: Fn(u32, u32, u32, u32) -> u32>(
    family: G,
    image: PixelImage,
    grid_size: u32,
    target1: u64,
    target2: u64,
    r1: Result<GammaFit, NoSolution>,
    r2: Result<GammaFit, NoSolution>,
)
    requires
        family_monotone(family, (grid_size * grid_size) as u32),
        target1 <= target2,
        search_outcome(family, image, grid_size, target1, r1),
        search_outcome(family, image, grid_size, target2, r2),
        r1 is Ok,
        r2 is Ok,
    ensures
        r1->Ok_0.ink <= r2->Ok_0.ink,
{
    let f2 = r2->Ok_0;
    lemma_search_closest(family, image, grid_size, target1, r1, f2.gamma, f2.ink as int);
}

/// A pixel with no darkness gets no ink at any positive gamma, when the
/// curves of `family` send 0 to 0.
pub proof fn lemma_white_pixel_no_ink<G: Fn(u32, u32, u32, u32) -> u32>(
    family: G,
    gamma: u32,
    pixel: Pixel,
    area: u32,
    ink: int,
)
    requires
        pixel.darkness == 0,
        gamma > 0,
        forall|g: u32, l: u32|
            g > 0 && #[trigger] call_ensures(family, (g, 0u32, MAX_RAW, area), l) ==> l == 0,
        is_ink(family, gamma, raw_spec(pixel), area, ink),
    ensures
        ink == 0,
{
    assert(raw_spec(pixel) == 0);
    let level = choose|level: u32|
        call_ensures(family, (gamma, 0u32, MAX_RAW, area), level) && ink == clamp_spec(level, area);
}

} // verus!
