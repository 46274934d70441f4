use book_pictures::density::map_value_by_distribution;
use book_pictures::gamma::{count_ink, find_distribution, GammaFit, NoSolution, GAMMA_MAX, GAMMA_ONE};
use book_pictures::grid::{assemble_grid, create_picture_grid, dither_block};
use book_pictures::render::render_text_rows;
use book_pictures::pixels::{Pixel, PixelImage, MAX_RAW};

fn gamma_curve(g: u32, v: u32, max_in: u32, max_out: u32) -> u32 {
    let gamma = g as f32 / GAMMA_ONE as f32;
    ((v as f32 / max_in as f32).powf(gamma) * max_out as f32).round() as u32
}

fn black() -> Pixel {
    Pixel { darkness: 255, alpha: 255 }
}

fn white() -> Pixel {
    Pixel { darkness: 0, alpha: 255 }
}

fn image(width: u32, height: u32, pixels: Vec<Pixel>) -> PixelImage {
    PixelImage::new(width, height, pixels).unwrap()
}

fn count(grid: &Vec<Vec<bool>>) -> usize {
    grid.iter().map(|row| row.iter().filter(|c| **c).count()).sum()
}

#[test]
fn density_stays_within_max_output() {
    let over = |_v: u32, _mi: u32, mo: u32| mo * 3;
    assert_eq!(map_value_by_distribution(10, &over, 100, 9), 9);
    let identity = |v: u32, mi: u32, mo: u32| ((v as f32 / mi as f32) * mo as f32).round() as u32;
    assert_eq!(map_value_by_distribution(200, &identity, 100, 9), 9);
    assert_eq!(map_value_by_distribution(0, &identity, 100, 9), 0);
    assert_eq!(map_value_by_distribution(50, &identity, 100, 9), 5);
    assert_eq!(map_value_by_distribution(100, &identity, 100, 0), 0);
}

#[test]
fn density_with_square_root_curve() {
    let sqrt = |v: u32, mi: u32, mo: u32| ((v as f32 / mi as f32).sqrt() * mo as f32).round() as u32;
    assert_eq!(map_value_by_distribution(25, &sqrt, 100, 10), 5);
    assert_eq!(map_value_by_distribution(100, &sqrt, 100, 10), 10);
}

#[test]
fn density_is_the_same_for_the_same_inputs() {
    let curve = |v: u32, mi: u32, mo: u32| gamma_curve(GAMMA_ONE / 2, v, mi, mo);
    let first = map_value_by_distribution(30000, &curve, MAX_RAW, 16);
    let _other = map_value_by_distribution(100, &curve, MAX_RAW, 16);
    let second = map_value_by_distribution(30000, &curve, MAX_RAW, 16);
    assert_eq!(first, second);
    assert_eq!(first, 11);
}

#[test]
fn dither_block_inks_exactly_ink_cells() {
    for ink in 0..=9u32 {
        let cells = dither_block(ink, 9);
        assert_eq!(cells.len(), 9);
        assert_eq!(cells.iter().filter(|c| **c).count(), ink as usize);
    }
}

#[test]
fn dither_block_moves_the_ink_around() {
    let mut places = std::collections::HashSet::new();
    for _ in 0..200 {
        let cells = dither_block(1, 9);
        places.insert(cells.iter().position(|c| *c).unwrap());
    }
    assert!(places.len() > 1);
    assert!(places.iter().any(|p| *p != 0));
}

#[test]
fn black_pixel_fills_its_block() {
    let img = image(1, 1, vec![black()]);
    let grid = create_picture_grid(&img, 3, GAMMA_ONE, &gamma_curve);
    assert_eq!(grid, vec![vec![true; 3]; 3]);
    assert_eq!(count(&grid), 9);
}

#[test]
fn white_pixel_gets_no_ink_at_any_gamma() {
    let img = image(1, 1, vec![white()]);
    for g in [GAMMA_ONE / 4, GAMMA_ONE / 2, GAMMA_ONE, 3 * GAMMA_ONE, 50 * GAMMA_ONE] {
        let grid = create_picture_grid(&img, 3, g, &gamma_curve);
        assert_eq!(count(&grid), 0);
        assert_eq!(count_ink(&img, 3, g, &gamma_curve), 0);
    }
}

#[test]
fn black_and_white_pair_inks_only_the_left_block() {
    let img = image(2, 1, vec![black(), white()]);
    let grid = create_picture_grid(&img, 2, GAMMA_ONE, &gamma_curve);
    assert_eq!(grid.len(), 2);
    assert!(grid.iter().all(|row| row.len() == 4));
    assert_eq!(count(&grid), 4);
    for row in &grid {
        assert_eq!(row, &vec![true, true, false, false]);
    }
}

#[test]
fn transparent_black_pixel_gets_no_ink() {
    let img = image(1, 1, vec![Pixel { darkness: 255, alpha: 0 }]);
    let grid = create_picture_grid(&img, 4, GAMMA_ONE, &gamma_curve);
    assert_eq!(count(&grid), 0);
}

#[test]
fn grid_total_is_the_sum_of_pixel_inks() {
    let pixels: Vec<Pixel> = (0..12u32)
        .map(|i| Pixel { darkness: (i * 21) as u8, alpha: 255 })
        .collect();
    let img = image(4, 3, pixels.clone());
    let grid = create_picture_grid(&img, 3, GAMMA_ONE, &gamma_curve);
    assert_eq!(grid.len(), 9);
    let mut expected = 0;
    for y in 0..3usize {
        for x in 0..4usize {
            let p = pixels[y * 4 + x];
            let ink = map_value_by_distribution(
                p.darkness as u32 * p.alpha as u32,
                &|v: u32, mi: u32, mo: u32| gamma_curve(GAMMA_ONE, v, mi, mo),
                MAX_RAW,
                9,
            );
            let mut in_block = 0;
            for dy in 0..3 {
                for dx in 0..3 {
                    if grid[y * 3 + dy][x * 3 + dx] {
                        in_block += 1;
                    }
                }
            }
            assert_eq!(in_block, ink);
            expected += ink as usize;
        }
    }
    assert_eq!(count(&grid), expected);
    assert_eq!(count_ink(&img, 3, GAMMA_ONE, &gamma_curve) as usize, expected);
}

#[test]
fn assemble_grid_places_each_block() {
    let blocks = vec![
        vec![true, false, false, false],
        vec![false, true, false, false],
        vec![false, false, true, false],
    ];
    let grid = assemble_grid(&blocks, 3, 1, 2);
    assert_eq!(
        grid,
        vec![
            vec![true, false, false, true, false, false],
            vec![false, false, false, false, true, false],
        ]
    );
}

#[test]
fn image_size_must_match_pixels() {
    assert!(PixelImage::new(2, 2, vec![black(); 3]).is_none());
    assert!(PixelImage::new(2, 2, vec![black(); 4]).is_some());
    assert!(PixelImage::new(0, 5, vec![]).is_some());
}

#[test]
fn white_image_has_no_solution() {
    let img = image(2, 2, vec![white(); 4]);
    assert_eq!(find_distribution(&img, 3, 5, &gamma_curve), Err(NoSolution));
}

#[test]
fn white_image_with_zero_target_stops_at_gamma_one() {
    let img = image(2, 2, vec![white(); 4]);
    assert_eq!(
        find_distribution(&img, 3, 0, &gamma_curve),
        Ok(GammaFit { gamma: GAMMA_ONE, ink: 0 })
    );
}

#[test]
fn black_image_always_has_a_solution() {
    let img = image(2, 3, vec![black(); 6]);
    for target in [0u64, 1, 17, 53, 54] {
        let fit = find_distribution(&img, 3, target, &gamma_curve).unwrap();
        assert!(fit.ink >= target);
        assert_eq!(fit.ink, 54);
        assert!(fit.gamma > 0 && fit.gamma < GAMMA_MAX);
    }
    assert_eq!(
        find_distribution(&img, 3, 54, &gamma_curve),
        Ok(GammaFit { gamma: GAMMA_ONE, ink: 54 })
    );
}

#[test]
fn zero_target_on_inked_image_searches_on() {
    let img = image(1, 1, vec![Pixel { darkness: 128, alpha: 255 }]);
    assert_eq!(count_ink(&img, 4, GAMMA_ONE, &gamma_curve), 8);
    let fit = find_distribution(&img, 4, 0, &gamma_curve).unwrap();
    assert_eq!(fit.ink, 0);
    assert!(fit.gamma > GAMMA_ONE);
    assert_eq!(count_ink(&img, 4, fit.gamma, &gamma_curve), 0);
}

#[test]
fn search_never_falls_short_of_the_target() {
    let pixels: Vec<Pixel> = (0..16u32)
        .map(|i| Pixel { darkness: (i * 16) as u8, alpha: 255 })
        .collect();
    let img = image(4, 4, pixels);
    let at_one = count_ink(&img, 3, GAMMA_ONE, &gamma_curve);
    for target in [1u64, 10, at_one, at_one + 5, 100, 130] {
        match find_distribution(&img, 3, target, &gamma_curve) {
            Ok(fit) => {
                assert!(fit.ink >= target);
                assert_eq!(count_ink(&img, 3, fit.gamma, &gamma_curve), fit.ink);
            }
            Err(NoSolution) => {
                assert!(at_one < target);
            }
        }
    }
    assert_eq!(
        find_distribution(&img, 3, at_one, &gamma_curve),
        Ok(GammaFit { gamma: GAMMA_ONE, ink: at_one })
    );
    assert_eq!(find_distribution(&img, 3, 16 * 9 + 1, &gamma_curve), Err(NoSolution));
}

#[test]
fn lighter_gamma_needs_a_larger_value() {
    let img = image(1, 1, vec![Pixel { darkness: 128, alpha: 255 }]);
    let dark = count_ink(&img, 10, GAMMA_ONE / 2, &gamma_curve);
    let light = count_ink(&img, 10, 2 * GAMMA_ONE, &gamma_curve);
    assert_eq!(dark, 71);
    assert_eq!(light, 25);
}

#[test]
fn text_fills_ink_cells_in_reading_order() {
    let grid = vec![vec![true, false, true], vec![false, true, true]];
    let text: Vec<char> = "abc".chars().collect();
    let rows = render_text_rows(&grid, &text);
    assert_eq!(rows, vec![vec!['a', ' ', 'b'], vec![' ', 'c', ' ']]);
    let rows = render_text_rows(&grid, &"wxyz!".chars().collect());
    assert_eq!(rows, vec![vec!['w', ' ', 'x'], vec![' ', 'y', 'z']]);
    assert_eq!(render_text_rows(&vec![], &text), Vec::<Vec<char>>::new());
}

#[test]
fn rgba_bytes_become_darkness_and_alpha() {
    let bytes = vec![
        255, 0, 0, 255, // red
        0, 255, 0, 128, // green, half transparent
        0, 0, 255, 0, // blue, transparent
        255, 255, 255, 255, // white
        0, 0, 0, 255, // black
        100, 100, 100, 7, // gray
    ];
    let img = PixelImage::from_rgba8(3, 2, &bytes).unwrap();
    assert_eq!((img.width, img.height), (3, 2));
    assert_eq!(
        img.pixels,
        vec![
            Pixel { darkness: 201, alpha: 255 },
            Pixel { darkness: 73, alpha: 128 },
            Pixel { darkness: 237, alpha: 0 },
            Pixel { darkness: 0, alpha: 255 },
            Pixel { darkness: 255, alpha: 255 },
            Pixel { darkness: 155, alpha: 7 },
        ]
    );
}

#[test]
fn rgba_bytes_must_fill_the_image() {
    assert!(PixelImage::from_rgba8(2, 1, &vec![0; 7]).is_none());
    assert!(PixelImage::from_rgba8(2, 1, &vec![0; 12]).is_none());
    assert!(PixelImage::from_rgba8(2, 1, &vec![0; 8]).is_some());
}

#[test]
fn search_reaches_targets_that_need_a_tiny_gamma() {
    let pixels: Vec<Pixel> = (0..16u32)
        .map(|i| Pixel { darkness: (i * 16) as u8, alpha: 255 })
        .collect();
    let img = image(4, 4, pixels);
    assert_eq!(count_ink(&img, 3, 1, &gamma_curve), 135);
    let fit = find_distribution(&img, 3, 135, &gamma_curve).unwrap();
    assert_eq!(fit.ink, 135);
    assert!(fit.gamma < GAMMA_ONE);
    assert_eq!(find_distribution(&img, 3, 136, &gamma_curve), Err(NoSolution));
}

#[test]
fn fit_is_the_closest_count_over_the_target() {
    let pixels: Vec<Pixel> = (0..16u32)
        .map(|i| Pixel { darkness: (i * 16) as u8, alpha: 255 })
        .collect();
    let img = image(4, 4, pixels);
    let mut previous = 0;
    for target in [1u64, 10, 40, 60, 90, 120] {
        let fit = find_distribution(&img, 3, target, &gamma_curve).unwrap();
        assert!(fit.ink >= target);
        if fit.ink != target {
            assert!(count_ink(&img, 3, fit.gamma + 1, &gamma_curve) < target);
        }
        assert!(fit.ink >= previous);
        previous = fit.ink;
    }
}
