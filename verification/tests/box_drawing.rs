use trixie::box_drawing::render_box_char;

fn alpha(p: &[u8], w: u32, x: u32, y: u32) -> u8 {
    p[((y * w + x) * 4 + 3) as usize]
}

fn grid(ch: char, w: u32, h: u32) -> Vec<Vec<u8>> {
    let p = render_box_char(ch, w, h).unwrap();
    assert_eq!(p.len(), (w * h * 4) as usize);
    // every pixel is transparent black or white with some alpha
    for i in 0..(w * h) as usize {
        let a = p[i * 4 + 3];
        let want = if a == 0 { 0 } else { 255 };
        assert_eq!(&p[i * 4..i * 4 + 3], &[want, want, want]);
    }
    (0..h)
        .map(|y| (0..w).map(|x| alpha(&p, w, x, y)).collect())
        .collect()
}

fn painted(ch: char, w: u32, h: u32) -> Vec<(u32, u32)> {
    let g = grid(ch, w, h);
    let mut out = Vec::new();
    for y in 0..h {
        for x in 0..w {
            if g[y as usize][x as usize] == 255 {
                out.push((x, y));
            }
        }
    }
    out
}

#[test]
fn not_synthetic_is_none() {
    assert!(render_box_char('a', 8, 16).is_none());
    assert!(render_box_char('\u{24ff}', 8, 16).is_none());
    assert!(render_box_char('\u{25a0}', 8, 16).is_none());
    assert!(render_box_char('\u{e0b4}', 8, 16).is_none());
}

#[test]
fn every_synthetic_code_point_is_drawn() {
    for cp in (0x2500u32..=0x259F).chain(0x2800..=0x28FF).chain(0xE0B0..=0xE0B3) {
        let ch = char::from_u32(cp).unwrap();
        let p = render_box_char(ch, 9, 18).unwrap();
        assert_eq!(p.len(), 9 * 18 * 4);
    }
}

#[test]
fn empty_cell_gives_empty_bitmap() {
    assert_eq!(render_box_char('\u{2500}', 0, 16), Some(vec![]));
    assert_eq!(render_box_char('\u{256d}', 8, 0), Some(vec![]));
}

#[test]
fn light_horizontal_line() {
    // norm(16) = round(1.28) = 1: one row at the middle.
    let want: Vec<(u32, u32)> = (0..8).map(|x| (x, 8)).collect();
    assert_eq!(painted('\u{2500}', 8, 16), want);
}

#[test]
fn light_vertical_line() {
    let want: Vec<(u32, u32)> = (0..16).map(|y| (4, y)).collect();
    assert_eq!(painted('\u{2502}', 8, 16), want);
}

#[test]
fn heavy_horizontal_line_is_three_rows() {
    // thk(16) = round(2.88) = 3, centred on row 8.
    let mut want = Vec::new();
    for y in 7..10 {
        for x in 0..8 {
            want.push((x, y));
        }
    }
    assert_eq!(painted('\u{2501}', 8, 16), want);
}

#[test]
fn thickness_is_rounded_and_clamped() {
    // norm(4) = round(0.32) = 0, clamped to 1; thk(4) = round(0.72) = 1, clamped to 2.
    assert_eq!(painted('\u{2500}', 2, 4), vec![(0, 2), (1, 2)]);
    assert_eq!(painted('\u{2501}', 2, 4), vec![(0, 1), (1, 1), (0, 2), (1, 2)]);
    // norm(25) = round(2.0) = 2; thk(25) = round(4.5) = 5
    let light: Vec<u32> = painted('\u{2502}', 11, 25).iter().map(|p| p.0).collect();
    assert_eq!((light.iter().min(), light.iter().max()), (Some(&4), Some(&5)));
    let heavy: Vec<u32> = painted('\u{2503}', 11, 25).iter().map(|p| p.0).collect();
    assert_eq!((heavy.iter().min(), heavy.iter().max()), (Some(&3), Some(&7)));
}

#[test]
fn light_down_and_right_corner() {
    let mut want = Vec::new();
    for y in 8..16 {
        for x in 0..8 {
            if (y == 8 && x >= 4) || x == 4 {
                want.push((x, y));
            }
        }
    }
    assert_eq!(painted('\u{250c}', 8, 16), want);
}

#[test]
fn double_horizontal_line() {
    // gap = max(3, 2 * 1) = 3 either side of row 8
    let mut want: Vec<(u32, u32)> = (0..8).map(|x| (x, 5)).collect();
    want.extend((0..8).map(|x| (x, 11)));
    assert_eq!(painted('\u{2550}', 8, 16), want);
}

#[test]
fn mixed_heavy_left_light_right() {
    // U+257E: heavy left half, light right half
    let g = grid('\u{257e}', 8, 16);
    assert_eq!(g[7][0], 255);
    assert_eq!(g[9][0], 255);
    assert_eq!(g[7][7], 0);
    assert_eq!(g[8][7], 255);
    assert_eq!(g[9][7], 0);
}

#[test]
fn dashed_line_has_two_dashes() {
    // seg = 8 / 4 = 2: dashes at columns 0..2 and 4..6
    assert_eq!(
        painted('\u{2504}', 8, 16),
        vec![(0, 8), (1, 8), (4, 8), (5, 8)]
    );
}

#[test]
fn unlisted_box_character_is_a_light_cross() {
    assert_eq!(painted('\u{2521}', 8, 16), painted('\u{253c}', 8, 16));
}

#[test]
fn diagonal_runs_corner_to_corner() {
    assert_eq!(painted('\u{2572}', 4, 4), vec![(0, 0), (1, 1), (2, 2), (3, 3)]);
    assert_eq!(painted('\u{2571}', 4, 4), vec![(3, 0), (2, 1), (1, 2), (0, 3)]);
}

#[test]
fn rounded_corner_passes_below_the_centre() {
    let g = grid('\u{256d}', 8, 16);
    // at t = 1/2 the curve is at (5.25, 9.375)
    assert_eq!(g[9][5], 255);
    assert_eq!(g[0][0], 0);
    assert_eq!(g[15][4], 255);
    assert_eq!(g[8][7], 255);
}

#[test]
fn full_block_is_opaque_white() {
    let p = render_box_char('\u{2588}', 4, 4).unwrap();
    assert_eq!(p, vec![255u8; 4 * 4 * 4]);
}

#[test]
fn lower_blocks_grow_in_eighths() {
    // lower half
    let half: Vec<u32> = painted('\u{2584}', 2, 16).iter().map(|p| p.1).collect();
    assert_eq!(half.iter().min(), Some(&8));
    // lower three eighths: 16 - (16 * 3 + 4) / 8 = 10
    let three: Vec<u32> = painted('\u{2583}', 2, 16).iter().map(|p| p.1).collect();
    assert_eq!(three.iter().min(), Some(&10));
    // left five eighths (U+258b): 8 - (8 * 5 + 4) / 8 = 3 columns
    let left: Vec<u32> = painted('\u{258b}', 8, 2).iter().map(|p| p.0).collect();
    assert_eq!(left.iter().max(), Some(&2));
}

#[test]
fn quadrant_blocks() {
    assert_eq!(painted('\u{2598}', 2, 2), vec![(0, 0)]);
    assert_eq!(painted('\u{259d}', 2, 2), vec![(1, 0)]);
    assert_eq!(painted('\u{2596}', 2, 2), vec![(0, 1)]);
    assert_eq!(painted('\u{2597}', 2, 2), vec![(1, 1)]);
    assert_eq!(painted('\u{259a}', 2, 2), vec![(0, 0), (1, 1)]);
    assert_eq!(painted('\u{259f}', 2, 2), vec![(1, 0), (0, 1), (1, 1)]);
}

#[test]
fn shades_are_checkerboards() {
    let g = grid('\u{2591}', 2, 2);
    assert_eq!(g, vec![vec![64, 0], vec![0, 64]]);
    assert_eq!(grid('\u{2592}', 2, 2), vec![vec![128, 0], vec![0, 128]]);
    assert_eq!(grid('\u{2593}', 2, 2), vec![vec![192, 0], vec![0, 192]]);
}

#[test]
fn empty_braille_is_blank() {
    let p = render_box_char('\u{2800}', 8, 16).unwrap();
    assert_eq!(p, vec![0u8; 8 * 16 * 4]);
}

#[test]
fn braille_dot_is_an_antialiased_disc() {
    // dot 1 of a 10 x 20 cell: centre (3, 3), radius 1.5
    let g = grid_any('\u{2801}', 10, 20);
    assert_eq!(g[3][3], 255);
    assert_eq!(g[4][3], 255);
    // distance sqrt(2): coverage 2 - sqrt(2) = 0.5857..., times 255 = 149.37
    assert_eq!(g[4][4], 149);
    // distance 2: coverage 0
    assert_eq!(g[5][3], 0);
    assert_eq!(g[0][9], 0);
    // dot 8 sits in the right column at 85% of the height
    let g8 = grid_any('\u{2880}', 10, 20);
    assert_eq!(g8[17][7], 255);
    assert_eq!(g8[3][3], 0);
}

fn grid_any(ch: char, w: u32, h: u32) -> Vec<Vec<u8>> {
    let p = render_box_char(ch, w, h).unwrap();
    (0..h)
        .map(|y| (0..w).map(|x| alpha(&p, w, x, y)).collect())
        .collect()
}

#[test]
fn powerline_solid_arrows() {
    assert_eq!(
        painted('\u{e0b0}', 4, 4),
        vec![(0, 1), (1, 1), (0, 2), (1, 2), (2, 2), (3, 2), (0, 3), (1, 3)]
    );
    assert_eq!(
        painted('\u{e0b2}', 4, 4),
        vec![(2, 1), (3, 1), (0, 2), (1, 2), (2, 2), (3, 2), (2, 3), (3, 3)]
    );
}

#[test]
fn powerline_hollow_arrow_meets_at_mid_height() {
    let g = grid('\u{e0b1}', 8, 16);
    assert_eq!(g[0][0], 255);
    assert_eq!(g[4][3], 255);
    assert_eq!(g[8][7], 255);
    assert_eq!(g[15][0], 255);
    assert_eq!(g[8][0], 0);
    let l = grid('\u{e0b3}', 8, 16);
    assert_eq!(l[0][7], 255);
    assert_eq!(l[8][0], 255);
    assert_eq!(l[15][7], 255);
}
