use waveform_display::disc::{draw_circle, half_chord};
use waveform_display::raster::{BACKGROUND, WAVEFORM};

fn grid(rows: &[&str]) -> Vec<u32> {
    let mut pixels = Vec::new();
    for row in rows {
        for mark in row.chars() {
            pixels.push(if mark == '#' { WAVEFORM } else { BACKGROUND });
        }
    }
    pixels
}

#[test]
fn half_chord_is_the_floor_of_the_root() {
    assert_eq!(half_chord(0, 0), 0);
    assert_eq!(half_chord(1, 0), 1);
    assert_eq!(half_chord(1, 1), 0);
    assert_eq!(half_chord(5, 3), 4);
    assert_eq!(half_chord(5, 4), 3);
    assert_eq!(half_chord(5, 5), 0);
    assert_eq!(half_chord(10, 7), 7);
    assert_eq!(half_chord(10, 1), 9);
    assert_eq!(half_chord(2, 1), 1);
}

#[test]
fn half_chord_of_the_largest_radius() {
    assert_eq!(half_chord(usize::MAX, 0), usize::MAX);
    assert_eq!(half_chord(usize::MAX, usize::MAX), 0);
}

#[test]
fn disc_of_radius_one_is_a_plus() {
    let mut canvas = vec![BACKGROUND; 25];
    draw_circle(&mut canvas, 5, 5, 2, 2, 1);
    assert_eq!(canvas, grid(&[".....", "..#..", ".###.", "..#..", "....."]));
}

#[test]
fn disc_of_radius_zero_is_one_pixel() {
    let mut canvas = vec![BACKGROUND; 9];
    draw_circle(&mut canvas, 3, 3, 1, 2, 0);
    assert_eq!(canvas, grid(&["...", "...", ".#."]));
}

#[test]
fn disc_of_radius_two() {
    let mut canvas = vec![BACKGROUND; 49];
    draw_circle(&mut canvas, 7, 7, 3, 3, 2);
    assert_eq!(
        canvas,
        grid(&[".......", "...#...", "..###..", ".#####.", "..###..", "...#...", "......."])
    );
}

#[test]
fn disc_of_radius_three() {
    let mut canvas = vec![BACKGROUND; 49];
    draw_circle(&mut canvas, 7, 7, 3, 3, 3);
    assert_eq!(
        canvas,
        grid(&["...#...", ".#####.", ".#####.", "#######", ".#####.", ".#####.", "...#..."])
    );
}

#[test]
fn disc_keeps_what_it_does_not_cover() {
    let mut canvas: Vec<u32> = (1..=9).collect();
    draw_circle(&mut canvas, 3, 3, 1, 1, 1);
    assert_eq!(
        canvas,
        vec![1, WAVEFORM, 3, WAVEFORM, WAVEFORM, WAVEFORM, 7, WAVEFORM, 9]
    );
}

#[test]
fn disc_is_cut_at_the_edges() {
    let mut canvas = vec![BACKGROUND; 9];
    draw_circle(&mut canvas, 3, 3, 0, 0, 1);
    assert_eq!(canvas, grid(&["##.", "#..", "..."]));
    let mut canvas = vec![BACKGROUND; 9];
    draw_circle(&mut canvas, 3, 3, 2, 2, 1);
    assert_eq!(canvas, grid(&["...", "..#", ".##"]));
}

#[test]
fn disc_round_a_centre_above_the_canvas() {
    let mut canvas = vec![BACKGROUND; 9];
    draw_circle(&mut canvas, 3, 3, 1, -1, 1);
    assert_eq!(canvas, grid(&[".#.", "...", "..."]));
    let mut canvas = vec![BACKGROUND; 9];
    draw_circle(&mut canvas, 3, 3, 1, -2, 1);
    assert_eq!(canvas, vec![BACKGROUND; 9]);
    let mut canvas = vec![BACKGROUND; 9];
    draw_circle(&mut canvas, 3, 3, 1, isize::MIN, 1);
    assert_eq!(canvas, vec![BACKGROUND; 9]);
}

#[test]
fn disc_round_a_centre_below_or_right_of_the_canvas() {
    let mut canvas = vec![BACKGROUND; 9];
    draw_circle(&mut canvas, 3, 3, 1, 3, 1);
    assert_eq!(canvas, grid(&["...", "...", ".#."]));
    let mut canvas = vec![BACKGROUND; 9];
    draw_circle(&mut canvas, 3, 3, 3, 1, 1);
    assert_eq!(canvas, grid(&["...", "..#", "..."]));
    let mut canvas = vec![BACKGROUND; 9];
    draw_circle(&mut canvas, 3, 3, 4, 1, 1);
    assert_eq!(canvas, vec![BACKGROUND; 9]);
    let mut canvas = vec![BACKGROUND; 9];
    draw_circle(&mut canvas, 3, 3, usize::MAX, isize::MAX, 1);
    assert_eq!(canvas, vec![BACKGROUND; 9]);
}

#[test]
fn disc_larger_than_the_canvas_fills_it() {
    let mut canvas = vec![BACKGROUND; 12];
    draw_circle(&mut canvas, 4, 3, 1, 1, 100);
    assert_eq!(canvas, vec![WAVEFORM; 12]);
    let mut canvas = vec![BACKGROUND; 12];
    draw_circle(&mut canvas, 4, 3, 1, 1, usize::MAX);
    assert_eq!(canvas, vec![WAVEFORM; 12]);
}

#[test]
fn disc_on_an_empty_canvas() {
    let mut canvas: Vec<u32> = Vec::new();
    draw_circle(&mut canvas, 0, 0, 0, 0, 1);
    assert!(canvas.is_empty());
    draw_circle(&mut canvas, 0, 7, 3, 3, 2);
    assert!(canvas.is_empty());
    draw_circle(&mut canvas, 7, 0, 3, 3, 2);
    assert!(canvas.is_empty());
}
