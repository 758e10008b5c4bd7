use waveform_display::canvas::Canvas;
use waveform_display::error::VisualizerError;
use waveform_display::raster::{BACKGROUND, WAVEFORM};
use waveform_display::render::{draw_waveform, FULL_SCALE};

#[test]
fn new_canvas_is_blank() {
    let canvas = Canvas::<7, 5>::new().unwrap();
    assert_eq!(canvas.width(), 7);
    assert_eq!(canvas.height(), 5);
    assert_eq!(canvas.pixels(), &vec![BACKGROUND; 35]);
}

#[test]
fn canvas_too_large_to_hold_is_not_made() {
    assert!(Canvas::<{ usize::MAX }, 2>::new().is_none());
    assert!(Canvas::<{ usize::MAX }, { usize::MAX }>::new().is_none());
    assert!(Canvas::<{ isize::MAX as usize / 4 + 1 }, 1>::new().is_none());
}

#[test]
fn canvas_without_pixels_is_made() {
    let canvas = Canvas::<0, 9>::new().unwrap();
    assert!(canvas.pixels().is_empty());
    assert_eq!(canvas.get(0, 0), None);
    let canvas = Canvas::<{ usize::MAX }, 0>::new().unwrap();
    assert!(canvas.pixels().is_empty());
}

#[test]
fn get_reads_by_column_and_row() {
    let mut canvas = Canvas::<4, 3>::new().unwrap();
    assert_eq!(canvas.render(&vec![FULL_SCALE, FULL_SCALE]), Ok(()));
    assert_eq!(canvas.get(0, 0), Some(BACKGROUND));
    assert_eq!(canvas.get(0, 2), Some(WAVEFORM));
    assert_eq!(canvas.get(3, 2), Some(WAVEFORM));
    assert_eq!(canvas.get(3, 1), Some(BACKGROUND));
    assert_eq!(canvas.get(4, 0), None);
    assert_eq!(canvas.get(0, 3), None);
    assert_eq!(canvas.get(usize::MAX, usize::MAX), None);
}

#[test]
fn canvas_render_agrees_with_draw_waveform() {
    let samples = vec![0, -7_000_000, 12_000_000, 18_000_000, -16_777_216];
    let mut canvas = Canvas::<31, 17>::new().unwrap();
    let mut plain = vec![0xABCDEF; 31 * 17];
    assert_eq!(canvas.render(&samples), Ok(()));
    assert_eq!(draw_waveform(&samples, &mut plain, 31, 17), Ok(()));
    assert_eq!(canvas.pixels(), &plain);
}

#[test]
fn canvas_refuses_short_blocks_and_keeps_its_frame() {
    let mut canvas = Canvas::<6, 6>::new().unwrap();
    assert_eq!(canvas.render(&vec![0, 0]), Ok(()));
    let kept = canvas.pixels().clone();
    assert!(kept.contains(&WAVEFORM));
    assert_eq!(canvas.render(&vec![7]), Err(VisualizerError::InvalidInput));
    assert_eq!(canvas.pixels(), &kept);
    assert_eq!(canvas.render(&Vec::new()), Err(VisualizerError::InvalidInput));
    assert_eq!(canvas.pixels(), &kept);
}

#[test]
fn canvas_of_one_column_refuses_every_block() {
    let mut canvas = Canvas::<1, 6>::new().unwrap();
    assert_eq!(canvas.render(&vec![0, 0, 0]), Err(VisualizerError::InvalidInput));
    assert_eq!(canvas.pixels(), &vec![BACKGROUND; 6]);
}

#[test]
fn canvas_clear_wipes_the_frame() {
    let mut canvas = Canvas::<6, 6>::new().unwrap();
    assert_eq!(canvas.render(&vec![0, 0]), Ok(()));
    canvas.clear();
    assert_eq!(canvas.pixels(), &vec![BACKGROUND; 36]);
}

#[test]
fn canvas_clone_is_a_copy_of_its_own() {
    let mut canvas = Canvas::<6, 6>::new().unwrap();
    assert_eq!(canvas.render(&vec![0, 0]), Ok(()));
    let copy = canvas.clone();
    canvas.clear();
    assert!(copy.pixels().contains(&WAVEFORM));
    assert_eq!(copy.get(0, 3), Some(WAVEFORM));
    assert_eq!(canvas.get(0, 3), Some(BACKGROUND));
}
