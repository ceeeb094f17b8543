use mandelbrot::color::RGB;
use mandelbrot::controller::{view_changed, InputEvent, ViewUpdate, ViewportController};
use mandelbrot::escape::EscapeCounter;
use mandelbrot::palette::new_linear_palette;
use mandelbrot::raster::{chunk_bounds, color_for, pixel_of, render_from_iterations, Raster, RenderError};
use num::complex::Complex;

fn gray(v: u8) -> RGB {
    RGB { r: v, g: v, b: v }
}

fn small_palette() -> Vec<RGB> {
    vec![gray(10), gray(20), gray(30), gray(40)]
}

#[test]
fn color_for_uses_previous_slot() {
    let p = small_palette();
    assert_eq!(color_for(&p, 1), gray(10));
    assert_eq!(color_for(&p, 4), gray(40));
}

#[test]
fn render_colours_each_cell() {
    let p = small_palette();
    let r = render_from_iterations(2, 3, &vec![1, 2, 3, 4, 4, 1], &p).unwrap();
    assert_eq!(r.width(), 2);
    assert_eq!(r.height(), 3);
    assert_eq!(r.cells(), &vec![gray(10), gray(20), gray(30), gray(40), gray(40), gray(10)]);
    assert_eq!(r.get(1, 0), gray(20));
    assert_eq!(r.get(0, 2), gray(40));
}

#[test]
fn render_rejects_empty_viewport() {
    let p = small_palette();
    assert_eq!(render_from_iterations(0, 3, &vec![], &p).err(), Some(RenderError::InvalidViewport));
    assert_eq!(render_from_iterations(3, 0, &vec![], &p).err(), Some(RenderError::InvalidViewport));
}

#[test]
fn render_rejects_wrong_count() {
    let p = small_palette();
    assert_eq!(render_from_iterations(2, 2, &vec![1, 1, 1], &p).err(), Some(RenderError::SizeMismatch));
}

#[test]
fn render_rejects_count_outside_palette() {
    let p = small_palette();
    assert_eq!(
        render_from_iterations(2, 1, &vec![1, 5], &p).err(),
        Some(RenderError::IterationOutOfRange)
    );
    assert_eq!(
        render_from_iterations(2, 1, &vec![0, 1], &p).err(),
        Some(RenderError::IterationOutOfRange)
    );
}

#[test]
fn new_raster_is_filled() {
    let r = Raster::new(3, 2, gray(7)).unwrap();
    assert_eq!(r.cells(), &vec![gray(7); 6]);
    assert_eq!(Raster::new(0, 2, gray(7)).err(), Some(RenderError::InvalidViewport));
}

#[test]
fn chunks_in_any_order_give_same_raster() {
    let p = small_palette();
    let counts: Vec<u32> = (0..23u32).map(|i| i % 4 + 1).collect();
    let whole = render_from_iterations(23, 1, &counts, &p).unwrap();
    for parts in 1..8usize {
        let mut forward = Raster::new(23, 1, gray(0)).unwrap();
        let mut backward = Raster::new(23, 1, gray(99)).unwrap();
        for k in 0..parts {
            let (s, e) = chunk_bounds(23, parts, k);
            forward.paint_chunk(s, &counts[s..e].to_vec(), &p);
        }
        for k in (0..parts).rev() {
            let (s, e) = chunk_bounds(23, parts, k);
            backward.paint_chunk(s, &counts[s..e].to_vec(), &p);
        }
        assert_eq!(forward.cells(), whole.cells());
        assert_eq!(backward.cells(), whole.cells());
    }
}

#[test]
fn chunk_bounds_tile() {
    assert_eq!(chunk_bounds(10, 3, 0), (0, 3));
    assert_eq!(chunk_bounds(10, 3, 1), (3, 6));
    assert_eq!(chunk_bounds(10, 3, 2), (6, 10));
    assert_eq!(chunk_bounds(2, 4, 0), (0, 0));
    assert_eq!(chunk_bounds(2, 4, 3), (1, 2));
}

#[test]
fn pixel_of_is_row_major() {
    assert_eq!(pixel_of(0, 4), (0, 0));
    assert_eq!(pixel_of(5, 4), (1, 1));
    assert_eq!(pixel_of(11, 4), (3, 2));
}

#[test]
fn controller_pans_only_while_dragging() {
    let mut c = ViewportController::new();
    assert!(!c.is_dragging());
    assert_eq!(c.handle(InputEvent::PointerMoved), ViewUpdate::Unchanged);
    assert_eq!(c.handle(InputEvent::PrimaryPressed), ViewUpdate::Latch);
    assert!(c.is_dragging());
    assert_eq!(c.handle(InputEvent::PointerMoved), ViewUpdate::Pan);
    assert_eq!(c.handle(InputEvent::PrimaryReleased), ViewUpdate::Latch);
    assert_eq!(c.handle(InputEvent::PointerMoved), ViewUpdate::Unchanged);
    assert_eq!(c.handle(InputEvent::Other), ViewUpdate::Unchanged);
}

#[test]
fn controller_zooms_by_sign() {
    let mut c = ViewportController::new();
    assert_eq!(c.handle(InputEvent::Scrolled { non_negative: true }), ViewUpdate::ZoomIn);
    assert_eq!(c.handle(InputEvent::Scrolled { non_negative: false }), ViewUpdate::ZoomOut);
    assert!(view_changed(ViewUpdate::ZoomIn));
    assert!(view_changed(ViewUpdate::Latch));
    assert!(!view_changed(ViewUpdate::Unchanged));
}

#[test]
fn end_to_end_render() {
    let c1 = RGB::hex("E810DD").unwrap();
    let c2 = RGB::hex("33B242").unwrap();
    let c3 = RGB::hex("E81000").unwrap();
    let c4 = RGB::hex("1A246D").unwrap();
    let cap: u32 = 500;
    let palette = new_linear_palette(c1, c2, c3, c4, cap).unwrap();
    let size: u32 = 100;
    let (cx, cy, scale) = (-0.9170575f64, -0.277587f64, 35000.0f64);
    let (min_x, max_x) = (cx - 2.0 / scale, cx + 2.0 / scale);
    let (min_y, max_y) = (cy - 2.0 / scale, cy + 2.0 / scale);
    let mut counts: Vec<u32> = Vec::new();
    for index in 0..(size * size) as usize {
        let (x, y) = pixel_of(index, size);
        let c = Complex {
            re: (x as f64 / size as f64) * (max_x - min_x) + min_x,
            im: (y as f64 / size as f64) * (max_y - min_y) + min_y,
        };
        let mut z: Complex<f64> = Complex { re: 0.0, im: 0.0 };
        let mut counter = EscapeCounter::new(cap);
        while !counter.is_finished() {
            z = z * z + c;
            counter.record(z.norm() > 2.0);
        }
        counts.push(counter.iterations());
    }
    let raster = render_from_iterations(size, size, &counts, &palette).unwrap();
    assert_eq!(raster.cells().len(), 10000);
    for cell in raster.cells() {
        assert!(palette.contains(cell));
    }
}
