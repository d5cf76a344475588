use raytrace::framebuffer::{pixel_offset, Collector, PlacedPixel, PlacedPixelErr, ResultMessage};

fn ok(i: usize, j: usize, color: [u8; 4]) -> ResultMessage {
    Ok(PlacedPixel { i, j, color })
}

#[test]
fn offset_puts_bottom_row_last() {
    // 4 wide, 3 high: row j = 0 is the bottom, stored last.
    assert_eq!(pixel_offset(4, 3, 0, 0), 8);
    assert_eq!(pixel_offset(4, 3, 3, 0), 11);
    assert_eq!(pixel_offset(4, 3, 0, 2), 0);
    assert_eq!(pixel_offset(4, 3, 3, 2), 3);
    assert_eq!(pixel_offset(4, 3, 1, 1), 5);
}

#[test]
fn offsets_cover_grid_once() {
    let (w, h) = (5usize, 4usize);
    let mut seen = vec![0u32; w * h];
    for j in 0..h {
        for i in 0..w {
            seen[pixel_offset(w, h, i, j)] += 1;
        }
    }
    assert!(seen.iter().all(|&c| c == 1));
}

#[test]
fn new_collector_holds_placeholders() {
    let c = Collector::new(3, 2);
    assert!(!c.is_done());
    let image = c.into_image();
    assert_eq!(image.len(), 6);
    assert!(image.iter().all(|p| *p == [0, 0, 0, 255]));
}

#[test]
fn collector_places_results_in_any_order() {
    let (w, h) = (3usize, 2usize);
    let mut c = Collector::new(w, h);
    let order = [(2, 1), (0, 0), (1, 1), (2, 0), (0, 1), (1, 0)];
    let mut rows = 0;
    for (n, &(i, j)) in order.iter().enumerate() {
        assert!(!c.is_done());
        let color = [i as u8, j as u8, n as u8, 255];
        if c.receive(ok(i, j, color)) {
            rows += 1;
        }
    }
    assert!(c.is_done());
    assert_eq!(rows, 2);
    let image = c.into_image();
    // top row first: j = 1 is row 0
    assert_eq!(image[0], [0, 1, 4, 255]);
    assert_eq!(image[1], [1, 1, 2, 255]);
    assert_eq!(image[2], [2, 1, 0, 255]);
    assert_eq!(image[3], [0, 0, 1, 255]);
    assert_eq!(image[4], [1, 0, 5, 255]);
    assert_eq!(image[5], [2, 0, 3, 255]);
}

#[test]
fn failed_pixel_keeps_placeholder_and_counts() {
    let mut c = Collector::new(2, 1);
    assert!(!c.receive(Err(PlacedPixelErr { i: 0, j: 0 })));
    assert!(!c.is_done());
    assert!(c.receive(ok(1, 0, [9, 9, 9, 255])));
    assert!(c.is_done());
    assert_eq!(c.into_image(), vec![[0, 0, 0, 255], [9, 9, 9, 255]]);
}

#[test]
fn single_pixel_grid() {
    let mut c = Collector::new(1, 1);
    assert!(c.receive(ok(0, 0, [7, 8, 9, 255])));
    assert!(c.is_done());
    assert_eq!(c.into_image(), vec![[7, 8, 9, 255]]);
}

#[test]
fn empty_grid_is_done_at_once() {
    let c = Collector::new(0, 5);
    assert!(c.is_done());
    assert!(c.into_image().is_empty());
}
