use crt_shim::display::{
    draw_frame, framebuffer_info, reorder, Framebuffer, RES_X, RES_Y, SCALE,
};

fn blank(pitch: usize, len: usize) -> Framebuffer {
    Framebuffer { width: 0, height: 0, pitch, buf: vec![0xeeu8; len] }
}

#[test]
fn geometry_line_is_read() {
    let fb = framebuffer_info(b"1280:800:5120\n").unwrap();
    assert_eq!((fb.width, fb.height, fb.pitch), (1280, 800, 5120));
    assert!(fb.buf.is_empty());
}

#[test]
fn geometry_line_without_line_feed() {
    let fb = framebuffer_info(b"640:480:2560").unwrap();
    assert_eq!((fb.width, fb.height, fb.pitch), (640, 480, 2560));
}

#[test]
fn geometry_line_with_further_fields() {
    let fb = framebuffer_info(b"1024:768:4096:32\n").unwrap();
    assert_eq!((fb.width, fb.height, fb.pitch), (1024, 768, 4096));
    let fb = framebuffer_info(b"1:2:3:").unwrap();
    assert_eq!((fb.width, fb.height, fb.pitch), (1, 2, 3));
    let fb = framebuffer_info(b"+1:+02:003:x:y").unwrap();
    assert_eq!((fb.width, fb.height, fb.pitch), (1, 2, 3));
}

#[test]
fn geometry_line_malformed() {
    assert_eq!(framebuffer_info(b""), None);
    assert_eq!(framebuffer_info(b"\n"), None);
    assert_eq!(framebuffer_info(b"1280"), None);
    assert_eq!(framebuffer_info(b"1280:800"), None);
    assert_eq!(framebuffer_info(b"1280:800:"), None);
    assert_eq!(framebuffer_info(b"1280::5120"), None);
    assert_eq!(framebuffer_info(b":800:5120"), None);
    assert_eq!(framebuffer_info(b"1280:800:5120\r\n"), None);
    assert_eq!(framebuffer_info(b"1280:800:5120\n\n"), None);
    assert_eq!(framebuffer_info(b"1280:8x0:5120"), None);
    assert_eq!(framebuffer_info(b"-1:800:5120"), None);
    assert_eq!(framebuffer_info(b"+:800:5120"), None);
    assert_eq!(framebuffer_info(b" 1280:800:5120"), None);
}

#[test]
fn geometry_field_limits() {
    let max = format!("{}:0:{}\n", usize::MAX, usize::MAX);
    let fb = framebuffer_info(max.as_bytes()).unwrap();
    assert_eq!((fb.width, fb.height, fb.pitch), (usize::MAX, 0, usize::MAX));
    let over = format!("{}0:0:0\n", usize::MAX);
    assert_eq!(framebuffer_info(over.as_bytes()), None);
    assert_eq!(framebuffer_info(b"99999999999999999999999999:1:1"), None);
}

#[test]
fn fill_paints_the_rectangle_only() {
    let mut fb = blank(16, 64);
    fb.fill(1, 1, 2, 2, [1, 2, 3, 4]);
    let mut want = vec![0xeeu8; 64];
    for row in 1..3 {
        for k in 0..8 {
            want[4 + row * 16 + k] = [1u8, 2, 3, 4][k % 4];
        }
    }
    assert_eq!(fb.buf, want);
    assert_eq!(fb.pitch, 16);
}

#[test]
fn fill_offset_formula() {
    // pixel x of row y starts at x * 4 + y * pitch
    let mut fb = blank(20, 100);
    fb.fill(3, 2, 1, 1, [9, 8, 7, 6]);
    assert_eq!(&fb.buf[52..56], &[9, 8, 7, 6]);
    assert!(fb.buf[..52].iter().all(|b| *b == 0xee));
    assert!(fb.buf[56..].iter().all(|b| *b == 0xee));
}

#[test]
fn fill_of_no_rows_or_no_width_changes_nothing() {
    let mut fb = blank(16, 64);
    fb.fill(0, 0, 2, 0, [1, 2, 3, 4]);
    assert_eq!(fb.buf, vec![0xeeu8; 64]);
    fb.fill(0, 0, 0, 2, [1, 2, 3, 4]);
    assert_eq!(fb.buf, vec![0xeeu8; 64]);
}

#[test]
fn fill_up_to_the_last_byte() {
    let mut fb = blank(8, 16);
    fb.fill(0, 0, 2, 2, [5, 6, 7, 8]);
    assert_eq!(fb.buf, vec![5, 6, 7, 8, 5, 6, 7, 8, 5, 6, 7, 8, 5, 6, 7, 8]);
}

#[test]
fn frame_is_scaled_up_pixel_by_pixel() {
    let pitch = RES_X * SCALE * 4 + 32;
    let len = pitch * RES_Y * SCALE;
    let mut fb = blank(pitch, len);
    let mut cells = vec![[0u8; 4]; RES_X * RES_Y];
    for y in 0..RES_Y {
        for x in 0..RES_X {
            cells[x + y * RES_X] = [x as u8, y as u8, (x >> 8) as u8, (y >> 8) as u8];
        }
    }
    draw_frame(&mut fb, &cells);
    for (x, y) in [(0usize, 0usize), (1, 0), (0, 1), (639, 399), (320, 200), (17, 333)] {
        let cell = cells[x + y * RES_X];
        for dy in 0..SCALE {
            for dx in 0..SCALE {
                let at = (x * SCALE + dx) * 4 + (y * SCALE + dy) * pitch;
                assert_eq!(&fb.buf[at..at + 4], &cell);
            }
        }
    }
    // the bytes between the end of a row and the next one are left alone
    for row in [0usize, 1, 400, 799] {
        let gap = row * pitch + RES_X * SCALE * 4;
        assert!(fb.buf[gap..gap + 32].iter().all(|b| *b == 0xee));
    }
    assert_eq!(fb.buf.len(), len);
}

#[test]
fn frame_fits_a_framebuffer_that_ends_with_it() {
    let pitch = RES_X * SCALE * 4;
    let len = (RES_X * SCALE - SCALE) * 4 + (RES_Y * SCALE - 1) * pitch + 4 * SCALE;
    let mut fb = blank(pitch, len);
    let cells = vec![[1u8, 2, 3, 4]; RES_X * RES_Y];
    draw_frame(&mut fb, &cells);
    assert!(fb.buf.chunks(4).all(|c| c == [1, 2, 3, 4]));
}

#[test]
fn red_and_blue_change_places() {
    assert_eq!(reorder(1, 2, 3), (3, 2, 1));
    assert_eq!(reorder(0xff, 0, 0), (0, 0, 0xff));
    assert_eq!(reorder(7, 7, 7), (7, 7, 7));
    let (r, g, b) = reorder(10, 20, 30);
    assert_eq!(reorder(r, g, b), (10, 20, 30));
}
