use plato::framebuffer::{
    set_pixel_rgb_32, Bitfield, FixScreenInfo, Framebuffer, Mode, MxcfbRect, VarScreenInfo,
    NTX_WFM_MODE_A2, NTX_WFM_MODE_GC16, TEMP_USE_AMBIENT, UPDATE_MODE_FULL, UPDATE_MODE_PARTIAL,
    WAVEFORM_MODE_AUTO,
};
use plato::geom::{Point, Rectangle};

fn bitfield() -> Bitfield {
    Bitfield { offset: 0, length: 0, msb_right: 0 }
}

fn var_info(xres: u32, yres: u32, bits_per_pixel: u32) -> VarScreenInfo {
    VarScreenInfo {
        xres, yres, xres_virtual: xres, yres_virtual: yres, xoffset: 0, yoffset: 0, bits_per_pixel,
        grayscale: 0, red: bitfield(), green: bitfield(), blue: bitfield(), transp: bitfield(),
        nonstd: 0, activate: 0, height: 0, width: 0, accel_flags: 0, pixclock: 0, left_margin: 0,
        right_margin: 0, upper_margin: 0, lower_margin: 0, hsync_len: 0, vsync_len: 0, sync: 0,
        vmode: 0, rotate: 0, colorspace: 0, reserved: [0; 4],
    }
}

fn fix_info(line_length: u32, smem_len: u32) -> FixScreenInfo {
    FixScreenInfo {
        id: [0; 16], smem_start: 0, smem_len, kind: 0, type_aux: 0, visual: 0, xpanstep: 0,
        ypanstep: 0, ywrapstep: 0, line_length, mmio_start: 0, mmio_len: 0, accel: 0,
        capabilities: 0, reserved: [0; 2],
    }
}

// A 3×3 screen of RGB 565 pixels, every byte 0x11.
fn screen() -> Framebuffer {
    Framebuffer::new(var_info(3, 3, 16), fix_info(6, 18), vec![0x11; 18])
}

// The pixels of the 3×3 screen that are no longer 0x11 0x11.
fn painted(fb: &Framebuffer) -> Vec<(u32, u32)> {
    let mut v = Vec::new();
    for y in 0..3u32 {
        for x in 0..3u32 {
            let a = (2 * x + 6 * y) as usize;
            if fb.memory_bytes()[a..a + 2] != [0x11, 0x11] {
                v.push((x, y));
            }
        }
    }
    v
}

#[test]
fn new_frame_buffer_maps_its_memory() {
    let fb = screen();
    assert_eq!(fb.length(), 18);
    assert_eq!(fb.dims(), (3, 3));
    assert_eq!(fb.bytes_per_pixel, 2);
    let small = Framebuffer::new(var_info(3, 3, 16), fix_info(6, 12), vec![0; 12]);
    assert_eq!(small.length(), 12);
}

#[test]
fn gray_pixels_are_rgb565() {
    let mut fb = screen();
    fb.set_pixel(1, 2, 0xFF);
    assert_eq!(&fb.memory_bytes()[14..16], &[0xFF, 0xFF]);
    fb.set_pixel(0, 0, 0x00);
    assert_eq!(&fb.memory_bytes()[0..2], &[0x00, 0x00]);
    let rgb = fb.as_rgb();
    assert_eq!(rgb.len(), 27);
    assert_eq!(&rgb[0..3], &[0, 0, 0]);
    assert_eq!(&rgb[21..24], &[0xF8, 0xFC, 0xF8]);
}

#[test]
fn bgra_pixels() {
    let mut fb = Framebuffer::new(var_info(1, 1, 32), fix_info(4, 4), vec![9; 4]);
    set_pixel_rgb_32(&mut fb, 0, 0, [1, 2, 3]);
    assert_eq!(fb.memory_bytes(), &[3, 2, 1, 9]);
    fb.set_pixel(0, 0, 0x80);
    assert_eq!(fb.memory_bytes(), &[0x80, 0x80, 0x80, 9]);
    assert_eq!(fb.as_rgb(), vec![0x80, 0x80, 0x80]);
}

#[test]
fn line_segments_follow_bresenham() {
    let mut fb = screen();
    fb.draw_line_segment(&Point::new(0, 0), &Point::new(2, 1), 0);
    assert_eq!(painted(&fb), vec![(0, 0), (1, 0), (2, 1)]);
    let mut steep = screen();
    steep.draw_line_segment(&Point::new(1, 2), &Point::new(0, 0), 0);
    assert_eq!(painted(&steep), vec![(0, 0), (0, 1), (1, 2)]);
    let mut dot = screen();
    dot.draw_line_segment(&Point::new(2, 2), &Point::new(2, 2), 0);
    assert_eq!(painted(&dot), vec![(2, 2)]);
}

#[test]
fn disks_are_clipped_to_the_screen() {
    let mut fb = screen();
    let r = fb.draw_disk(&Point::new(1, 1), 1, 0);
    assert_eq!(r, Rectangle::new(Point::new(0, 0), Point::new(3, 3)));
    assert_eq!(painted(&fb), vec![(1, 0), (0, 1), (1, 1), (2, 1), (1, 2)]);
    let mut corner = screen();
    let r = corner.draw_disk(&Point::new(0, 0), 1, 0);
    assert_eq!(r, Rectangle::new(Point::new(0, 0), Point::new(2, 2)));
    assert_eq!(painted(&corner), vec![(0, 0), (1, 0), (0, 1)]);
}

#[test]
fn update_requests_carry_the_token_and_flags() {
    let mut fb = screen();
    let rect = MxcfbRect { top: 1, left: 2, width: 3, height: 4 };
    let u = fb.update_request(rect, Mode::Fast);
    assert_eq!((u.update_mode, u.waveform_mode), (UPDATE_MODE_PARTIAL, NTX_WFM_MODE_A2));
    assert_eq!(u.update_marker, 1);
    assert_eq!(u.temp, TEMP_USE_AMBIENT);
    assert_eq!(u.flags, 0);
    assert_eq!(u.update_region, rect);
    let u = fb.update_request(rect, Mode::Partial);
    assert_eq!((u.update_mode, u.waveform_mode), (UPDATE_MODE_PARTIAL, WAVEFORM_MODE_AUTO));
    let u = fb.update_request(rect, Mode::Gui);
    assert_eq!((u.update_mode, u.waveform_mode), (UPDATE_MODE_FULL, WAVEFORM_MODE_AUTO));
    let u = fb.update_request(rect, Mode::Full);
    assert_eq!((u.update_mode, u.waveform_mode), (UPDATE_MODE_FULL, NTX_WFM_MODE_GC16));
    assert_eq!(fb.confirm_update(), 1);
    assert_eq!(fb.update_request(rect, Mode::Full).update_marker, 2);
    fb.toggle_monochrome();
    assert_eq!(fb.update_request(rect, Mode::Full).flags, 0x02);
    fb.toggle_inverse();
    assert_eq!(fb.update_request(rect, Mode::Full).flags, 0x03);
    fb.toggle_monochrome();
    fb.toggle_inverse();
    assert_eq!(fb.update_request(rect, Mode::Full).flags, 0);
}
