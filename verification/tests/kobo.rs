use plato::framebuffer::{Bitfield, FixScreenInfo, VarScreenInfo};
use plato::kobo::{set_pixel_rgb_16, set_pixel_rgb_32, set_pixel_rgb_8, DitherMode, KoboFramebuffer, UpdateKind, Waveform};

fn bitfield() -> Bitfield {
    Bitfield { offset: 0, length: 0, msb_right: 0 }
}

fn var_info(xres: u32, yres: u32, xres_virtual: u32, bits_per_pixel: u32) -> VarScreenInfo {
    VarScreenInfo {
        xres, yres, xres_virtual, yres_virtual: yres, xoffset: 0, yoffset: 0, bits_per_pixel,
        grayscale: 0, red: bitfield(), green: bitfield(), blue: bitfield(), transp: bitfield(),
        nonstd: 0, activate: 0, height: 0, width: 0, accel_flags: 0, pixclock: 0, left_margin: 0,
        right_margin: 0, upper_margin: 0, lower_margin: 0, hsync_len: 0, vsync_len: 0, sync: 0,
        vmode: 0, rotate: 3, colorspace: 0, reserved: [0; 4],
    }
}

fn fix_info(line_length: u32) -> FixScreenInfo {
    FixScreenInfo {
        id: [0; 16], smem_start: 0, smem_len: 0, kind: 0, type_aux: 0, visual: 0, xpanstep: 0,
        ypanstep: 0, ywrapstep: 0, line_length, mmio_start: 0, mmio_len: 0, accel: 0,
        capabilities: 0, reserved: [0; 2],
    }
}

#[test]
fn rgb565_pixels_round_trip_with_low_bits_cleared() {
    let mut fb = KoboFramebuffer::new(var_info(2, 2, 3, 16), fix_info(6), vec![0; 12], Vec::new(), 6);
    set_pixel_rgb_16(&mut fb, 1, 0, [0xFF, 0x80, 0x10]);
    assert_eq!(&fb.memory_bytes()[2..4], &[0x02, 0xFC]);
    assert_eq!(fb.as_rgb(), vec![0, 0, 0, 0xF8, 0x80, 0x10, 0, 0, 0, 0, 0, 0]);
    fb.set_pixel(0, 1, 0xFF);
    assert_eq!(&fb.as_rgb()[6..9], &[0xF8, 0xFC, 0xF8]);
    assert_eq!(fb.rotation(), 3);
    assert_eq!((fb.width(), fb.height()), (2, 2));
}

#[test]
fn gray_and_bgra_pixels() {
    let mut g = KoboFramebuffer::new(var_info(2, 1, 2, 8), fix_info(2), vec![0; 2], Vec::new(), 6);
    set_pixel_rgb_8(&mut g, 1, 0, [0x42, 1, 2]);
    assert_eq!(g.as_rgb(), vec![0, 0, 0, 0x42, 0x42, 0x42]);
    let mut c = KoboFramebuffer::new(var_info(1, 1, 1, 32), fix_info(4), vec![9; 4], Vec::new(), 6);
    set_pixel_rgb_32(&mut c, 0, 0, [1, 2, 3]);
    assert_eq!(c.memory_bytes(), &[3, 2, 1, 9]);
    assert_eq!(c.as_rgb(), vec![1, 2, 3]);
}

#[test]
fn flags_and_modes() {
    let mut fb = KoboFramebuffer::new(var_info(1, 1, 1, 8), fix_info(1), vec![0; 1], vec![0; 128 * 128], 6);
    assert!(!fb.inverted());
    fb.set_inverted(true);
    assert!(fb.inverted());
    fb.set_inverted(false);
    assert!(!fb.inverted());
    fb.set_monochrome(true);
    assert!(fb.monochrome());
    fb.set_dithered(true);
    assert!(fb.dithered());
    fb.set_pixel(0, 0, 100);
    assert_eq!(fb.memory_bytes()[0], 102);
    fb.set_dithered(false);
    fb.set_pixel(0, 0, 100);
    assert_eq!(fb.memory_bytes()[0], 100);
}

#[test]
fn update_plans_follow_the_device_and_modes() {
    let mut old = KoboFramebuffer::new(var_info(1, 1, 1, 8), fix_info(1), vec![0; 1], Vec::new(), 6);
    let p = old.update_plan(UpdateKind::Partial, true);
    assert!(p.full && p.use_aad && !p.second_form);
    assert_eq!(p.waveform, Waveform::Gld16);
    assert_eq!(old.update_plan(UpdateKind::Partial, false).waveform, Waveform::Gl16);
    old.set_monochrome(true);
    let p = old.update_plan(UpdateKind::Gui, false);
    assert_eq!(p.waveform, Waveform::A2);
    assert!(p.force_monochrome);
    let p = old.update_plan(UpdateKind::Full, false);
    assert_eq!(p.waveform, Waveform::Gc16);
    assert!(!p.force_monochrome);
    assert_eq!(old.update_plan(UpdateKind::Full, false).marker, 1);
    assert_eq!(old.confirm_update(), 1);
    assert_eq!(old.update_plan(UpdateKind::Fast, false).marker, 2);

    let mut new = KoboFramebuffer::new(var_info(1, 1, 1, 8), fix_info(1), vec![0; 1], vec![0; 128 * 128], 8);
    let p = new.update_plan(UpdateKind::Partial, false);
    assert_eq!((p.waveform, p.full, p.second_form), (Waveform::Glr16, false, true));
    new.set_dithered(true);
    let p = new.update_plan(UpdateKind::Full, false);
    assert_eq!((p.dither_mode, p.quant_bit), (DitherMode::Ordered, 7));
    let p = new.update_plan(UpdateKind::Fast, false);
    assert_eq!((p.dither_mode, p.quant_bit), (DitherMode::Passthrough, 0));
    new.set_monochrome(true);
    let p = new.update_plan(UpdateKind::Gui, false);
    assert_eq!(p.waveform, Waveform::Du);
    assert!(p.dithering_y1 && !p.force_monochrome);
    let p = new.update_plan(UpdateKind::FastMono, false);
    assert_eq!(p.waveform, Waveform::A2);
    assert!(p.force_monochrome && p.dithering_y1);
}
