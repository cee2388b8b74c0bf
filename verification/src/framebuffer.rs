use vstd::prelude::*;
use crate::geom::{Point, Rectangle, fits_i32};
use crate::kobo::{
    frame_rgb, gray_written, offset_fits, pixel_offset, pixels_read, read_rgb, rgb565_bytes,
    visible_pixels_whole, written_bytes, PixelFormat, EPDC_FLAG_ENABLE_INVERSION,
};

verus! {

pub const WHITE: u8 = 0xFF;

#[derive(Debug, Copy, Clone, PartialEq, Eq, Structural)]
pub enum UpdateMode {
    Fast,
    Partial,
    Gui,
    Full,
    Clear,
}

#[derive(Debug, Copy, Clone, PartialEq, Eq, Structural)]
pub enum Mode {
    Fast,
    Partial,
    Gui,
    Full,
}

/// A gray bitmap, one byte per pixel, row after row.
#[derive(Debug, Clone)]
pub struct Bitmap {
    pub width: i32,
    pub height: i32,
    pub buf: Vec<u8>,
}

/// The fixed screen information of the Linux frame buffer device.
#[derive(Clone, Debug)]
pub struct FixScreenInfo {
    pub id: [u8; 16],
    pub smem_start: usize,
    pub smem_len: u32,
    pub kind: u32,
    pub type_aux: u32,
    pub visual: u32,
    pub xpanstep: u16,
    pub ypanstep: u16,
    pub ywrapstep: u16,
    pub line_length: u32,
    pub mmio_start: usize,
    pub mmio_len: u32,
    pub accel: u32,
    pub capabilities: u16,
    pub reserved: [u16; 2],
}

#[derive(Clone, Debug, Copy, PartialEq, Eq, Structural)]
pub struct Bitfield {
    pub offset: u32,
    pub length: u32,
    pub msb_right: u32,
}

/// The variable screen information of the Linux frame buffer device.
#[derive(Clone, Debug)]
pub struct VarScreenInfo {
    pub xres: u32,
    pub yres: u32,
    pub xres_virtual: u32,
    pub yres_virtual: u32,
    pub xoffset: u32,
    pub yoffset: u32,
    pub bits_per_pixel: u32,
    pub grayscale: u32,
    pub red: Bitfield,
    pub green: Bitfield,
    pub blue: Bitfield,
    pub transp: Bitfield,
    pub nonstd: u32,
    pub activate: u32,
    pub height: u32,
    pub width: u32,
    pub accel_flags: u32,
    pub pixclock: u32,
    pub left_margin: u32,
    pub right_margin: u32,
    pub upper_margin: u32,
    pub lower_margin: u32,
    pub hsync_len: u32,
    pub vsync_len: u32,
    pub sync: u32,
    pub vmode: u32,
    pub rotate: u32,
    pub colorspace: u32,
    pub reserved: [u32; 4],
}

/// The region of an e-ink update.
#[derive(Clone, Debug, Copy, PartialEq, Eq, Structural)]
pub struct MxcfbRect {
    pub top: u32,
    pub left: u32,
    pub width: u32,
    pub height: u32,
}

impl MxcfbRect {
    /// The update region of a rectangle of the screen.
    pub fn from_rectangle(rect: Rectangle) -> (r: MxcfbRect)
        requires
            fits_i32(rect.max.x - rect.min.x),
            fits_i32(rect.max.y - rect.min.y),
        ensures
            r.top == rect.min.y as u32,
            r.left == rect.min.x as u32,
            r.width == rect.spec_width(),
            r.height == rect.spec_height(),
    {
        MxcfbRect {
            top: rect.min.y as u32,
            left: rect.min.x as u32,
            width: rect.width(),
            height: rect.height(),
        }
    }
}

/// A gray image in memory: one byte per pixel, row after row.
#[derive(Debug, Clone)]
pub struct Pixmap {
    pub width: u32,
    pub height: u32,
    pub data: Vec<u8>,
}

/// The byte of the pixel `(x, y)` in an image `width` pixels wide.
pub open spec fn pixel_address(width: int, x: int, y: int) -> int {
    y * width + x
}

impl Pixmap {
    pub open spec fn well_formed(self) -> bool {
        self.data@.len() == self.width * self.height
    }

    /// A white image of the given size.
    pub fn new(width: u32, height: u32) -> (p: Pixmap)
        requires
            width * height <= u32::MAX,
        ensures
            p.width == width,
            p.height == height,
            p.data@ == Seq::new((width * height) as nat, |i: int| WHITE),
            p.well_formed(),
    {
        let len = (width * height) as usize;
        let data = vec![WHITE; len];
        assert(data@ =~= Seq::new((width * height) as nat, |i: int| WHITE));
        Pixmap { width, height, data }
    }

    pub fn data(&self) -> (d: &[u8])
        ensures
            d@ == self.data@,
    {
        self.data.as_slice()
    }

    pub fn data_mut(&mut self) -> (d: &mut [u8])
        ensures
            d@ == old(self).data@,
            final(self).data@ == final(d)@,
            final(self).width == old(self).width,
            final(self).height == old(self).height,
    {
        self.data.as_mut_slice()
    }

    pub fn dims(&self) -> (d: (u32, u32))
        ensures
            d == (self.width, self.height),
    {
        (self.width, self.height)
    }

    /// Paints one pixel; pixels outside the image are ignored.
    pub fn set_pixel(&mut self, x: u32, y: u32, color: u8)
        requires
            old(self).well_formed(),
            old(self).width * old(self).height <= u32::MAX,
        ensures
            final(self).width == old(self).width,
            final(self).height == old(self).height,
            final(self).data@ == if x < old(self).width && y < old(self).height {
                old(self).data@.update(pixel_address(old(self).width as int, x as int, y as int), color)
            } else {
                old(self).data@
            },
    {
        if x >= self.width || y >= self.height {
            return;
        }
        assert(y * self.width + x < self.width * self.height) by (nonlinear_arith)
            requires
                x < self.width,
                y < self.height,
        ;
        let addr = (y * self.width + x) as usize;
        self.data.set(addr, color);
    }

    /// Applies the region transformation to every pixel of `rect`, which lies inside the
    /// image.
    fn map_region(&mut self, rect: &Rectangle, drift: u8, invert: bool)
        requires
            old(self).well_formed(),
            region_fits(old(self).width as int, *rect),
            0 <= rect.min.x,
            0 <= rect.min.y,
            rect.max.x <= old(self).width,
            rect.max.y <= old(self).height,
        ensures
            final(self).width == old(self).width,
            final(self).height == old(self).height,
            final(self).data@ == mapped_region(old(self).data@, old(self).width as int, *rect, drift, invert),
    {
        let ghost orig = self.data@;
        let ghost wd = self.width as int;
        let mut y = rect.min.y;
        if rect.max.y <= rect.min.y || rect.max.x <= rect.min.x {
            assert(self.data@ =~= mapped_region(orig, wd, *rect, drift, invert));
            return;
        }
        let w = self.width as i64;
        assert(self.data@ =~= partially_mapped(orig, wd, *rect, drift, invert, rect.min.x as int, y as int));
        while y < rect.max.y
            invariant
                self.width == old(self).width,
                self.height == old(self).height,
                w == self.width,
                wd == self.width,
                orig == old(self).data@,
                orig.len() == self.width * self.height,
                0 <= rect.min.x < rect.max.x <= self.width,
                0 <= rect.min.y <= y <= rect.max.y <= self.height,
                self.data@ == partially_mapped(orig, wd, *rect, drift, invert, rect.min.x as int, y as int),
                region_fits(wd, *rect),
            decreases rect.max.y - y,
        {
            let mut x = rect.min.x;
            while x < rect.max.x
                invariant
                    self.width == old(self).width,
                    self.height == old(self).height,
                    w == self.width,
                    wd == self.width,
                        orig.len() == self.width * self.height,
                    0 <= rect.min.x <= x <= rect.max.x <= self.width,
                    0 <= rect.min.y <= y < rect.max.y <= self.height,
                    self.data@ == partially_mapped(orig, wd, *rect, drift, invert, x as int, y as int),
                    region_fits(wd, *rect),
                decreases rect.max.x - x,
            {
                proof {
                    lemma_address_bounds(wd, self.height as int, x as int, y as int);
                    lemma_address_coords(wd, x as int, y as int);
                }
                assert(0 <= y * wd <= (rect.max.y - 1) * wd) by (nonlinear_arith)
                    requires
                        0 <= y <= rect.max.y - 1,
                        wd >= 0,
                ;
                let addr = (y as i64 * w + x as i64) as usize;
                let old_color = self.data[addr];
                let color = if invert {
                    255 - old_color
                } else {
                    old_color.saturating_sub(drift)
                };
                self.data.set(addr, color);
                proof {
                    let a0 = pixel_address(wd, x as int, y as int);
                    assert(self.data@ =~= partially_mapped(orig, wd, *rect, drift, invert, x + 1, y as int)) by {
                        assert forall|a: int| 0 <= a < orig.len() implies #[trigger] self.data@[a]
                            == partially_mapped(orig, wd, *rect, drift, invert, x + 1, y as int)[a] by {
                            if a != a0 {
                                lemma_coords_distinct(wd, a, x as int, y as int);
                            }
                        }
                    }
                }
                x += 1;
            }
            proof {
                assert(partially_mapped(orig, wd, *rect, drift, invert, rect.max.x as int, y as int)
                    =~= partially_mapped(orig, wd, *rect, drift, invert, rect.min.x as int, y + 1));
            }
            y += 1;
        }
        assert(partially_mapped(orig, wd, *rect, drift, invert, rect.min.x as int, rect.max.y as int)
            =~= mapped_region(orig, wd, *rect, drift, invert));
    }

    /// Inverts the colors of a region that lies inside the image.
    pub fn invert_region(&mut self, rect: &Rectangle)
        requires
            old(self).well_formed(),
            region_fits(old(self).width as int, *rect),
            0 <= rect.min.x,
            0 <= rect.min.y,
            rect.max.x <= old(self).width,
            rect.max.y <= old(self).height,
        ensures
            final(self).width == old(self).width,
            final(self).height == old(self).height,
            final(self).data@ == mapped_region(old(self).data@, old(self).width as int, *rect, 0, true),
    {
        self.map_region(rect, 0, true);
    }

    /// Darkens a region that lies inside the image by `drift`, stopping at black.
    pub fn shift_region(&mut self, rect: &Rectangle, drift: u8)
        requires
            old(self).well_formed(),
            region_fits(old(self).width as int, *rect),
            0 <= rect.min.x,
            0 <= rect.min.y,
            rect.max.x <= old(self).width,
            rect.max.y <= old(self).height,
        ensures
            final(self).width == old(self).width,
            final(self).height == old(self).height,
            final(self).data@ == mapped_region(old(self).data@, old(self).width as int, *rect, drift, false),
    {
        self.map_region(rect, drift, false);
    }
}

/// Whether the addresses of the pixels of `rect`, in an image `w` pixels wide, fit `i32`: the
/// last pixel of its last row, `(max.y - 1) * w + max.x - 1`, is at most `i32::MAX` (nothing
/// to fit when the rectangle is empty).
pub open spec fn region_fits(w: int, rect: Rectangle) -> bool {
    rect.max.x <= rect.min.x || rect.max.y <= rect.min.y || (rect.max.y - 1) * w + rect.max.x - 1 <= i32::MAX
}

/// Whether the byte `a` of an image `w` pixels wide belongs to a pixel of `rect`.
pub open spec fn address_in(w: int, a: int, rect: Rectangle) -> bool {
    w > 0 && rect.min.x <= a % w < rect.max.x && rect.min.y <= a / w < rect.max.y
}

/// The image `data` with the pixels of `rect` transformed.
pub open spec fn mapped_region(data: Seq<u8>, w: int, rect: Rectangle, drift: u8, invert: bool) -> Seq<u8> {
    Seq::new(
        data.len(),
        |a: int|
            if address_in(w, a, rect) {
                region_color(data[a], drift, invert)
            } else {
                data[a]
            },
    )
}

/// The image `data` with the pixels of `rect` before `(x, y)`, in reading order, transformed.
pub open spec fn partially_mapped(
    data: Seq<u8>,
    w: int,
    rect: Rectangle,
    drift: u8,
    invert: bool,
    x: int,
    y: int,
) -> Seq<u8> {
    Seq::new(
        data.len(),
        |a: int|
            if address_in(w, a, rect) && (a / w < y || (a / w == y && a % w < x)) {
                region_color(data[a], drift, invert)
            } else {
                data[a]
            },
    )
}

proof fn lemma_address_coords(w: int, x: int, y: int)
    requires
        0 <= x < w,
        0 <= y,
    ensures
        pixel_address(w, x, y) % w == x,
        pixel_address(w, x, y) / w == y,
{
    vstd::arithmetic::div_mod::lemma_fundamental_div_mod_converse(y * w + x, w, y, x);
}

proof fn lemma_coords_distinct(w: int, a: int, x: int, y: int)
    requires
        0 <= x < w,
        0 <= y,
        0 <= a,
        a != pixel_address(w, x, y),
    ensures
        !(a % w == x && a / w == y),
{
    vstd::arithmetic::div_mod::lemma_fundamental_div_mod(a, w);
    if a % w == x && a / w == y {
        assert(a == y * w + x) by (nonlinear_arith)
            requires
                a == w * (a / w) + a % w,
                a % w == x,
                a / w == y,
        ;
    }
}

pub open spec fn region_color(c: u8, drift: u8, invert: bool) -> u8 {
    if invert {
        (255 - c) as u8
    } else if c >= drift {
        (c - drift) as u8
    } else {
        0
    }
}

proof fn lemma_address_bounds(w: int, h: int, x: int, y: int)
    requires
        0 <= x < w,
        0 <= y < h,
    ensures
        0 <= pixel_address(w, x, y) < w * h,
{
    assert(0 <= y * w + x < w * h) by (nonlinear_arith)
        requires
            0 <= x < w,
            0 <= y < h,
    ;
}

/// The side of the square dithering pattern.
pub const DITHER_PITCH: u32 = 128;

/// The gray `c` rounded to the nearest of the sixteen grays `17 * i`.
pub open spec fn nearest_g16(c: int) -> int {
    let d = c % 17;
    if d < 9 {
        c - d
    } else {
        c + (17 - d)
    }
}

/// The color after dithering: the drift of the pattern at `(x, y)` is added, the sum is
/// clamped to `0..=255` and rounded to the nearest of the sixteen grays.
pub open spec fn dithered_g16(x: u32, y: u32, color: u8, drifts: Seq<i8>) -> int {
    let addr = (x % DITHER_PITCH) + (y % DITHER_PITCH) * DITHER_PITCH;
    let s = color + drifts[addr as int];
    let c = if s < 0 {
        0
    } else if s > 255 {
        255
    } else {
        s
    };
    nearest_g16(c)
}

/// Dithers a color to sixteen grays with the blue noise pattern `drifts` (128 × 128
/// drifts, row after row).
pub fn transform_dither_g16(x: u32, y: u32, color: u8, drifts: &[i8]) -> (r: u8)
    requires
        drifts@.len() >= DITHER_PITCH * DITHER_PITCH,
    ensures
        r == dithered_g16(x, y, color, drifts@),
{
    let addr = (x % DITHER_PITCH) + (y % DITHER_PITCH) * DITHER_PITCH;
    let s = color as i16 + drifts[addr as usize] as i16;
    let c = if s < 0 {
        0
    } else if s > 255 {
        255
    } else {
        s
    };
    let d = c % 17;
    if d < 9 {
        (c - d) as u8
    } else {
        (c + (17 - d)) as u8
    }
}

/// The dithered color is one of the sixteen grays, and is at most 8 away from the clamped
/// drifted color.
pub proof fn lemma_dither_is_g16(c: int)
    requires
        0 <= c <= 255,
    ensures
        nearest_g16(c) % 17 == 0,
        0 <= nearest_g16(c) <= 255,
        -8 <= nearest_g16(c) - c <= 8,
{
}

/// The drift of the blue noise pattern for a pixel of the pattern image: `{0 .. 255}` is
/// mapped to `{-9 .. 8}`.
pub fn drift_of(v: u8) -> (d: i8)
    ensures
        d == v / 15 - 9,
{
    (v / 15) as i8 - 9
}

/// Inverting a region twice gives the image back.
pub proof fn lemma_invert_twice(data: Seq<u8>, w: int, rect: Rectangle)
    ensures
        mapped_region(mapped_region(data, w, rect, 0, true), w, rect, 0, true) == data,
{
    assert(mapped_region(mapped_region(data, w, rect, 0, true), w, rect, 0, true) =~= data);
}

/// The waveform that the driver picks by itself.
pub const WAVEFORM_MODE_AUTO: u32 = 0x101;
/// The high fidelity waveform, which flashes.
pub const NTX_WFM_MODE_GC16: u32 = 2;
/// The fast waveform of low fidelity.
pub const NTX_WFM_MODE_A2: u32 = 4;
/// An update of the changed pixels only.
pub const UPDATE_MODE_PARTIAL: u32 = 0x0;
/// An update of the whole region.
pub const UPDATE_MODE_FULL: u32 = 0x1;
/// The temperature of the update: the one around.
pub const TEMP_USE_AMBIENT: i32 = 0x1000;
/// The flag of an update that forces black and white.
pub const EPDC_FLAG_FORCE_MONOCHROME: u32 = 0x02;

/// What an update asks of the driver: the region, the waveform, the mode, the marker that
/// identifies it, the temperature and the flags.
#[derive(Debug, Copy, Clone, PartialEq, Eq, Structural)]
pub struct UpdateRequest {
    pub update_region: MxcfbRect,
    pub waveform_mode: u32,
    pub update_mode: u32,
    pub update_marker: u32,
    pub temp: i32,
    pub flags: u32,
}

/// The update mode and waveform of each mode of update.
pub open spec fn update_modes(mode: Mode) -> (u32, u32) {
    match mode {
        Mode::Fast => (UPDATE_MODE_PARTIAL, NTX_WFM_MODE_A2),
        Mode::Partial => (UPDATE_MODE_PARTIAL, WAVEFORM_MODE_AUTO),
        Mode::Gui => (UPDATE_MODE_FULL, WAVEFORM_MODE_AUTO),
        Mode::Full => (UPDATE_MODE_FULL, NTX_WFM_MODE_GC16),
    }
}

/// A frame buffer device: its screen information, its update state and the memory that it
/// maps, which holds the pixels in RGB 565 or BGRA 8888.
pub struct Framebuffer {
    frame: Vec<u8>,
    frame_size: usize,
    token: u32,
    flags: u32,
    format: PixelFormat,
    pub bytes_per_pixel: u8,
    pub var_info: VarScreenInfo,
    pub fix_info: FixScreenInfo,
}

/// The size of the mapped memory of a screen: its virtual pixels, at most the memory of the
/// device.
pub open spec fn mapped_size(var_info: VarScreenInfo, fix_info: FixScreenInfo) -> int {
    let full = var_info.xres_virtual * var_info.yres_virtual * (var_info.bits_per_pixel / 8);
    if full > fix_info.smem_len {
        fix_info.smem_len as int
    } else {
        full
    }
}

impl Framebuffer {
    pub closed spec fn memory(self) -> Seq<u8> {
        self.frame@
    }

    pub closed spec fn size_of_frame(self) -> int {
        self.frame_size as int
    }

    pub closed spec fn format_of(self) -> PixelFormat {
        self.format
    }

    pub closed spec fn token_of(self) -> u32 {
        self.token
    }

    pub closed spec fn flags_of(self) -> u32 {
        self.flags
    }

    /// The variable information of the screen.
    pub closed spec fn screen(self) -> VarScreenInfo {
        self.var_info
    }

    /// The fixed information of the screen.
    pub closed spec fn fixed(self) -> FixScreenInfo {
        self.fix_info
    }

    /// The bytes of a pixel.
    pub closed spec fn pixel_bytes(self) -> u8 {
        self.bytes_per_pixel
    }

    /// Where the pixel `(x, y)` starts in the memory.
    pub closed spec fn offset_of(self, x: u32, y: u32) -> int {
        pixel_offset(self.var_info.xoffset, self.var_info.yoffset, self.bytes_per_pixel, self.fix_info.line_length, x, y)
    }

    /// Whether the pixel `(x, y)` can be written: its offset is computed without overflow and
    /// lies within the frame, and its `n` bytes within the memory.
    pub closed spec fn reaches(self, x: u32, y: u32, n: int) -> bool {
        &&& offset_fits(self.var_info.xoffset, self.var_info.yoffset, self.bytes_per_pixel, self.fix_info.line_length, x, y)
        &&& self.offset_of(x, y) < self.frame_size
        &&& self.offset_of(x, y) + n <= self.frame@.len()
    }

    /// Whether two states differ in the memory only.
    pub closed spec fn same_but_memory(self, other: Self) -> bool {
        &&& self.frame_size == other.frame_size
        &&& self.token == other.token
        &&& self.flags == other.flags
        &&& self.format == other.format
        &&& self.bytes_per_pixel == other.bytes_per_pixel
        &&& self.var_info == other.var_info
        &&& self.fix_info == other.fix_info
        &&& self.frame@.len() == other.frame@.len()
    }

    /// The frame buffer of a screen of the given information over its mapped memory, whose size
    /// the information decides; four bytes per pixel above 16 bits per pixel, two otherwise.
    pub fn new(var_info: VarScreenInfo, fix_info: FixScreenInfo, frame: Vec<u8>) -> (fb: Framebuffer)
        requires
            var_info.bits_per_pixel % 8 == 0,
            var_info.xres_virtual * var_info.yres_virtual <= u32::MAX,
            var_info.xres_virtual * var_info.yres_virtual * (var_info.bits_per_pixel / 8) <= u32::MAX,
            var_info.yres * fix_info.line_length <= u32::MAX,
            mapped_size(var_info, fix_info) >= var_info.yres * fix_info.line_length,
            frame@.len() == mapped_size(var_info, fix_info),
        ensures
            fb.memory() == frame@,
            fb.size_of_frame() == mapped_size(var_info, fix_info),
            fb.format_of() == if var_info.bits_per_pixel > 16 {
                PixelFormat::Bgra8888
            } else {
                PixelFormat::Rgb565
            },
            fb.token_of() == 1,
            fb.flags_of() == 0,
            fb.screen() == var_info,
            fb.fixed() == fix_info,
            fb.pixel_bytes() == (var_info.bits_per_pixel / 8) as u8,
    {
        let bytes_per_pixel = var_info.bits_per_pixel / 8;
        let full = var_info.xres_virtual * var_info.yres_virtual * bytes_per_pixel;
        let frame_size = if full > fix_info.smem_len {
            fix_info.smem_len as usize
        } else {
            full as usize
        };
        let format = if var_info.bits_per_pixel > 16 {
            PixelFormat::Bgra8888
        } else {
            PixelFormat::Rgb565
        };
        Framebuffer {
            frame,
            frame_size,
            token: 1,
            flags: 0,
            format,
            bytes_per_pixel: #[verifier::truncate] (bytes_per_pixel as u8),
            var_info,
            fix_info,
        }
    }

    /// The memory of the frame.
    pub fn memory_bytes(&self) -> (m: &[u8])
        ensures
            m@ == self.memory(),
    {
        self.frame.as_slice()
    }

    /// The byte where the pixel `(x, y)` starts.
    fn address(&self, x: u32, y: u32) -> (a: usize)
        requires
            offset_fits(self.var_info.xoffset, self.var_info.yoffset, self.bytes_per_pixel, self.fix_info.line_length, x, y),
        ensures
            a == self.offset_of(x, y),
    {
        let a = (self.var_info.xoffset as isize + x as isize) * (self.bytes_per_pixel as isize)
            + (self.var_info.yoffset as isize + y as isize) * (self.fix_info.line_length as isize);
        a as usize
    }

    /// Paints one pixel with a gray.
    pub fn set_pixel(&mut self, x: u32, y: u32, gray: u8)
        requires
            old(self).reaches(x, y, written_bytes(old(self).format_of())),
            old(self).format_of() != PixelFormat::Gray8,
        ensures
            final(self).memory() == gray_written(old(self).memory(), old(self).format_of(), old(self).offset_of(x, y), gray),
            final(self).same_but_memory(*old(self)),
    {
        match self.format {
            PixelFormat::Bgra8888 => set_pixel_rgb_32(self, x, y, [gray, gray, gray]),
            _ => set_pixel_rgb_16(self, x, y, [gray, gray, gray]),
        }
    }

    /// Flips the inversion of the colors.
    pub fn toggle_inverse(&mut self)
        ensures
            final(self).flags_of() == old(self).flags_of() ^ EPDC_FLAG_ENABLE_INVERSION,
            final(self).memory() == old(self).memory(),
            final(self).token_of() == old(self).token_of(),
    {
        self.flags ^= EPDC_FLAG_ENABLE_INVERSION;
    }

    /// Flips the black and white mode.
    pub fn toggle_monochrome(&mut self)
        ensures
            final(self).flags_of() == old(self).flags_of() ^ EPDC_FLAG_FORCE_MONOCHROME,
            final(self).memory() == old(self).memory(),
            final(self).token_of() == old(self).token_of(),
    {
        self.flags ^= EPDC_FLAG_FORCE_MONOCHROME;
    }

    /// The size of the screen.
    pub fn dims(&self) -> (d: (u32, u32))
        ensures
            d == (self.screen().xres, self.screen().yres),
    {
        (self.var_info.xres, self.var_info.yres)
    }

    /// The size of the mapped memory.
    pub fn length(&self) -> (n: usize)
        ensures
            n == self.size_of_frame(),
    {
        self.frame_size
    }

    /// What an update of a region in a mode asks of the driver: the marker is the current
    /// token.
    pub fn update_request(&self, rect: MxcfbRect, mode: Mode) -> (u: UpdateRequest)
        ensures
            u.update_region == rect,
            (u.update_mode, u.waveform_mode) == update_modes(mode),
            u.update_marker == self.token_of(),
            u.temp == TEMP_USE_AMBIENT,
            u.flags == self.flags_of(),
    {
        let (update_mode, waveform_mode) = match mode {
            Mode::Fast => (UPDATE_MODE_PARTIAL, NTX_WFM_MODE_A2),
            Mode::Partial => (UPDATE_MODE_PARTIAL, WAVEFORM_MODE_AUTO),
            Mode::Gui => (UPDATE_MODE_FULL, WAVEFORM_MODE_AUTO),
            Mode::Full => (UPDATE_MODE_FULL, NTX_WFM_MODE_GC16),
        };
        UpdateRequest {
            update_region: rect,
            waveform_mode,
            update_mode,
            update_marker: self.token,
            temp: TEMP_USE_AMBIENT,
            flags: self.flags,
        }
    }

    /// Records that the driver took an update: gives its marker and moves the token on,
    /// wrapping around.
    pub fn confirm_update(&mut self) -> (marker: u32)
        ensures
            marker == old(self).token_of(),
            final(self).token_of() == (if old(self).token_of() == u32::MAX {
                0
            } else {
                old(self).token_of() + 1
            }),
            final(self).memory() == old(self).memory(),
            final(self).flags_of() == old(self).flags_of(),
    {
        let marker = self.token;
        self.token = self.token.wrapping_add(1);
        marker
    }

    /// The visible pixels of the frame, row after row, in RGB 888.
    pub fn as_rgb(&self) -> (rgb: Vec<u8>)
        requires
            self.screen().xres * self.screen().yres * 3 <= u32::MAX,
            self.screen().yres * self.screen().xres_virtual <= usize::MAX,
            self.size_of_frame() <= self.memory().len(),
            visible_pixels_whole(
                self.size_of_frame(),
                self.format_of(),
                pixels_read(self.size_of_frame(), self.format_of(), self.screen().yres as int, self.screen().xres_virtual as int),
                self.screen().xres_virtual as int,
                self.screen().xres as int,
            ),
        ensures
            rgb@ == frame_rgb(
                self.memory(),
                self.format_of(),
                pixels_read(self.size_of_frame(), self.format_of(), self.screen().yres as int, self.screen().xres_virtual as int),
                self.screen().xres_virtual as int,
                self.screen().xres as int,
            ),
    {
        read_rgb(
            &self.frame,
            self.frame_size,
            self.format,
            self.var_info.xres,
            self.var_info.yres,
            self.var_info.xres_virtual,
        )
    }
}

/// Writes a pixel of two bytes of RGB 565.
pub fn set_pixel_rgb_16(fb: &mut Framebuffer, x: u32, y: u32, rgb: [u8; 3])
    requires
        old(fb).reaches(x, y, 2),
    ensures
        ({
            let (lo, hi) = rgb565_bytes(rgb@[0], rgb@[1], rgb@[2]);
            let a = old(fb).offset_of(x, y);
            final(fb).memory() == old(fb).memory().update(a, lo).update(a + 1, hi)
        }),
        final(fb).same_but_memory(*old(fb)),
{
    let addr = fb.address(x, y);
    let lo = (rgb[2] >> 3u8) | ((rgb[1] & 0x1Cu8) << 3u8);
    let hi = (rgb[0] & 0xF8u8) | (rgb[1] >> 5u8);
    fb.frame.set(addr, lo);
    fb.frame.set(addr + 1, hi);
}

/// Writes a pixel of four bytes of BGRA 8888, the alpha left as it was.
pub fn set_pixel_rgb_32(fb: &mut Framebuffer, x: u32, y: u32, rgb: [u8; 3])
    requires
        old(fb).reaches(x, y, 3),
    ensures
        ({
            let a = old(fb).offset_of(x, y);
            final(fb).memory() == old(fb).memory().update(a, rgb@[2]).update(a + 1, rgb@[1]).update(a + 2, rgb@[0])
        }),
        final(fb).same_but_memory(*old(fb)),
{
    let addr = fb.address(x, y);
    fb.frame.set(addr, rgb[2]);
    fb.frame.set(addr + 1, rgb[1]);
    fb.frame.set(addr + 2, rgb[0]);
}

/// The memory after gray pixels are painted, one after the other, at the given points.
pub open spec fn painted(
    bytes: Seq<u8>,
    format: PixelFormat,
    xo: u32,
    yo: u32,
    bpp: u8,
    ll: u32,
    pts: Seq<(int, int)>,
    gray: u8,
) -> Seq<u8>
    decreases pts.len(),
{
    if pts.len() == 0 {
        bytes
    } else {
        gray_written(
            painted(bytes, format, xo, yo, bpp, ll, pts.drop_last(), gray),
            format,
            pixel_offset(xo, yo, bpp, ll, pts.last().0 as u32, pts.last().1 as u32),
            gray,
        )
    }
}

/// Whether `(x, y)` lies within squared distance `r2` of `(cx, cy)`.
pub open spec fn in_disk(cx: int, cy: int, r2: int, x: int, y: int) -> bool {
    (cx - x) * (cx - x) + (cy - y) * (cy - y) <= r2
}

/// The squared distances of the points of a box to `(cx, cy)`, and their parts, fit `i32`.
pub open spec fn box_fits(cx: int, cy: int, x_min: int, x_max: int, y_min: int, y_max: int) -> bool {
    forall|x: int, y: int|
        x_min <= x < x_max && y_min <= y < y_max ==> (cx - x) * (cx - x) <= i32::MAX && (cy - y) * (cy - y)
            <= i32::MAX && #[trigger] in_disk(cx, cy, i32::MAX as int, x, y)
}

/// The points of the disk in column `x`, rows `y_from..y_to`, from the top down.
pub open spec fn disk_column(cx: int, cy: int, r2: int, x: int, y_from: int, y_to: int) -> Seq<(int, int)>
    decreases y_to - y_from,
{
    if y_to <= y_from {
        Seq::empty()
    } else {
        disk_column(cx, cy, r2, x, y_from, y_to - 1) + if in_disk(cx, cy, r2, x, y_to - 1) {
            seq![(x, y_to - 1)]
        } else {
            Seq::empty()
        }
    }
}

/// The points of the disk in columns `x_from..x_to` and rows `y_from..y_to`, column after
/// column.
pub open spec fn disk_points(cx: int, cy: int, r2: int, x_from: int, x_to: int, y_from: int, y_to: int) -> Seq<(int, int)>
    decreases x_to - x_from,
{
    if x_to <= x_from {
        Seq::empty()
    } else {
        disk_points(cx, cy, r2, x_from, x_to - 1, y_from, y_to) + disk_column(cx, cy, r2, x_to - 1, y_from, y_to)
    }
}

/// The box of the disk of a center and radius, on a screen of the given size.
pub open spec fn disk_box(c: Point, radius: int, width: int, height: int) -> (int, int, int, int) {
    let x_min = if c.x - radius > 0 { c.x - radius } else { 0 };
    let x_max = if width < c.x + radius + 1 { width } else { c.x + radius + 1 };
    let y_min = if c.y - radius > 0 { c.y - radius } else { 0 };
    let y_max = if height < c.y + radius + 1 { height } else { c.y + radius + 1 };
    (x_min, x_max, y_min, y_max)
}

impl Framebuffer {
    /// Whether all the points can be painted.
    pub open spec fn reaches_all(self, pts: Seq<(int, int)>) -> bool {
        forall|k: int| 0 <= k < pts.len() ==> #[trigger] self.reaches(pts[k].0 as u32, pts[k].1 as u32, written_bytes(self.format_of()))
    }

    /// The memory after gray pixels are painted at the given points.
    pub open spec fn painted_at(self, pts: Seq<(int, int)>, gray: u8) -> Seq<u8> {
        painted(
            self.memory(),
            self.format_of(),
            self.screen().xoffset,
            self.screen().yoffset,
            self.pixel_bytes(),
            self.fixed().line_length,
            pts,
            gray,
        )
    }

    /// Paints the disk of a center and radius, within the screen, and gives the box of it
    /// that lies on the screen.
    pub fn draw_disk(&mut self, center: &Point, radius: u32, gray: u8) -> (r: Rectangle)
        requires
            radius <= i32::MAX,
            radius * radius <= u32::MAX,
            i32::MIN <= center.x - radius && center.x + radius + 1 <= i32::MAX,
            i32::MIN <= center.y - radius && center.y + radius + 1 <= i32::MAX,
            old(self).screen().xres <= i32::MAX && old(self).screen().yres <= i32::MAX,
            ({
                let (x_min, x_max, y_min, y_max) = disk_box(*center, radius as int, old(self).screen().xres as int, old(self).screen().yres as int);
                &&& box_fits(center.x as int, center.y as int, x_min, x_max, y_min, y_max)
                &&& old(self).reaches_all(disk_points(center.x as int, center.y as int, radius * radius, x_min, x_max, y_min, y_max))
            }),
            old(self).format_of() != PixelFormat::Gray8,
        ensures
            ({
                let (x_min, x_max, y_min, y_max) = disk_box(*center, radius as int, old(self).screen().xres as int, old(self).screen().yres as int);
                &&& r == Rectangle { min: Point { x: x_min as i32, y: y_min as i32 }, max: Point { x: x_max as i32, y: y_max as i32 } }
                &&& final(self).memory() == old(self).painted_at(disk_points(center.x as int, center.y as int, radius * radius, x_min, x_max, y_min, y_max), gray)
            }),
            final(self).same_but_memory(*old(self)),
    {
        let (width, height) = self.dims();
        let r = radius as i32;
        let x_min = if center.x - r > 0 { center.x - r } else { 0 };
        let x_max = if (width as i32) < center.x + r + 1 { width as i32 } else { center.x + r + 1 };
        let y_min = if center.y - r > 0 { center.y - r } else { 0 };
        let y_max = if (height as i32) < center.y + r + 1 { height as i32 } else { center.y + r + 1 };
        let r2 = radius * radius;
        let ghost cx = center.x as int;
        let ghost cy = center.y as int;
        let ghost start = *self;
        assert((x_min as int, x_max as int, y_min as int, y_max as int) == disk_box(*center, radius as int, start.screen().xres as int, start.screen().yres as int));
        assert(box_fits(cx, cy, x_min as int, x_max as int, y_min as int, y_max as int));
        let mut x = x_min;
        while x < x_max
            invariant
                0 <= x_min,
                x_min >= center.x - radius && x_max <= center.x + radius + 1,
                y_min >= center.y - radius && y_max <= center.y + radius + 1,
                0 <= y_min,
                radius <= i32::MAX,
                x_min <= x <= x_max || x_max <= x_min == x,
                (x_min as int, x_max as int, y_min as int, y_max as int) == disk_box(*center, radius as int, start.screen().xres as int, start.screen().yres as int),
                r2 == radius * radius,
                self.same_but_memory(start),
                start.format_of() != PixelFormat::Gray8,
                box_fits(cx, cy, x_min as int, x_max as int, y_min as int, y_max as int),
                start.reaches_all(disk_points(cx, cy, r2 as int, x_min as int, x_max as int, y_min as int, y_max as int)),
                self.memory() == start.painted_at(disk_points(cx, cy, r2 as int, x_min as int, x as int, y_min as int, y_max as int), gray),
                cx == center.x && cy == center.y,
            decreases x_max - x,
        {
            let mut y = y_min;
            let ghost done = disk_points(cx, cy, r2 as int, x_min as int, x as int, y_min as int, y_max as int);
            proof {
                lemma_disk_prefix(cx, cy, r2 as int, x_min as int, x as int, x_max as int, y_min as int, y_max as int);
                let all = disk_points(cx, cy, r2 as int, x_min as int, x_max as int, y_min as int, y_max as int);
                let pre = done + disk_column(cx, cy, r2 as int, x as int, y_min as int, y_max as int);
                lemma_reaches_prefix(start, all, pre.len() as int);
            }
            while y < y_max
                invariant
                    0 <= x_min <= x < x_max,
                    0 <= y_min,
                    x_min >= center.x - radius && x_max <= center.x + radius + 1,
                    y_min >= center.y - radius && y_max <= center.y + radius + 1,
                    radius <= i32::MAX,
                    y_min <= y <= y_max || y_max <= y_min == y,
                    (x_min as int, x_max as int, y_min as int, y_max as int) == disk_box(*center, radius as int, start.screen().xres as int, start.screen().yres as int),
                    r2 == radius * radius,
                    self.same_but_memory(start),
                    start.format_of() != PixelFormat::Gray8,
                    box_fits(cx, cy, x_min as int, x_max as int, y_min as int, y_max as int),
                    start.reaches_all(done + disk_column(cx, cy, r2 as int, x as int, y_min as int, y_max as int)),
                    done == disk_points(cx, cy, r2 as int, x_min as int, x as int, y_min as int, y_max as int),
                    self.memory() == start.painted_at(done + disk_column(cx, cy, r2 as int, x as int, y_min as int, y as int), gray),
                    cx == center.x && cy == center.y,
                decreases y_max - y,
            {
                let pt = Point::new(x, y);
                assert(in_disk(cx, cy, i32::MAX as int, x as int, y as int));
                let d = pt.dist2(center);
                let ghost before = done + disk_column(cx, cy, r2 as int, x as int, y_min as int, y as int);
                if d <= r2 {
                    proof {
                        lemma_column_prefix(cx, cy, r2 as int, x as int, y_min as int, y + 1, y_max as int);
                        let cyy = disk_column(cx, cy, r2 as int, x as int, y_min as int, y as int);
                        let cy1 = disk_column(cx, cy, r2 as int, x as int, y_min as int, y + 1);
                        let cmax = disk_column(cx, cy, r2 as int, x as int, y_min as int, y_max as int);
                        assert(in_disk(cx, cy, r2 as int, x as int, y as int));
                        assert(cy1 =~= cyy.push((x as int, y as int)));
                        assert(cmax.take(cy1.len() as int) == cy1);
                        assert(cmax[cyy.len() as int] == cmax.take(cy1.len() as int)[cyy.len() as int]);
                        let k = before.len() as int;
                        let all = done + cmax;
                        assert(all[k] == cmax[cyy.len() as int]);
                        assert(all[k] == (x as int, y as int));
                        assert(start.reaches(all[k].0 as u32, all[k].1 as u32, written_bytes(start.format_of())));
                    }
                    self.set_pixel(x as u32, y as u32, gray);
                    proof {
                        let now = done + disk_column(cx, cy, r2 as int, x as int, y_min as int, y + 1);
                        assert(now =~= before.push((x as int, y as int)));
                        assert(now.drop_last() =~= before);
                    }
                } else {
                    assert(done + disk_column(cx, cy, r2 as int, x as int, y_min as int, y + 1) =~= before);
                }
                y += 1;
            }
            proof {
                if y_max <= y_min {
                    assert(disk_column(cx, cy, r2 as int, x as int, y_min as int, y as int) =~= disk_column(cx, cy, r2 as int, x as int, y_min as int, y_max as int));
                }
                assert(done + disk_column(cx, cy, r2 as int, x as int, y_min as int, y_max as int) =~= disk_points(cx, cy, r2 as int, x_min as int, x + 1, y_min as int, y_max as int));
            }
            x += 1;
        }
        proof {
            if x_max <= x_min {
                assert(disk_points(cx, cy, r2 as int, x_min as int, x as int, y_min as int, y_max as int) =~= disk_points(cx, cy, r2 as int, x_min as int, x_max as int, y_min as int, y_max as int));
            }
        }
        Rectangle { min: Point { x: x_min, y: y_min }, max: Point { x: x_max, y: y_max } }
    }
}

proof fn lemma_disk_prefix(cx: int, cy: int, r2: int, x_from: int, x: int, x_to: int, y_from: int, y_to: int)
    requires
        x_from <= x < x_to,
    ensures
        (disk_points(cx, cy, r2, x_from, x, y_from, y_to) + disk_column(cx, cy, r2, x, y_from, y_to)).len()
            <= disk_points(cx, cy, r2, x_from, x_to, y_from, y_to).len(),
        disk_points(cx, cy, r2, x_from, x_to, y_from, y_to).take(
            (disk_points(cx, cy, r2, x_from, x, y_from, y_to) + disk_column(cx, cy, r2, x, y_from, y_to)).len() as int,
        ) == disk_points(cx, cy, r2, x_from, x, y_from, y_to) + disk_column(cx, cy, r2, x, y_from, y_to),
    decreases x_to - x,
{
    let full = disk_points(cx, cy, r2, x_from, x_to, y_from, y_to);
    let p = disk_points(cx, cy, r2, x_from, x + 1, y_from, y_to);
    assert(p =~= disk_points(cx, cy, r2, x_from, x, y_from, y_to) + disk_column(cx, cy, r2, x, y_from, y_to));
    if x + 1 < x_to {
        lemma_disk_prefix(cx, cy, r2, x_from, x + 1, x_to, y_from, y_to);
        let q = p + disk_column(cx, cy, r2, x + 1, y_from, y_to);
        assert(full.take(q.len() as int) == q);
        assert(full.take(q.len() as int).take(p.len() as int) =~= full.take(p.len() as int));
        assert(q.take(p.len() as int) =~= p);
    } else {
        assert(full == p);
        assert(p.take(p.len() as int) =~= p);
    }
}

proof fn lemma_column_prefix(cx: int, cy: int, r2: int, x: int, y_from: int, y: int, y_to: int)
    requires
        y_from <= y <= y_to,
    ensures
        disk_column(cx, cy, r2, x, y_from, y).len() <= disk_column(cx, cy, r2, x, y_from, y_to).len(),
        disk_column(cx, cy, r2, x, y_from, y_to).take(disk_column(cx, cy, r2, x, y_from, y).len() as int)
            == disk_column(cx, cy, r2, x, y_from, y),
    decreases y_to - y,
{
    let a = disk_column(cx, cy, r2, x, y_from, y);
    let full = disk_column(cx, cy, r2, x, y_from, y_to);
    if y < y_to {
        lemma_column_prefix(cx, cy, r2, x, y_from, y + 1, y_to);
        let b = disk_column(cx, cy, r2, x, y_from, y + 1);
        assert(b.take(a.len() as int) =~= a);
        assert(full.take(b.len() as int) == b);
        assert(full.take(b.len() as int).take(a.len() as int) =~= full.take(a.len() as int));
    } else {
        assert(a.take(a.len() as int) =~= a);
    }
}

proof fn lemma_reaches_prefix(fb: Framebuffer, all: Seq<(int, int)>, n: int)
    requires
        fb.reaches_all(all),
        0 <= n <= all.len(),
    ensures
        fb.reaches_all(all.take(n)),
{
    assert forall|k: int| 0 <= k < all.take(n).len() implies #[trigger] fb.reaches(
        all.take(n)[k].0 as u32,
        all.take(n)[k].1 as u32,
        written_bytes(fb.format_of()),
    ) by {
        assert(all.take(n)[k] == all[k]);
    }
}

/// The absolute value.
pub open spec fn abs_int(a: int) -> int {
    if a < 0 {
        -a
    } else {
        a
    }
}

/// The sign: `-1`, `0` or `1`.
pub open spec fn signum(a: int) -> int {
    if a > 0 {
        1
    } else if a < 0 {
        -1
    } else {
        0
    }
}

/// The ends of a segment as the line algorithm walks it: coordinates exchanged when it is
/// steep (more rows than columns), the left end first; and whether it is steep.
pub open spec fn line_frame(start: Point, end: Point) -> (int, int, int, int, bool) {
    let steep = abs_int(end.y - start.y) > abs_int(end.x - start.x);
    let (a0, b0, a1, b1) = if steep {
        (start.y as int, start.x as int, end.y as int, end.x as int)
    } else {
        (start.x as int, start.y as int, end.x as int, end.y as int)
    };
    if a0 > a1 {
        (a1, b1, a0, b0, steep)
    } else {
        (a0, b0, a1, b1, steep)
    }
}

/// The row and the error of the line algorithm after `k` steps along a segment `dx` long and
/// `dy` high, going from row `y0` by `y_step`: each step takes `dy` from the error and, when it
/// falls below zero, moves a row and gives `dx` back.
pub open spec fn line_step(dx: int, dy: int, y_step: int, y0: int, k: nat) -> (int, int)
    decreases k,
{
    if k == 0 {
        (y0, dx / 2)
    } else {
        let (y, e) = line_step(dx, dy, y_step, y0, (k - 1) as nat);
        if e - dy < 0 {
            (y + y_step, e - dy + dx)
        } else {
            (y, e - dy)
        }
    }
}

/// The points of the segment from `start` to `end`, as Bresenham's algorithm paints them,
/// from its left end (its top end when steep).
pub open spec fn line_points(start: Point, end: Point) -> Seq<(int, int)> {
    let (x0, y0, x1, y1, steep) = line_frame(start, end);
    let dx = x1 - x0;
    let dy = abs_int(y1 - y0);
    let ys = signum(y1 - y0);
    Seq::new(
        (dx + 1) as nat,
        |k: int|
            {
                let y = line_step(dx, dy, ys, y0, k as nat).0;
                if steep {
                    (y, x0 + k)
                } else {
                    (x0 + k, y)
                }
            },
    )
}

/// The arithmetic of the line algorithm stays within `i32`.
pub open spec fn line_fits(start: Point, end: Point) -> bool {
    let (x0, y0, x1, y1, steep) = line_frame(start, end);
    let dx = x1 - x0;
    let dy = abs_int(y1 - y0);
    let ys = signum(y1 - y0);
    &&& i32::MIN < end.y - start.y <= i32::MAX
    &&& i32::MIN < end.x - start.x <= i32::MAX
    &&& x1 + 1 <= i32::MAX
    &&& forall|k: nat| k <= dx + 1 ==> i32::MIN <= #[trigger] line_step(dx, dy, ys, y0, k).0 <= i32::MAX
}

impl Framebuffer {
    /// Paints the segment from `start` to `end` with Bresenham's algorithm.
    #[verifier::rlimit(40)]
    pub fn draw_line_segment(&mut self, start: &Point, end: &Point, gray: u8)
        requires
            line_fits(*start, *end),
            old(self).reaches_all(line_points(*start, *end)),
            old(self).format_of() != PixelFormat::Gray8,
        ensures
            final(self).memory() == old(self).painted_at(line_points(*start, *end), gray),
            final(self).same_but_memory(*old(self)),
    {
        let ghost first = *self;
        let ghost pts = line_points(*start, *end);
        let (mut x0, mut y0) = (start.x, start.y);
        let (mut x1, mut y1) = (end.x, end.y);
        let ady = if y1 - y0 < 0 {
            -(y1 - y0)
        } else {
            y1 - y0
        };
        let adx = if x1 - x0 < 0 {
            -(x1 - x0)
        } else {
            x1 - x0
        };
        let is_steep = ady > adx;
        if is_steep {
            let t = x0;
            x0 = y0;
            y0 = t;
            let t = x1;
            x1 = y1;
            y1 = t;
        }
        if x0 > x1 {
            let t = x0;
            x0 = x1;
            x1 = t;
            let t = y0;
            y0 = y1;
            y1 = t;
        }
        assert((x0 as int, y0 as int, x1 as int, y1 as int, is_steep) == line_frame(*start, *end));
        let dx = x1 - x0;
        let dy = if y1 - y0 < 0 {
            -(y1 - y0)
        } else {
            y1 - y0
        };
        let mut error = dx / 2;
        let y_step: i32 = if y1 - y0 > 0 {
            1
        } else if y1 - y0 < 0 {
            -1
        } else {
            0
        };
        let mut y = y0;
        let mut x = x0;
        proof {
            assert(line_step(dx as int, dy as int, y_step as int, y0 as int, 0) == (y as int, error as int));
            assert(pts.take(0) =~= Seq::<(int, int)>::empty());
        }
        while x < x1 + 1
            invariant
                x0 <= x <= x1 + 1,
                x1 + 1 <= i32::MAX,
                (x0 as int, y0 as int, x1 as int, y1 as int, is_steep) == line_frame(*start, *end),
                dx == x1 - x0,
                dy == abs_int(y1 - y0),
                y_step == signum(y1 - y0),
                0 <= dy <= dx,
                0 <= error <= dx,
                (y as int, error as int) == line_step(dx as int, dy as int, y_step as int, y0 as int, (x - x0) as nat),
                forall|k: nat| k <= dx + 1 ==> i32::MIN <= #[trigger] line_step(dx as int, dy as int, y_step as int, y0 as int, k).0 <= i32::MAX,
                pts == line_points(*start, *end),
                first.reaches_all(pts),
                self.same_but_memory(first),
                first.format_of() != PixelFormat::Gray8,
                self.memory() == first.painted_at(pts.take(x - x0), gray),
            decreases x1 + 1 - x,
        {
            let ghost k = x - x0;
            proof {
                assert(pts[k] == if is_steep { (y as int, x as int) } else { (x as int, y as int) });
                assert(first.reaches(pts[k].0 as u32, pts[k].1 as u32, written_bytes(first.format_of())));
            }
            if is_steep {
                self.set_pixel(y as u32, x as u32, gray);
            } else {
                self.set_pixel(x as u32, y as u32, gray);
            }
            proof {
                assert(pts.take(k + 1).drop_last() =~= pts.take(k));
                assert(pts.take(k + 1).last() == pts[k]);
                assert(line_step(dx as int, dy as int, y_step as int, y0 as int, (k + 1) as nat).0 == if error - dy < 0 {
                    y + y_step
                } else {
                    y as int
                });
            }
            error = error - dy;
            if error < 0 {
                y = y + y_step;
                error = error + dx;
            }
            x = x + 1;
        }
        proof {
            assert(pts.take(pts.len() as int) =~= pts);
        }
    }
}

} // verus!
