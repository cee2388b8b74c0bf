//! The frame buffer of a Kobo reader: how pixels are laid out in its memory and read back.
use vstd::prelude::*;
use crate::framebuffer::{
    dithered_g16, transform_dither_g16, FixScreenInfo, VarScreenInfo, DITHER_PITCH,
};

verus! {

/// The flag of an e-ink update that inverts the colors.
pub const EPDC_FLAG_ENABLE_INVERSION: u32 = 0x01;

/// How the pixels of a frame are stored, as the bits per pixel of the screen decide: one gray
/// byte, two bytes of RGB 565, or four of BGRA 8888.
#[derive(Debug, Copy, Clone, PartialEq, Eq, Structural)]
pub enum PixelFormat {
    Gray8,
    Rgb565,
    Bgra8888,
}

/// What a gray goes through before it is written: nothing, or dithering to sixteen grays.
#[derive(Debug, Copy, Clone, PartialEq, Eq, Structural)]
pub enum ColorTransform {
    Identity,
    DitherG16,
}

/// The frame buffer of a Kobo reader: its screen information, its update state and the memory
/// that it maps, which holds the pixels.
pub struct KoboFramebuffer {
    frame: Vec<u8>,
    frame_size: usize,
    token: u32,
    flags: u32,
    monochrome: bool,
    dithered: bool,
    transform: ColorTransform,
    format: PixelFormat,
    bytes_per_pixel: u8,
    var_info: VarScreenInfo,
    fix_info: FixScreenInfo,
    drifts: Vec<i8>,
    mark: u8,
}

/// The byte where the pixel `(x, y)` starts.
pub open spec fn pixel_offset(xoffset: u32, yoffset: u32, bpp: u8, line_length: u32, x: u32, y: u32) -> int {
    (xoffset + x) * bpp + (yoffset + y) * line_length
}

/// The computation of `pixel_offset` stays within `isize`, as the machine does it.
pub open spec fn offset_fits(xoffset: u32, yoffset: u32, bpp: u8, line_length: u32, x: u32, y: u32) -> bool {
    &&& xoffset <= isize::MAX && yoffset <= isize::MAX && x <= isize::MAX && y <= isize::MAX
    &&& line_length <= isize::MAX
    &&& xoffset + x <= isize::MAX && yoffset + y <= isize::MAX
    &&& (xoffset + x) * bpp <= isize::MAX && (yoffset + y) * line_length <= isize::MAX
    &&& pixel_offset(xoffset, yoffset, bpp, line_length, x, y) <= isize::MAX
}

/// The two bytes of a color in RGB 565: the low byte, then the high one.
pub open spec fn rgb565_bytes(r: u8, g: u8, b: u8) -> (u8, u8) {
    ((b >> 3u8) | ((g & 0x1Cu8) << 3u8), (r & 0xF8u8) | (g >> 5u8))
}

/// The color that two bytes of RGB 565 stand for, in RGB 888.
pub open spec fn rgb565_color(lo: u8, hi: u8) -> (u8, u8, u8) {
    (hi & 0xF8u8, ((hi & 0x07u8) << 5u8) | ((lo & 0xE0u8) >> 3u8), (lo & 0x1Fu8) << 3u8)
}

/// A color read back from RGB 565 is the color written with its low bits cleared: three of red
/// and blue, two of green.
pub proof fn lemma_rgb565_round_trip(r: u8, g: u8, b: u8)
    ensures
        rgb565_color(rgb565_bytes(r, g, b).0, rgb565_bytes(r, g, b).1) == (r & 0xF8u8, g & 0xFCu8, b & 0xF8u8),
{
    assert((((r & 0xF8u8) | (g >> 5u8)) & 0xF8u8) == r & 0xF8u8) by (bit_vector);
    assert(((((r & 0xF8u8) | (g >> 5u8)) & 0x07u8) << 5u8) | ((((b >> 3u8) | ((g & 0x1Cu8) << 3u8))
        & 0xE0u8) >> 3u8) == g & 0xFCu8) by (bit_vector);
    assert((((b >> 3u8) | ((g & 0x1Cu8) << 3u8)) & 0x1Fu8) << 3u8 == b & 0xF8u8) by (bit_vector);
}

/// The RGB 888 bytes of the pixel that starts at byte `a` of a frame of the given format.
pub open spec fn pixel_rgb(bytes: Seq<u8>, format: PixelFormat, a: int) -> Seq<u8> {
    match format {
        PixelFormat::Gray8 => seq![bytes[a], bytes[a], bytes[a]],
        PixelFormat::Rgb565 => {
            let c = rgb565_color(bytes[a], bytes[a + 1]);
            seq![c.0, c.1, c.2]
        },
        PixelFormat::Bgra8888 => seq![bytes[a + 2], bytes[a + 1], bytes[a]],
    }
}

/// How many bytes a pixel of the format takes in the frame, and how many of them are read.
pub open spec fn chunk_of(format: PixelFormat) -> (int, int) {
    match format {
        PixelFormat::Gray8 => (1, 1),
        PixelFormat::Rgb565 => (2, 2),
        PixelFormat::Bgra8888 => (4, 3),
    }
}

/// The RGB 888 bytes of the first `count` pixels of a frame, row after row of `vw` pixels, of
/// which only the first `w` of each row are visible.
pub open spec fn frame_rgb(bytes: Seq<u8>, format: PixelFormat, count: int, vw: int, w: int) -> Seq<u8>
    decreases count,
{
    if count <= 0 {
        Seq::empty()
    } else {
        let i = count - 1;
        frame_rgb(bytes, format, i, vw, w) + if i % vw < w {
            pixel_rgb(bytes, format, i * chunk_of(format).0)
        } else {
            Seq::empty()
        }
    }
}

/// How many pixels of a frame of `size` bytes are read for a screen of `height` rows of `vw`
/// pixels: the pieces of the format's size that the frame holds (a shorter last one counts),
/// at most the screen's.
pub open spec fn pixels_read(size: int, format: PixelFormat, height: int, vw: int) -> int {
    let n = chunk_of(format).0;
    let pieces = (size + n - 1) / n;
    if pieces < height * vw {
        pieces
    } else {
        height * vw
    }
}

/// Each visible pixel that is read lies whole in the frame.
pub open spec fn visible_pixels_whole(size: int, format: PixelFormat, count: int, vw: int, w: int) -> bool {
    forall|i: int| 0 <= i < count && i % vw < w ==> #[trigger] (i * chunk_of(format).0) + chunk_of(format).1 <= size
}

impl KoboFramebuffer {
    /// The memory of the frame.
    pub closed spec fn memory(self) -> Seq<u8> {
        self.frame@
    }

    /// The bytes of the frame that hold the screen.
    pub closed spec fn size_of_frame(self) -> int {
        self.frame_size as int
    }

    pub closed spec fn format_of(self) -> PixelFormat {
        self.format
    }

    pub closed spec fn transform_of(self) -> ColorTransform {
        self.transform
    }

    pub closed spec fn drifts_of(self) -> Seq<i8> {
        self.drifts@
    }

    pub closed spec fn flags_of(self) -> u32 {
        self.flags
    }

    pub closed spec fn is_monochrome(self) -> bool {
        self.monochrome
    }

    pub closed spec fn is_dithered(self) -> bool {
        self.dithered
    }

    pub closed spec fn mark_of(self) -> u8 {
        self.mark
    }

    /// Where the pixel `(x, y)` starts in the memory.
    pub closed spec fn offset_of(self, x: u32, y: u32) -> int {
        pixel_offset(self.var_info.xoffset, self.var_info.yoffset, self.bytes_per_pixel, self.fix_info.line_length, x, y)
    }

    /// Whether the pixel `(x, y)` can be reached: its offset is computed without overflow, lies
    /// within the screen's bytes, and its `n` bytes within the memory.
    pub closed spec fn reaches(self, x: u32, y: u32, n: int) -> bool {
        &&& offset_fits(self.var_info.xoffset, self.var_info.yoffset, self.bytes_per_pixel, self.fix_info.line_length, x, y)
        &&& self.offset_of(x, y) < self.frame_size
        &&& self.offset_of(x, y) + n <= self.frame@.len()
    }

    /// Whether two states differ only in the memory.
    pub closed spec fn same_but_memory(self, other: Self) -> bool {
        &&& self.frame_size == other.frame_size
        &&& self.token == other.token
        &&& self.flags == other.flags
        &&& self.monochrome == other.monochrome
        &&& self.dithered == other.dithered
        &&& self.transform == other.transform
        &&& self.format == other.format
        &&& self.bytes_per_pixel == other.bytes_per_pixel
        &&& self.var_info.xoffset == other.var_info.xoffset
        &&& self.var_info.yoffset == other.var_info.yoffset
        &&& self.fix_info.line_length == other.fix_info.line_length
        &&& self.drifts == other.drifts
        &&& self.mark == other.mark
    }

    /// The width of the screen.
    pub closed spec fn screen_width(self) -> u32 {
        self.var_info.xres
    }

    /// The height of the screen.
    pub closed spec fn screen_height(self) -> u32 {
        self.var_info.yres
    }

    /// The width of the frame, hidden pixels included.
    pub closed spec fn virtual_width(self) -> u32 {
        self.var_info.xres_virtual
    }

    /// A frame buffer over mapped memory, for a screen of the given information, on a device
    /// of the given mark, with the blue noise pattern of its dithering: two bytes per pixel
    /// above 8 bits per pixel, four above 16, one otherwise.
    pub fn new(var_info: VarScreenInfo, fix_info: FixScreenInfo, frame: Vec<u8>, drifts: Vec<i8>, mark: u8) -> (fb: KoboFramebuffer)
        requires
            var_info.bits_per_pixel % 8 == 0,
            var_info.yres * fix_info.line_length <= u32::MAX,
        ensures
            fb.memory() == frame@,
            fb.size_of_frame() == var_info.yres * fix_info.line_length,
            fb.format_of() == if var_info.bits_per_pixel > 16 {
                PixelFormat::Bgra8888
            } else if var_info.bits_per_pixel > 8 {
                PixelFormat::Rgb565
            } else {
                PixelFormat::Gray8
            },
            fb.transform_of() == ColorTransform::Identity,
            fb.drifts_of() == drifts@,
            fb.flags_of() == 0,
            !fb.is_monochrome(),
            !fb.is_dithered(),
            fb.mark_of() == mark,
            fb.screen_width() == var_info.xres,
            fb.screen_height() == var_info.yres,
            fb.virtual_width() == var_info.xres_virtual,
            fb.rotation_of() == var_info.rotate as i8,
    {
        let bytes_per_pixel = var_info.bits_per_pixel / 8;
        let frame_size = (var_info.yres * fix_info.line_length) as usize;
        let format = if var_info.bits_per_pixel > 16 {
            PixelFormat::Bgra8888
        } else if var_info.bits_per_pixel > 8 {
            PixelFormat::Rgb565
        } else {
            PixelFormat::Gray8
        };
        KoboFramebuffer {
            frame,
            frame_size,
            token: 1,
            flags: 0,
            monochrome: false,
            dithered: false,
            transform: ColorTransform::Identity,
            format,
            bytes_per_pixel: #[verifier::truncate] (bytes_per_pixel as u8),
            var_info,
            fix_info,
            drifts,
            mark,
        }
    }

    /// The memory of the frame.
    pub fn memory_bytes(&self) -> (m: &[u8])
        ensures
            m@ == self.memory(),
    {
        self.frame.as_slice()
    }

    /// The byte where the pixel `(x, y)` starts.
    fn address(&self, x: u32, y: u32) -> (a: usize)
        requires
            offset_fits(self.var_info.xoffset, self.var_info.yoffset, self.bytes_per_pixel, self.fix_info.line_length, x, y),
        ensures
            a == self.offset_of(x, y),
    {
        let a = (self.var_info.xoffset as isize + x as isize) * (self.bytes_per_pixel as isize)
            + (self.var_info.yoffset as isize + y as isize) * (self.fix_info.line_length as isize);
        a as usize
    }

    /// The width of the screen.
    pub fn width(&self) -> (w: u32)
        ensures
            w == self.screen_width(),
    {
        self.var_info.xres
    }

    /// The height of the screen.
    pub fn height(&self) -> (h: u32)
        ensures
            h == self.screen_height(),
    {
        self.var_info.yres
    }

    /// The rotation of the screen, as the driver counts it.
    pub closed spec fn rotation_of(self) -> i8 {
        self.var_info.rotate as i8
    }

    /// The rotation of the screen, as the driver counts it.
    pub fn rotation(&self) -> (r: i8)
        ensures
            r == self.rotation_of(),
    {
        #[verifier::truncate] (self.var_info.rotate as i8)
    }

    /// Turns the inversion of the colors on or off.
    pub fn set_inverted(&mut self, enable: bool)
        ensures
            final(self).flags_of() == if enable {
                old(self).flags_of() | EPDC_FLAG_ENABLE_INVERSION
            } else {
                old(self).flags_of() & !EPDC_FLAG_ENABLE_INVERSION
            },
            final(self).memory() == old(self).memory(),
            final(self).is_dithered() == old(self).is_dithered(),
            final(self).is_monochrome() == old(self).is_monochrome(),
    {
        if enable {
            self.flags |= EPDC_FLAG_ENABLE_INVERSION;
        } else {
            self.flags &= !EPDC_FLAG_ENABLE_INVERSION;
        }
    }

    /// Whether the colors are inverted.
    pub fn inverted(&self) -> (b: bool)
        ensures
            b == (self.flags_of() & EPDC_FLAG_ENABLE_INVERSION != 0),
    {
        self.flags & EPDC_FLAG_ENABLE_INVERSION != 0
    }

    /// Turns the monochrome mode on or off.
    pub fn set_monochrome(&mut self, enable: bool)
        ensures
            final(self).is_monochrome() == enable,
            final(self).flags_of() == old(self).flags_of(),
            final(self).memory() == old(self).memory(),
            final(self).is_dithered() == old(self).is_dithered(),
    {
        self.monochrome = enable;
    }

    /// Whether the monochrome mode is on.
    pub fn monochrome(&self) -> (b: bool)
        ensures
            b == self.is_monochrome(),
    {
        self.monochrome
    }

    /// Turns dithering on or off: before the seventh mark, the library dithers the grays it
    /// writes itself.
    pub fn set_dithered(&mut self, enable: bool)
        ensures
            final(self).is_dithered() == enable,
            final(self).transform_of() == if enable == old(self).is_dithered() || old(self).mark_of() >= 7 {
                old(self).transform_of()
            } else if enable {
                ColorTransform::DitherG16
            } else {
                ColorTransform::Identity
            },
            final(self).flags_of() == old(self).flags_of(),
            final(self).memory() == old(self).memory(),
            final(self).is_monochrome() == old(self).is_monochrome(),
    {
        if enable == self.dithered {
            return;
        }
        self.dithered = enable;
        if self.mark < 7 {
            if enable {
                self.transform = ColorTransform::DitherG16;
            } else {
                self.transform = ColorTransform::Identity;
            }
        }
    }

    /// Whether dithering is on.
    pub fn dithered(&self) -> (b: bool)
        ensures
            b == self.is_dithered(),
    {
        self.dithered
    }
}

/// Writes a pixel of one gray byte: the red of the color.
pub fn set_pixel_rgb_8(fb: &mut KoboFramebuffer, x: u32, y: u32, rgb: [u8; 3])
    requires
        old(fb).reaches(x, y, 1),
    ensures
        final(fb).memory() == old(fb).memory().update(old(fb).offset_of(x, y), rgb@[0]),
        final(fb).same_but_memory(*old(fb)),
{
    let addr = fb.address(x, y);
    fb.frame.set(addr, rgb[0]);
}

/// Writes a pixel of two bytes of RGB 565.
pub fn set_pixel_rgb_16(fb: &mut KoboFramebuffer, x: u32, y: u32, rgb: [u8; 3])
    requires
        old(fb).reaches(x, y, 2),
    ensures
        ({
            let (lo, hi) = rgb565_bytes(rgb@[0], rgb@[1], rgb@[2]);
            let a = old(fb).offset_of(x, y);
            final(fb).memory() == old(fb).memory().update(a, lo).update(a + 1, hi)
        }),
        final(fb).same_but_memory(*old(fb)),
{
    let addr = fb.address(x, y);
    let lo = (rgb[2] >> 3u8) | ((rgb[1] & 0x1Cu8) << 3u8);
    let hi = (rgb[0] & 0xF8u8) | (rgb[1] >> 5u8);
    fb.frame.set(addr, lo);
    fb.frame.set(addr + 1, hi);
}

/// Writes a pixel of four bytes of BGRA 8888, the alpha left as it was.
pub fn set_pixel_rgb_32(fb: &mut KoboFramebuffer, x: u32, y: u32, rgb: [u8; 3])
    requires
        old(fb).reaches(x, y, 3),
    ensures
        ({
            let a = old(fb).offset_of(x, y);
            final(fb).memory() == old(fb).memory().update(a, rgb@[2]).update(a + 1, rgb@[1]).update(a + 2, rgb@[0])
        }),
        final(fb).same_but_memory(*old(fb)),
{
    let addr = fb.address(x, y);
    fb.frame.set(addr, rgb[2]);
    fb.frame.set(addr + 1, rgb[1]);
    fb.frame.set(addr + 2, rgb[0]);
}

/// Reads a pixel of one gray byte.
fn get_pixel_rgb_8(fb: &KoboFramebuffer, x: u32, y: u32) -> (rgb: [u8; 3])
    requires
        fb.reaches(x, y, 1),
    ensures
        rgb@ == pixel_rgb(fb.memory(), PixelFormat::Gray8, fb.offset_of(x, y)),
{
    let addr = fb.address(x, y);
    let gray = fb.frame[addr];
    let rgb = [gray, gray, gray];
    assert(rgb@ =~= seq![gray, gray, gray]);
    rgb
}

/// Reads a pixel of two bytes of RGB 565.
fn get_pixel_rgb_16(fb: &KoboFramebuffer, x: u32, y: u32) -> (rgb: [u8; 3])
    requires
        fb.reaches(x, y, 2),
    ensures
        rgb@ == pixel_rgb(fb.memory(), PixelFormat::Rgb565, fb.offset_of(x, y)),
{
    let addr = fb.address(x, y);
    let lo = fb.frame[addr];
    let hi = fb.frame[addr + 1];
    let red = hi & 0xF8u8;
    let green = ((hi & 0x07u8) << 5u8) | ((lo & 0xE0u8) >> 3u8);
    let blue = (lo & 0x1Fu8) << 3u8;
    let rgb = [red, green, blue];
    assert(rgb@ =~= seq![red, green, blue]);
    rgb
}

/// Reads a pixel of four bytes of BGRA 8888.
fn get_pixel_rgb_32(fb: &KoboFramebuffer, x: u32, y: u32) -> (rgb: [u8; 3])
    requires
        fb.reaches(x, y, 3),
    ensures
        rgb@ == pixel_rgb(fb.memory(), PixelFormat::Bgra8888, fb.offset_of(x, y)),
{
    let addr = fb.address(x, y);
    let rgb = [fb.frame[addr + 2], fb.frame[addr + 1], fb.frame[addr]];
    assert(rgb@ =~= seq![fb.frame@[addr + 2], fb.frame@[addr + 1], fb.frame@[addr as int]]);
    rgb
}

/// The gray that a pixel of a given gray gets written as, by the transform of the frame
/// buffer.
pub open spec fn transformed_gray(t: ColorTransform, drifts: Seq<i8>, x: u32, y: u32, color: u8) -> int {
    match t {
        ColorTransform::Identity => color as int,
        ColorTransform::DitherG16 => dithered_g16(x, y, color, drifts),
    }
}

/// How many bytes of a pixel the format writes.
pub open spec fn written_bytes(format: PixelFormat) -> int {
    match format {
        PixelFormat::Gray8 => 1,
        PixelFormat::Rgb565 => 2,
        PixelFormat::Bgra8888 => 3,
    }
}

/// The memory after a gray pixel is written at byte `a`.
pub open spec fn gray_written(bytes: Seq<u8>, format: PixelFormat, a: int, c: u8) -> Seq<u8> {
    match format {
        PixelFormat::Gray8 => bytes.update(a, c),
        PixelFormat::Rgb565 => {
            let (lo, hi) = rgb565_bytes(c, c, c);
            bytes.update(a, lo).update(a + 1, hi)
        },
        PixelFormat::Bgra8888 => bytes.update(a, c).update(a + 1, c).update(a + 2, c),
    }
}

impl KoboFramebuffer {
    /// Paints one pixel with a gray, through the transform of the frame buffer.
    pub fn set_pixel(&mut self, x: u32, y: u32, color: u8)
        requires
            old(self).reaches(x, y, written_bytes(old(self).format_of())),
            old(self).transform_of() == ColorTransform::DitherG16 ==> old(self).drifts_of().len() >= DITHER_PITCH
                * DITHER_PITCH,
        ensures
            final(self).memory() == gray_written(
                old(self).memory(),
                old(self).format_of(),
                old(self).offset_of(x, y),
                transformed_gray(old(self).transform_of(), old(self).drifts_of(), x, y, color) as u8,
            ),
            final(self).same_but_memory(*old(self)),
    {
        let c = match self.transform {
            ColorTransform::Identity => color,
            ColorTransform::DitherG16 => transform_dither_g16(x, y, color, self.drifts.as_slice()),
        };
        match self.format {
            PixelFormat::Gray8 => set_pixel_rgb_8(self, x, y, [c, c, c]),
            PixelFormat::Rgb565 => set_pixel_rgb_16(self, x, y, [c, c, c]),
            PixelFormat::Bgra8888 => set_pixel_rgb_32(self, x, y, [c, c, c]),
        }
    }

    /// The visible pixels of the frame, row after row, in RGB 888.
    pub fn as_rgb(&self) -> (rgb: Vec<u8>)
        requires
            self.screen_width() * self.screen_height() * 3 <= u32::MAX,
            self.screen_height() * self.virtual_width() <= usize::MAX,
            self.size_of_frame() <= self.memory().len(),
            visible_pixels_whole(
                self.size_of_frame(),
                self.format_of(),
                pixels_read(self.size_of_frame(), self.format_of(), self.screen_height() as int, self.virtual_width() as int),
                self.virtual_width() as int,
                self.screen_width() as int,
            ),
        ensures
            rgb@ == frame_rgb(
                self.memory(),
                self.format_of(),
                pixels_read(self.size_of_frame(), self.format_of(), self.screen_height() as int, self.virtual_width() as int),
                self.virtual_width() as int,
                self.screen_width() as int,
            ),
    {
        read_rgb(&self.frame, self.frame_size, self.format, self.var_info.xres, self.var_info.yres, self.var_info.xres_virtual)
    }
}

/// The visible pixels of a frame of `size` bytes, for a screen of `width` × `height` pixels in
/// rows of `virtual_width`, in RGB 888.
pub(crate) fn read_rgb(frame: &Vec<u8>, size: usize, format: PixelFormat, width: u32, height: u32, virtual_width: u32) -> (rgb: Vec<u8>)
    requires
        width * height * 3 <= u32::MAX,
        height * virtual_width <= usize::MAX,
        size <= frame@.len(),
        visible_pixels_whole(
            size as int,
            format,
            pixels_read(size as int, format, height as int, virtual_width as int),
            virtual_width as int,
            width as int,
        ),
    ensures
        rgb@ == frame_rgb(
            frame@,
            format,
            pixels_read(size as int, format, height as int, virtual_width as int),
            virtual_width as int,
            width as int,
        ),
{
    let vw = virtual_width as usize;
    let cap = (width * height * 3) as usize;
    let n: usize = match format {
        PixelFormat::Gray8 => 1,
        PixelFormat::Rgb565 => 2,
        PixelFormat::Bgra8888 => 4,
    };
    let pieces = size / n + if size % n == 0 {
        0
    } else {
        1
    };
    let limit = height as usize * vw;
    let count = if pieces < limit {
        pieces
    } else {
        limit
    };
    proof {
        assert((size + n - 1) / (n as int) == pieces) by (nonlinear_arith)
            requires
                n == 1 || n == 2 || n == 4,
                pieces == size / n + if size % n == 0 { 0int } else { 1int },
        ;
    }
    let ghost bytes = frame@;
    let mut rgb: Vec<u8> = Vec::with_capacity(cap);
    let mut i: usize = 0;
    while i < count
        invariant
            0 <= i <= count,
            count == pixels_read(size as int, format, height as int, vw as int),
            n == chunk_of(format).0,
            bytes == frame@,
            size <= bytes.len(),
            visible_pixels_whole(size as int, format, count as int, vw as int, width as int),
            rgb@ == frame_rgb(bytes, format, i as int, vw as int, width as int),
        decreases count - i,
    {
        assert(vw > 0) by {
            assert(count <= height * vw);
        }
        if i % vw < width as usize {
            assert(i * n + chunk_of(format).1 <= size);
            assert(i * n <= count * 4) by (nonlinear_arith)
                requires
                    i < count,
                    n <= 4,
            ;
            let a = i * n;
            match format {
                PixelFormat::Gray8 => {
                    let g = frame[a];
                    rgb.push(g);
                    rgb.push(g);
                    rgb.push(g);
                },
                PixelFormat::Rgb565 => {
                    let lo = frame[a];
                    let hi = frame[a + 1];
                    rgb.push(hi & 0xF8u8);
                    rgb.push(((hi & 0x07u8) << 5u8) | ((lo & 0xE0u8) >> 3u8));
                    rgb.push((lo & 0x1Fu8) << 3u8);
                },
                PixelFormat::Bgra8888 => {
                    rgb.push(frame[a + 2]);
                    rgb.push(frame[a + 1]);
                    rgb.push(frame[a]);
                },
            }
        }
        assert(rgb@ =~= frame_rgb(bytes, format, i + 1, vw as int, width as int));
        i += 1;
    }
    rgb
}

/// A pixel written in one format is read back, in RGB 888, as the gray of its red (one byte),
/// the color with its low bits cleared (RGB 565), or the color itself (BGRA 8888).
pub proof fn lemma_read_after_write(bytes: Seq<u8>, format: PixelFormat, a: int, r: u8, g: u8, b: u8)
    requires
        0 <= a,
        a + written_bytes(format) <= bytes.len(),
    ensures
        pixel_rgb(
            match format {
                PixelFormat::Gray8 => bytes.update(a, r),
                PixelFormat::Rgb565 => bytes.update(a, rgb565_bytes(r, g, b).0).update(a + 1, rgb565_bytes(r, g, b).1),
                PixelFormat::Bgra8888 => bytes.update(a, b).update(a + 1, g).update(a + 2, r),
            },
            format,
            a,
        ) == match format {
            PixelFormat::Gray8 => seq![r, r, r],
            PixelFormat::Rgb565 => seq![r & 0xF8u8, g & 0xFCu8, b & 0xF8u8],
            PixelFormat::Bgra8888 => seq![r, g, b],
        },
{
    lemma_rgb565_round_trip(r, g, b);
    match format {
        PixelFormat::Gray8 => {
            assert(pixel_rgb(bytes.update(a, r), format, a) =~= seq![r, r, r]);
        },
        PixelFormat::Rgb565 => {
            let s = bytes.update(a, rgb565_bytes(r, g, b).0).update(a + 1, rgb565_bytes(r, g, b).1);
            assert(s[a] == rgb565_bytes(r, g, b).0);
            assert(s[a + 1] == rgb565_bytes(r, g, b).1);
            assert(pixel_rgb(s, format, a) =~= seq![r & 0xF8u8, g & 0xFCu8, b & 0xF8u8]);
        },
        PixelFormat::Bgra8888 => {
            let s = bytes.update(a, b).update(a + 1, g).update(a + 2, r);
            assert(pixel_rgb(s, format, a) =~= seq![r, g, b]);
        },
    }
}


/// The kinds of e-ink update that the reader asks for.
#[derive(Debug, Copy, Clone, PartialEq, Eq, Structural)]
pub enum UpdateKind {
    Gui,
    Partial,
    Full,
    Fast,
    FastMono,
}

/// The waveforms of the e-ink driver.
#[derive(Debug, Copy, Clone, PartialEq, Eq, Structural)]
pub enum Waveform {
    /// High fidelity, from white.
    Gl16,
    /// Partial REAGL.
    Glr16,
    /// Dithering REAGL.
    Gld16,
    /// High fidelity, flashing.
    Gc16,
    /// Fast, black and white.
    A2,
    /// Gray to white or black.
    Du,
}

/// How the driver dithers an update.
#[derive(Debug, Copy, Clone, PartialEq, Eq, Structural)]
pub enum DitherMode {
    Passthrough,
    Ordered,
}

/// What an e-ink update asks of the driver: a full or partial update, the waveform, the
/// marker, the flags of the frame buffer with those the update adds, the dithering, and
/// whether the driver takes the second form of the request (devices of mark 7 and later).
#[derive(Debug, Copy, Clone, PartialEq, Eq, Structural)]
pub struct UpdatePlan {
    pub full: bool,
    pub waveform: Waveform,
    pub marker: u32,
    pub flags: u32,
    pub use_aad: bool,
    pub force_monochrome: bool,
    pub dithering_y1: bool,
    pub dither_mode: DitherMode,
    pub quant_bit: i32,
    pub second_form: bool,
}

/// The update that a frame buffer of the given mark (an Aura or not), in black and white or
/// not and dithered or not, asks for, with the given marker and flags.
pub open spec fn update_plan(
    kind: UpdateKind,
    mark: u8,
    is_aura: bool,
    monochrome: bool,
    dithered: bool,
    marker: u32,
    flags: u32,
) -> UpdatePlan {
    let recent = mark >= 7;
    let (full, waveform, aad) = match kind {
        UpdateKind::Gui => (false, Waveform::Gl16, false),
        UpdateKind::Partial => if recent {
            (false, Waveform::Glr16, false)
        } else if is_aura {
            (true, Waveform::Gld16, true)
        } else {
            (false, Waveform::Gl16, false)
        },
        UpdateKind::Full => (true, Waveform::Gc16, false),
        UpdateKind::Fast => (false, Waveform::A2, false),
        UpdateKind::FastMono => (false, Waveform::A2, false),
    };
    let mono = monochrome && kind != UpdateKind::Full;
    let waveform = if mono {
        if recent {
            if waveform != Waveform::A2 { Waveform::Du } else { waveform }
        } else {
            Waveform::A2
        }
    } else {
        waveform
    };
    let y1_from_mono = mono && recent && waveform == Waveform::Du && !dithered;
    UpdatePlan {
        full,
        waveform,
        marker,
        flags,
        use_aad: aad,
        force_monochrome: kind == UpdateKind::FastMono || (!recent && mono && !dithered),
        dithering_y1: y1_from_mono || (recent && dithered && mono),
        dither_mode: if recent && dithered && !mono && (kind == UpdateKind::Partial || kind == UpdateKind::Full) {
            DitherMode::Ordered
        } else {
            DitherMode::Passthrough
        },
        quant_bit: if recent && dithered && !mono && (kind == UpdateKind::Partial || kind == UpdateKind::Full) {
            7
        } else {
            0
        },
        second_form: recent,
    }
}

impl KoboFramebuffer {
    pub closed spec fn token_of(self) -> u32 {
        self.token
    }

    /// The update of a region of the given kind: the driver's update mode, waveform, flags
    /// and dithering, chosen from the device's mark (and whether it is an Aura), from the
    /// black and white and dithering modes, the marker being the current token.
    pub fn update_plan(&self, kind: UpdateKind, is_aura: bool) -> (p: UpdatePlan)
        ensures
            p == update_plan(kind, self.mark_of(), is_aura, self.is_monochrome(), self.is_dithered(), self.token_of(), self.flags_of()),
    {
        let recent = self.mark >= 7;
        let mut monochrome = self.monochrome;
        let mut use_aad = false;
        let mut force_monochrome = false;
        let mut dithering_y1 = false;
        let (full, mut waveform) = match kind {
            UpdateKind::Gui => (false, Waveform::Gl16),
            UpdateKind::Partial => {
                if recent {
                    (false, Waveform::Glr16)
                } else if is_aura {
                    use_aad = true;
                    (true, Waveform::Gld16)
                } else {
                    (false, Waveform::Gl16)
                }
            },
            UpdateKind::Full => {
                monochrome = false;
                (true, Waveform::Gc16)
            },
            UpdateKind::Fast => (false, Waveform::A2),
            UpdateKind::FastMono => {
                force_monochrome = true;
                (false, Waveform::A2)
            },
        };
        if monochrome {
            if recent {
                if waveform != Waveform::A2 {
                    waveform = Waveform::Du;
                    if !self.dithered {
                        dithering_y1 = true;
                    }
                }
            } else {
                waveform = Waveform::A2;
            }
        }
        let mut dither_mode = DitherMode::Passthrough;
        let mut quant_bit: i32 = 0;
        if recent {
            if self.dithered {
                if monochrome {
                    dithering_y1 = true;
                } else if kind == UpdateKind::Partial || kind == UpdateKind::Full {
                    dither_mode = DitherMode::Ordered;
                    quant_bit = 7;
                }
            }
        } else if monochrome && !self.dithered {
            force_monochrome = true;
        }
        UpdatePlan {
            full,
            waveform,
            marker: self.token,
            flags: self.flags,
            use_aad,
            force_monochrome,
            dithering_y1,
            dither_mode,
            quant_bit,
            second_form: recent,
        }
    }

    /// Records that the driver took an update: gives its marker and moves the token on,
    /// wrapping around.
    pub fn confirm_update(&mut self) -> (marker: u32)
        ensures
            marker == old(self).token_of(),
            final(self).token_of() == (if old(self).token_of() == u32::MAX { 0 } else { old(self).token_of() + 1 }),
            final(self).flags_of() == old(self).flags_of(),
            final(self).memory() == old(self).memory(),
            final(self).is_monochrome() == old(self).is_monochrome(),
            final(self).is_dithered() == old(self).is_dithered(),
            final(self).mark_of() == old(self).mark_of(),
    {
        let marker = self.token;
        self.token = self.token.wrapping_add(1);
        marker
    }
}

} // verus!
