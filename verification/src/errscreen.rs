//! The screen wdm draws when it has given up on the greeter.
//!
//! It cannot log anyone in. Its only job is to say what went wrong, because a black
//! display with no explanation gives nobody anything to act on.
//!
//! An image is plain RGBA, so that every backend can upload it the same way. Where
//! the letters stand is decided outside; here they are put on the background.
use vstd::prelude::*;

use crate::text::same;

verus! {

/// Fonts to try, in order; any of them is enough.
pub const FONT_CANDIDATES: [&'static str; 7] = [
    "/usr/share/fonts/noto/NotoSans-Regular.ttf",
    "/usr/share/fonts/TTF/DejaVuSans.ttf",
    "/usr/share/fonts/dejavu/DejaVuSans.ttf",
    "/usr/share/fonts/truetype/dejavu/DejaVuSans.ttf",
    "/usr/share/fonts/liberation/LiberationSans-Regular.ttf",
    "/usr/share/fonts/truetype/liberation/LiberationSans-Regular.ttf",
    "/usr/share/fonts/TTF/Inter-Regular.ttf",
];

/// An RGBA image, top-left origin, no padding between rows.
#[derive(Debug, PartialEq, Eq)]
pub struct Image {
    pub width: i32,
    pub height: i32,
    pub data: Vec<u8>,
}

/// A letter: where its box is, and how much of each pixel of the box it covers, row
/// by row.
#[derive(Debug)]
pub struct Glyph {
    pub x: i32,
    pub y: i32,
    pub width: u32,
    pub height: u32,
    pub coverage: Vec<u8>,
}

impl Glyph {
    /// The coverage is the box's.
    pub open spec fn wf(&self) -> bool {
        self.coverage@.len() == self.width * self.height
    }
}

/// A channel of the background: a dark red, which says that something is wrong and
/// does not look like a machine that is off.
pub open spec fn background(channel: int) -> u8 {
    if channel == 0 {
        0x2b
    } else if channel == 3 {
        0xff
    } else {
        0x0b
    }
}

/// A channel of the letters.
pub open spec fn foreground(channel: int) -> u8 {
    if channel == 0 {
        0xf2
    } else {
        0xe8
    }
}

/// A channel with so much of the letters over it.
pub open spec fn mixed(channel: int, under: u8, alpha: u8) -> u8 {
    ((foreground(channel) * alpha + under * (255 - alpha)) / 255) as u8
}

/// Pixels with one of them mixed with the letters' colour, if it is inside.
pub open spec fn blended(
    data: Seq<u8>,
    width: int,
    height: int,
    x: int,
    y: int,
    alpha: u8,
) -> Seq<u8> {
    if x < 0 || y < 0 || x >= width || y >= height {
        data
    } else {
        let at = (y * width + x) * 4;
        data.update(at, mixed(0, data[at], alpha)).update(at + 1, mixed(1, data[at + 1], alpha)).update(
            at + 2,
            mixed(2, data[at + 2], alpha),
        )
    }
}

/// Pixels with the first `n` pixels of a letter's box on them.
pub open spec fn inked(data: Seq<u8>, width: int, height: int, glyph: Glyph, n: int) -> Seq<u8>
    decreases n,
{
    if n <= 0 {
        data
    } else {
        let k = n - 1;
        blended(
            inked(data, width, height, glyph, k),
            width,
            height,
            glyph.x + k % glyph.width as int,
            glyph.y + k / glyph.width as int,
            glyph.coverage@[k],
        )
    }
}

/// Pixels with some letters on them, one after the other.
pub open spec fn lettered(data: Seq<u8>, width: int, height: int, glyphs: Seq<Glyph>) -> Seq<u8>
    decreases glyphs.len(),
{
    if glyphs.len() == 0 {
        data
    } else {
        let glyph = glyphs.last();
        inked(
            lettered(data, width, height, glyphs.drop_last()),
            width,
            height,
            glyph,
            glyph.coverage@.len() as int,
        )
    }
}

/// A dimension of at least one pixel: an output can report none while a cable
/// settles.
pub open spec fn at_least_one(n: i32) -> i32 {
    if n < 1 {
        1
    } else {
        n
    }
}

/// The background alone.
pub open spec fn blank(width: int, height: int) -> Seq<u8> {
    Seq::new((width * height * 4) as nat, |i: int| background(i % 4))
}

proof fn lemma_blend_keeps(data: Seq<u8>, width: int, height: int, x: int, y: int, alpha: u8)
    requires
        data.len() == width * height * 4,
        width > 0,
        height > 0,
    ensures
        blended(data, width, height, x, y, alpha).len() == data.len(),
        forall|i: int|
            0 <= i < data.len() && i % 4 == 3 ==> #[trigger] blended(
                data,
                width,
                height,
                x,
                y,
                alpha,
            )[i] == data[i],
        0 <= x < width && 0 <= y < height ==> 0 <= (y * width + x) * 4 && (y * width + x) * 4 + 3
            < data.len(),
{
    if 0 <= x < width && 0 <= y < height {
        assert(0 <= y * width && y * width + width <= width * height) by (nonlinear_arith)
            requires
                0 <= y < height,
                width > 0,
        ;
    }
}

proof fn lemma_inked_keeps(data: Seq<u8>, width: int, height: int, glyph: Glyph, n: int)
    requires
        data.len() == width * height * 4,
        width > 0,
        height > 0,
    ensures
        inked(data, width, height, glyph, n).len() == data.len(),
        forall|i: int|
            0 <= i < data.len() && i % 4 == 3 ==> #[trigger] inked(
                data,
                width,
                height,
                glyph,
                n,
            )[i] == data[i],
    decreases n,
{
    if n > 0 {
        let k = n - 1;
        lemma_inked_keeps(data, width, height, glyph, k);
        lemma_blend_keeps(
            inked(data, width, height, glyph, k),
            width,
            height,
            glyph.x + k % glyph.width as int,
            glyph.y + k / glyph.width as int,
            glyph.coverage@[k],
        );
    }
}

proof fn lemma_lettered_keeps(data: Seq<u8>, width: int, height: int, glyphs: Seq<Glyph>)
    requires
        data.len() == width * height * 4,
        width > 0,
        height > 0,
    ensures
        lettered(data, width, height, glyphs).len() == data.len(),
        forall|i: int|
            0 <= i < data.len() && i % 4 == 3 ==> #[trigger] lettered(
                data,
                width,
                height,
                glyphs,
            )[i] == data[i],
    decreases glyphs.len(),
{
    if glyphs.len() > 0 {
        let init = glyphs.drop_last();
        lemma_lettered_keeps(data, width, height, init);
        lemma_inked_keeps(
            lettered(data, width, height, init),
            width,
            height,
            glyphs.last(),
            glyphs.last().coverage@.len() as int,
        );
    }
}

/// The error screen is opaque, whatever is written on it: a transparent one would
/// show whatever was in the framebuffer.
pub proof fn law_the_error_screen_is_opaque(
    width: int,
    height: int,
    glyphs: Seq<Glyph>,
    pixel: int,
)
    requires
        width > 0,
        height > 0,
        0 <= pixel < width * height,
    ensures
        lettered(blank(width, height), width, height, glyphs)[pixel * 4 + 3] == 0xff,
{
    assert(width * height * 4 >= 0) by (nonlinear_arith)
        requires
            width > 0,
            height > 0,
    ;
    lemma_lettered_keeps(blank(width, height), width, height, glyphs);
    assert((pixel * 4 + 3) % 4 == 3);
}

impl Image {
    /// The data is the image's.
    pub open spec fn wf(&self) -> bool {
        &&& self.width > 0
        &&& self.height > 0
        &&& self.data@.len() == self.width * self.height * 4
    }

    /// Mix one pixel with the letters' colour.
    ///
    /// Letters near the edge of a narrow output can be outside the image.
    pub fn blend(&mut self, x: i64, y: i64, alpha: u8)
        requires
            old(self).wf(),
        ensures
            final(self).wf(),
            final(self).width == old(self).width,
            final(self).height == old(self).height,
            final(self).data@ == blended(
                old(self).data@,
                old(self).width as int,
                old(self).height as int,
                x as int,
                y as int,
                alpha,
            ),
    {
        if x < 0 || y < 0 || x >= self.width as i64 || y >= self.height as i64 {
            return;
        }
        let ghost w = self.width as int;
        let ghost h = self.height as int;
        proof {
            lemma_blend_keeps(self.data@, w, h, x as int, y as int, alpha);
            assert(0 <= y * w <= 0x7fff_ffff * 0x7fff_ffff) by (nonlinear_arith)
                requires
                    0 <= y < h,
                    0 < w <= 0x7fff_ffff,
                    0 < h <= 0x7fff_ffff,
            ;
        }
        let len: usize = self.data.len();
        assert((y * w + x) * 4 + 3 < len);
        let at: usize = ((y as u64 * self.width as u64 + x as u64) * 4) as usize;
        let red: u8 = mix(0xf2, self.data[at], alpha);
        let green: u8 = mix(0xe8, self.data[at + 1], alpha);
        let blue: u8 = mix(0xe8, self.data[at + 2], alpha);
        self.data.set(at, red);
        self.data.set(at + 1, green);
        self.data.set(at + 2, blue);
    }
}

/// One channel with so much of another over it.
fn mix(over: u8, under: u8, alpha: u8) -> (r: u8)
    ensures
        r == (over * alpha + under * (255 - alpha)) / 255,
{
    assert(over * alpha + under * (255 - alpha) <= 255 * 255 && over * alpha >= 0 && under * (255
        - alpha) >= 0) by (nonlinear_arith)
        requires
            0 <= over <= 255,
            0 <= under <= 255,
            0 <= alpha <= 255,
    ;
    let a: u32 = alpha as u32;
    assert(over * alpha <= 255 * 255) by (nonlinear_arith)
        requires
            0 <= over <= 255,
            0 <= alpha <= 255,
    ;
    assert(under * (255 - alpha) <= 255 * 255) by (nonlinear_arith)
        requires
            0 <= under <= 255,
            0 <= alpha <= 255,
    ;
    ((over as u32 * a + under as u32 * (255 - a)) / 255) as u8
}

/// Put one letter on an image.
fn draw_glyph(image: &mut Image, glyph: &Glyph)
    requires
        old(image).wf(),
        glyph.wf(),
    ensures
        final(image).wf(),
        final(image).width == old(image).width,
        final(image).height == old(image).height,
        final(image).data@ == inked(
            old(image).data@,
            old(image).width as int,
            old(image).height as int,
            *glyph,
            glyph.coverage@.len() as int,
        ),
{
    let ghost w = image.width as int;
    let ghost h = image.height as int;
    let ghost start = image.data@;
    let mut row: u32 = 0;
    let mut col: u32 = 0;
    for k in 0..glyph.coverage.len()
        invariant
            glyph.wf(),
            image.wf(),
            image.width == w,
            image.height == h,
            image.data@ == inked(start, w, h, *glyph, k as int),
            k < glyph.coverage@.len() ==> col < glyph.width && row < glyph.height,
            k == row * glyph.width + col,
            glyph.width > 0 || glyph.coverage@.len() == 0,
    {
        proof {
            vstd::arithmetic::div_mod::lemma_fundamental_div_mod_converse(
                k as int,
                glyph.width as int,
                row as int,
                col as int,
            );
        }
        let alpha: u8 = glyph.coverage[k];
        image.blend(glyph.x as i64 + col as i64, glyph.y as i64 + row as i64, alpha);
        if col + 1 < glyph.width {
            col = col + 1;
        } else {
            proof {
                assert(row * glyph.width + glyph.width == (row + 1) * glyph.width)
                    by (nonlinear_arith);
            }
            row = row + 1;
            col = 0;
        }
        proof {
            if k + 1 < glyph.coverage@.len() {
                assert(row < glyph.height) by (nonlinear_arith)
                    requires
                        k + 1 == row * glyph.width + col,
                        k + 1 < glyph.width * glyph.height,
                        col >= 0,
                        glyph.width > 0,
                ;
            }
        }
    }
}

/// Render letters on a `width` by `height` image.
pub fn render(glyphs: &Vec<Glyph>, width: i32, height: i32) -> (r: Image)
    requires
        at_least_one(width) * at_least_one(height) <= i32::MAX,
        at_least_one(width) * at_least_one(height) * 4 <= usize::MAX,
        forall|i: int| 0 <= i < glyphs@.len() ==> (#[trigger] glyphs@[i]).wf(),
    ensures
        r.wf(),
        r.width == at_least_one(width),
        r.height == at_least_one(height),
        r.data@ == lettered(
            blank(r.width as int, r.height as int),
            r.width as int,
            r.height as int,
            glyphs@,
        ),
{
    let w: i32 = if width < 1 {
        1
    } else {
        width
    };
    let h: i32 = if height < 1 {
        1
    } else {
        height
    };
    proof {
        assert(w * h >= 0) by (nonlinear_arith)
            requires
                w > 0,
                h > 0,
        ;
    }
    let pixels: usize = (w * h) as usize;
    let mut data: Vec<u8> = Vec::new();
    for i in 0..pixels
        invariant
            data@.len() == i * 4,
            forall|j: int| 0 <= j < i * 4 ==> #[trigger] data@[j] == background(j % 4),
    {
        data.push(0x2b);
        data.push(0x0b);
        data.push(0x0b);
        data.push(0xff);
    }
    assert(data@ =~= blank(w as int, h as int));
    let mut image = Image { width: w, height: h, data };
    for i in 0..glyphs.len()
        invariant
            image.wf(),
            image.width == w,
            image.height == h,
            forall|j: int| 0 <= j < glyphs@.len() ==> (#[trigger] glyphs@[j]).wf(),
            image.data@ == lettered(
                blank(w as int, h as int),
                w as int,
                h as int,
                glyphs@.take(i as int),
            ),
    {
        proof {
            assert(glyphs@.take(i as int + 1).drop_last() =~= glyphs@.take(i as int));
        }
        draw_glyph(&mut image, &glyphs[i]);
    }
    assert(glyphs@.take(glyphs@.len() as int) =~= glyphs@);
    image
}

/// The size to render for, given an output's mode if it has one.
pub fn size_for(mode: Option<(i32, i32)>) -> (r: (i32, i32))
    ensures
        r == (match mode {
            Some(size) => size,
            None => (640i32, 480i32),
        }),
{
    match mode {
        Some(size) => size,
        None => (640, 480),
    }
}

/// A message that was rendered, and for what size.
#[derive(Debug)]
pub struct Cached {
    pub reason: String,
    pub size: (i32, i32),
}

/// Whether the error screen must be rendered anew: for another message, and for
/// another size, since outputs differ.
pub fn is_stale(cached: &Option<Cached>, reason: &str, size: (i32, i32)) -> (r: bool)
    ensures
        r == !(cached matches Some(c) && c.reason@ == reason@ && c.size == size),
{
    match cached {
        Some(c) => !(same(&c.reason, reason) && c.size.0 == size.0 && c.size.1 == size.1),
        None => true,
    }
}

/// A channel under a letter is between its own value and the letter's, in proportion
/// to how much is covered and rounded down: untouched where nothing is, and the
/// letter's where all is.
pub proof fn law_a_channel_is_mixed(channel: int, under: u8, alpha: u8)
    ensures
        mixed(channel, under, 0) == under,
        mixed(channel, under, 255) == if channel == 0 {
            0xf2u8
        } else {
            0xe8u8
        },
        ({
            let letter: int = if channel == 0 {
                0xf2
            } else {
                0xe8
            };
            let whole = letter * alpha + under * (255 - alpha);
            255 * mixed(channel, under, alpha) <= whole < 255 * mixed(channel, under, alpha) + 255
        }),
{
    let letter = foreground(channel);
    let whole = letter * alpha + under * (255 - alpha);
    assert(0 <= whole <= 255 * 255) by (nonlinear_arith)
        requires
            whole == letter * alpha + under * (255 - alpha),
            0 <= letter <= 255,
            0 <= under <= 255,
            0 <= alpha <= 255,
    ;
    assert(letter * 0 + under * 255 == 255 * under);
    assert(letter * 255 + under * 0 == 255 * letter);
}

/// The place of a pixel of an image is no other pixel's.
proof fn lemma_places_differ(width: int, x: int, y: int, other_x: int, other_y: int)
    requires
        0 <= x < width,
        0 <= other_x < width,
        0 <= y,
        0 <= other_y,
        y * width + x == other_y * width + other_x,
    ensures
        x == other_x,
        y == other_y,
{
    let place = y * width + x;
    vstd::arithmetic::div_mod::lemma_fundamental_div_mod_converse(place, width, y, x);
    vstd::arithmetic::div_mod::lemma_fundamental_div_mod_converse(place, width, other_y, other_x);
}

/// The pixel that is blended is mixed, channel by channel, and no other is touched.
pub proof fn law_one_pixel_is_blended(
    data: Seq<u8>,
    width: int,
    height: int,
    x: int,
    y: int,
    alpha: u8,
    px: int,
    py: int,
    channel: int,
)
    requires
        data.len() == width * height * 4,
        0 <= px < width,
        0 <= py < height,
        0 <= channel < 4,
    ensures
        ({
            let at = (py * width + px) * 4 + channel;
            let after = blended(data, width, height, x, y, alpha);
            &&& 0 <= at < data.len()
            &&& after.len() == data.len()
            &&& x == px && y == py && channel < 3 ==> after[at] == mixed(channel, data[at], alpha)
            &&& x != px || y != py || channel == 3 ==> after[at] == data[at]
        }),
{
    lemma_blend_keeps(data, width, height, px, py, alpha);
    lemma_blend_keeps(data, width, height, x, y, alpha);
    if 0 <= x < width && 0 <= y < height && (x != px || y != py) {
        if y * width + x == py * width + px {
            lemma_places_differ(width, x, y, px, py);
        }
    }
}

proof fn lemma_inked_at(
    data: Seq<u8>,
    width: int,
    height: int,
    glyph: Glyph,
    n: int,
    px: int,
    py: int,
    channel: int,
)
    requires
        glyph.wf(),
        data.len() == width * height * 4,
        0 <= px < width,
        0 <= py < height,
        0 <= channel < 3,
        0 <= n <= glyph.coverage@.len(),
    ensures
        ({
            let at = (py * width + px) * 4 + channel;
            let (col, row) = (px - glyph.x, py - glyph.y);
            let k = row * glyph.width + col;
            let after = inked(data, width, height, glyph, n);
            &&& 0 <= at < data.len()
            &&& after.len() == data.len()
            &&& 0 <= col < glyph.width && 0 <= row < glyph.height && k < n ==> after[at] == mixed(
                channel,
                data[at],
                glyph.coverage@[k],
            )
            &&& !(0 <= col < glyph.width && 0 <= row < glyph.height && k < n) ==> after[at]
                == data[at]
        }),
    decreases n,
{
    let at = (py * width + px) * 4 + channel;
    let (col, row) = (px - glyph.x, py - glyph.y);
    let place = row * glyph.width + col;
    lemma_blend_keeps(data, width, height, px, py, 0);
    if n > 0 {
        let k = n - 1;
        let w = glyph.width as int;
        let before = inked(data, width, height, glyph, k);
        lemma_inked_at(data, width, height, glyph, k, px, py, channel);
        assert(w > 0) by (nonlinear_arith)
            requires
                0 < w * glyph.height,
                w >= 0,
        ;
        let (x, y) = (glyph.x + k % w, glyph.y + k / w);
        law_one_pixel_is_blended(before, width, height, x, y, glyph.coverage@[k], px, py, channel);
        vstd::arithmetic::div_mod::lemma_fundamental_div_mod(k, w);
        assert(0 <= k % w < w);
        assert(w * (k / w) == (k / w) * w) by (nonlinear_arith);
        if x == px && y == py {
            assert(place == k);
            assert(0 <= row < glyph.height) by (nonlinear_arith)
                requires
                    k == row * w + col,
                    0 <= col < w,
                    0 <= k < w * glyph.height,
                    w > 0,
            ;
        } else if 0 <= col < glyph.width && 0 <= row < glyph.height && place == k {
            vstd::arithmetic::div_mod::lemma_fundamental_div_mod_converse(k, w, row, col);
        }
    }
}

/// A letter is put on the image once: what is under each pixel of its box is mixed by
/// that pixel's coverage, and everything outside its box stays as it was.
pub proof fn law_a_letter_covers_its_box(
    data: Seq<u8>,
    width: int,
    height: int,
    glyph: Glyph,
    px: int,
    py: int,
    channel: int,
)
    requires
        glyph.wf(),
        data.len() == width * height * 4,
        0 <= px < width,
        0 <= py < height,
        0 <= channel < 3,
    ensures
        ({
            let at = (py * width + px) * 4 + channel;
            let (col, row) = (px - glyph.x, py - glyph.y);
            let after = inked(data, width, height, glyph, glyph.coverage@.len() as int);
            &&& 0 <= col < glyph.width && 0 <= row < glyph.height ==> after[at] == mixed(
                channel,
                data[at],
                glyph.coverage@[row * glyph.width + col],
            )
            &&& !(0 <= col < glyph.width && 0 <= row < glyph.height) ==> after[at] == data[at]
        }),
{
    lemma_inked_at(
        data,
        width,
        height,
        glyph,
        glyph.coverage@.len() as int,
        px,
        py,
        channel,
    );
    let (col, row) = (px - glyph.x, py - glyph.y);
    if 0 <= col < glyph.width && 0 <= row < glyph.height {
        assert(row * glyph.width + col < glyph.width * glyph.height) by (nonlinear_arith)
            requires
                0 <= col < glyph.width,
                0 <= row < glyph.height,
        ;
    }
}

/// Letters are put on the image one after the other, each on what was there before.
pub proof fn law_letters_follow_one_another(
    data: Seq<u8>,
    width: int,
    height: int,
    first: Seq<Glyph>,
    others: Seq<Glyph>,
    glyph: Glyph,
)
    ensures
        lettered(data, width, height, seq![]) == data,
        lettered(data, width, height, seq![glyph]) == inked(
            data,
            width,
            height,
            glyph,
            (glyph.coverage@.len()) as int,
        ),
        lettered(data, width, height, first + others) == lettered(
            lettered(data, width, height, first),
            width,
            height,
            others,
        ),
    decreases others.len(),
{
    assert(seq![glyph].drop_last() =~= Seq::<Glyph>::empty());
    assert(lettered(data, width, height, seq![glyph].drop_last()) == data);
    if others.len() == 0 {
        assert(first + others =~= first);
    } else {
        law_letters_follow_one_another(data, width, height, first, others.drop_last(), glyph);
        assert((first + others).drop_last() =~= first + others.drop_last());
    }
}

/// Without letters every pixel is the same opaque dark red.
pub proof fn law_the_background_is_even(width: int, height: int, pixel: int)
    requires
        width > 0,
        height > 0,
        0 <= pixel < width * height,
    ensures
        blank(width, height).len() == width * height * 4,
        blank(width, height)[pixel * 4] == 0x2b,
        blank(width, height)[pixel * 4 + 1] == 0x0b,
        blank(width, height)[pixel * 4 + 2] == 0x0b,
        blank(width, height)[pixel * 4 + 3] == 0xff,
{
    assert(width * height * 4 >= 0) by (nonlinear_arith)
        requires
            width > 0,
            height > 0,
    ;
}

/// A screen has at least one pixel each way, and otherwise as many as were asked for.
pub proof fn law_no_screen_is_empty(n: i32)
    ensures
        at_least_one(n) >= 1,
        n >= 1 ==> at_least_one(n) == n,
        n < 1 ==> at_least_one(n) == 1,
{
}

/// What was rendered serves as long as the message and the size are the same, and an
/// output without a mode gets a small screen.
pub proof fn law_when_to_render_anew(
    cached: Option<Cached>,
    reason: &str,
    size: (i32, i32),
    stale: bool,
    mode: Option<(i32, i32)>,
    chosen: (i32, i32),
)
    requires
        call_ensures(is_stale, (&cached, reason, size), stale),
        call_ensures(size_for, (mode,), chosen),
    ensures
        cached is None ==> stale,
        cached matches Some(c) ==> (stale <==> c.reason@ != reason@ || c.size.0 != size.0
            || c.size.1 != size.1),
        mode matches Some(given) ==> chosen == given,
        mode is None ==> chosen.0 == 640 && chosen.1 == 480,
{
}

} // verus!
