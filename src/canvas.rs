use vstd::prelude::*;
use crate::color::{palette_color, Rgba};
use crate::snapshot::{
    convert_snapshot_to_pixel_array, grid_index, lemma_records_cover_raster, nibble_at,
    pixel_records, PixelStruct, SNAPSHOT_BYTES, SNAPSHOT_WIDTH,
};

verus! {

/// An RGBA raster, 8 bits per channel, stored row-major with four bytes per
/// pixel in the order red, green, blue, alpha.
pub struct PixelBuffer {
    pub width: u32,
    pub height: u32,
    pub data: Vec<u8>,
}

impl PixelBuffer {
    /// The byte buffer holds exactly `width * height` pixels.
    pub open spec fn wf(&self) -> bool {
        self.data@.len() == self.width * self.height * 4
    }
}

/// Channel `k` of a colour: 0 red, 1 green, 2 blue, 3 alpha.
pub open spec fn channel(c: Rgba, k: int) -> u8 {
    if k == 0 {
        c.r
    } else if k == 1 {
        c.g
    } else if k == 2 {
        c.b
    } else {
        c.a
    }
}

/// `data` with pixel number `q` (row-major) overwritten by `c`.
pub open spec fn with_pixel(data: Seq<u8>, q: int, c: Rgba) -> Seq<u8> {
    Seq::new(data.len(), |k: int| if k / 4 == q { channel(c, k % 4) } else { data[k] })
}

/// The pixel number that a record lands on, once shifted by the offset.
pub open spec fn target(width: int, p: PixelStruct, ox: int, oy: int) -> int {
    (p.y + oy) * width + p.x + ox
}

/// `data` after the records of `pixels` have been written in order, each
/// overwriting what was there.
pub open spec fn blit(data: Seq<u8>, width: int, pixels: Seq<PixelStruct>, ox: int, oy: int) -> Seq<
    u8,
>
    decreases pixels.len(),
{
    if pixels.len() == 0 {
        data
    } else {
        with_pixel(
            blit(data, width, pixels.drop_last(), ox, oy),
            target(width, pixels.last(), ox, oy),
            pixels.last().pixel,
        )
    }
}

proof fn lemma_cell_in_raster(x: int, y: int, width: int, height: int)
    requires
        0 <= x < width,
        0 <= y < height,
    ensures
        0 <= y * width + x < width * height,
{
    assert(y * width + x < width * height) by (nonlinear_arith)
        requires
            0 <= x < width,
            0 <= y < height,
    ;
    assert(0 <= y * width) by (nonlinear_arith)
        requires
            0 <= x < width,
            0 <= y,
    ;
}

impl PixelBuffer {
    /// Overwrites the pixel at `(x, y)` with `c`.
    pub fn put_pixel(&mut self, x: u32, y: u32, c: Rgba)
        requires
            old(self).wf(),
            x < old(self).width,
            y < old(self).height,
        ensures
            final(self).width == old(self).width,
            final(self).height == old(self).height,
            final(self).data@ == with_pixel(
                old(self).data@,
                y * old(self).width + x,
                c,
            ),
    {
        let ghost q = y * self.width + x;
        let ghost before = self.data@;
        proof {
            lemma_cell_in_raster(x as int, y as int, self.width as int, self.height as int);
        }
        let len = self.data.len();
        assert(q * 4 + 3 < len);
        let base: usize = ((y as usize) * (self.width as usize) + x as usize) * 4;
        self.data.set(base, c.r);
        self.data.set(base + 1, c.g);
        self.data.set(base + 2, c.b);
        self.data.set(base + 3, c.a);
        assert(self.data@ =~= with_pixel(before, q, c));
    }
}

/// Column of the template at which the snapshot's left edge is placed.
pub const TEMPLATE_OFFSET_X: u32 = 0;

/// Row of the template at which the snapshot's top edge is placed.
pub const TEMPLATE_OFFSET_Y: u32 = 0;

/// Every record, shifted by the offset, lands inside a `width` by `height` raster.
pub open spec fn all_in_bounds(
    pixels: Seq<PixelStruct>,
    width: int,
    height: int,
    ox: int,
    oy: int,
) -> bool {
    forall|i: int|
        0 <= i < pixels.len() ==> (#[trigger] pixels[i]).x + ox < width && pixels[i].y + oy
            < height
}

/// Writes each record onto the canvas at its position shifted by
/// `(offset_x, offset_y)`, in order, overwriting what was there.
pub fn composite_pixels(
    canvas: &mut PixelBuffer,
    pixels: &Vec<PixelStruct>,
    offset_x: u32,
    offset_y: u32,
)
    requires
        old(canvas).wf(),
        all_in_bounds(
            pixels@,
            old(canvas).width as int,
            old(canvas).height as int,
            offset_x as int,
            offset_y as int,
        ),
    ensures
        final(canvas).width == old(canvas).width,
        final(canvas).height == old(canvas).height,
        final(canvas).data@ == blit(
            old(canvas).data@,
            old(canvas).width as int,
            pixels@,
            offset_x as int,
            offset_y as int,
        ),
{
    let ghost start = canvas.data@;
    let mut i: usize = 0;
    assert(pixels@.take(0) =~= Seq::<PixelStruct>::empty());
    while i < pixels.len()
        invariant
            i <= pixels@.len(),
            canvas.wf(),
            canvas.width == old(canvas).width,
            canvas.height == old(canvas).height,
            all_in_bounds(
                pixels@,
                canvas.width as int,
                canvas.height as int,
                offset_x as int,
                offset_y as int,
            ),
            canvas.data@ == blit(
                start,
                canvas.width as int,
                pixels@.take(i as int),
                offset_x as int,
                offset_y as int,
            ),
        decreases pixels@.len() - i,
    {
        let pixel = pixels[i];
        assert(pixels@[i as int] == pixel);
        canvas.put_pixel(pixel.x + offset_x, pixel.y + offset_y, pixel.pixel);
        assert(pixels@.take(i + 1).drop_last() =~= pixels@.take(i as int));
        i += 1;
    }
    assert(pixels@.take(i as int) =~= pixels@);
}

/// Composites a packed snapshot onto the canvas at the template offset.
pub fn apply_snapshot(canvas: &mut PixelBuffer, snapshot: Vec<u8>)
    requires
        old(canvas).wf(),
        snapshot@.len() <= 0x7FFF_FFFF,
        TEMPLATE_OFFSET_X + SNAPSHOT_WIDTH <= old(canvas).width,
        2 * snapshot@.len() <= SNAPSHOT_WIDTH * (old(canvas).height - TEMPLATE_OFFSET_Y),
    ensures
        final(canvas).width == old(canvas).width,
        final(canvas).height == old(canvas).height,
        final(canvas).data@ == blit(
            old(canvas).data@,
            old(canvas).width as int,
            pixel_records(snapshot@),
            TEMPLATE_OFFSET_X as int,
            TEMPLATE_OFFSET_Y as int,
        ),
{
    let ghost s = snapshot@;
    let pixel_array = convert_snapshot_to_pixel_array(snapshot);
    assert forall|i: int| 0 <= i < pixel_array@.len() implies (#[trigger] pixel_array@[i]).x
        + TEMPLATE_OFFSET_X < canvas.width && pixel_array@[i].y + TEMPLATE_OFFSET_Y
        < canvas.height by {
        assert(i < SNAPSHOT_WIDTH * (canvas.height - TEMPLATE_OFFSET_Y));
        assert(i / 128 < canvas.height - TEMPLATE_OFFSET_Y);
    }
    composite_pixels(canvas, &pixel_array, TEMPLATE_OFFSET_X, TEMPLATE_OFFSET_Y);
}

/// Some record of `pixels` lands on pixel number `q`.
pub open spec fn hits(width: int, pixels: Seq<PixelStruct>, ox: int, oy: int, q: int) -> bool {
    exists|j: int| 0 <= j < pixels.len() && target(width, #[trigger] pixels[j], ox, oy) == q
}

proof fn lemma_blit_len(data: Seq<u8>, width: int, pixels: Seq<PixelStruct>, ox: int, oy: int)
    ensures
        blit(data, width, pixels, ox, oy).len() == data.len(),
    decreases pixels.len(),
{
    if pixels.len() > 0 {
        lemma_blit_len(data, width, pixels.drop_last(), ox, oy);
    }
}

/// A byte of a pixel that no record lands on keeps its value.
proof fn lemma_blit_untouched(
    data: Seq<u8>,
    width: int,
    pixels: Seq<PixelStruct>,
    ox: int,
    oy: int,
    k: int,
)
    requires
        0 <= k < data.len(),
        !hits(width, pixels, ox, oy, k / 4),
    ensures
        blit(data, width, pixels, ox, oy)[k] == data[k],
    decreases pixels.len(),
{
    if pixels.len() > 0 {
        let rest = pixels.drop_last();
        assert(!hits(width, rest, ox, oy, k / 4)) by {
            if hits(width, rest, ox, oy, k / 4) {
                let j = choose|j: int|
                    0 <= j < rest.len() && target(width, #[trigger] rest[j], ox, oy) == k / 4;
                assert(pixels[j] == rest[j]);
            }
        }
        assert(target(width, pixels[pixels.len() - 1], ox, oy) != k / 4);
        lemma_blit_len(data, width, rest, ox, oy);
        lemma_blit_untouched(data, width, rest, ox, oy, k);
    }
}

/// A byte of a pixel that some record lands on does not depend on what the
/// buffer held before.
proof fn lemma_blit_covered(
    d1: Seq<u8>,
    d2: Seq<u8>,
    width: int,
    pixels: Seq<PixelStruct>,
    ox: int,
    oy: int,
    k: int,
)
    requires
        d1.len() == d2.len(),
        0 <= k < d1.len(),
        hits(width, pixels, ox, oy, k / 4),
    ensures
        blit(d1, width, pixels, ox, oy)[k] == blit(d2, width, pixels, ox, oy)[k],
    decreases pixels.len(),
{
    let rest = pixels.drop_last();
    lemma_blit_len(d1, width, rest, ox, oy);
    lemma_blit_len(d2, width, rest, ox, oy);
    if target(width, pixels.last(), ox, oy) != k / 4 {
        let j = choose|j: int|
            0 <= j < pixels.len() && target(width, #[trigger] pixels[j], ox, oy) == k / 4;
        assert(rest[j] == pixels[j]);
        assert(hits(width, rest, ox, oy, k / 4));
        lemma_blit_covered(d1, d2, width, rest, ox, oy, k);
    }
}

/// A byte takes its value from the last record that lands on its pixel.
proof fn lemma_blit_last_hit(
    data: Seq<u8>,
    width: int,
    pixels: Seq<PixelStruct>,
    ox: int,
    oy: int,
    k: int,
    j: int,
)
    requires
        0 <= k < data.len(),
        0 <= j < pixels.len(),
        target(width, pixels[j], ox, oy) == k / 4,
        forall|l: int|
            j < l < pixels.len() ==> target(width, #[trigger] pixels[l], ox, oy) != k / 4,
    ensures
        blit(data, width, pixels, ox, oy)[k] == channel(pixels[j].pixel, k % 4),
    decreases pixels.len(),
{
    let rest = pixels.drop_last();
    lemma_blit_len(data, width, rest, ox, oy);
    if j < pixels.len() - 1 {
        assert(rest[j] == pixels[j]);
        assert forall|l: int| j < l < rest.len() implies target(width, #[trigger] rest[l], ox, oy)
            != k / 4 by {
            assert(rest[l] == pixels[l]);
        }
        assert(target(width, pixels[pixels.len() - 1], ox, oy) != k / 4);
        lemma_blit_last_hit(data, width, rest, ox, oy, k, j);
    }
}

/// Compositing the same records a second time changes nothing: the result
/// of compositing depends only on the records at every pixel they cover.
pub proof fn lemma_composite_idempotent(
    data: Seq<u8>,
    width: int,
    pixels: Seq<PixelStruct>,
    ox: int,
    oy: int,
)
    ensures
        blit(blit(data, width, pixels, ox, oy), width, pixels, ox, oy) == blit(
            data,
            width,
            pixels,
            ox,
            oy,
        ),
{
    let once = blit(data, width, pixels, ox, oy);
    let twice = blit(once, width, pixels, ox, oy);
    lemma_blit_len(data, width, pixels, ox, oy);
    lemma_blit_len(once, width, pixels, ox, oy);
    assert forall|k: int| 0 <= k < once.len() implies twice[k] == once[k] by {
        if hits(width, pixels, ox, oy, k / 4) {
            lemma_blit_covered(once, data, width, pixels, ox, oy, k);
        } else {
            lemma_blit_untouched(once, width, pixels, ox, oy, k);
        }
    }
    assert(twice =~= once);
}

proof fn lemma_targets_distinct(x1: int, y1: int, x2: int, y2: int, width: int, ox: int, oy: int)
    requires
        0 <= x1,
        0 <= x2,
        0 <= y1,
        0 <= y2,
        0 <= ox,
        0 <= oy,
        x1 + ox < width,
        x2 + ox < width,
        (y1 + oy) * width + x1 + ox == (y2 + oy) * width + x2 + ox,
    ensures
        x1 == x2 && y1 == y2,
{
    if y1 < y2 {
        assert((y1 + oy) * width + width <= (y2 + oy) * width) by (nonlinear_arith)
            requires
                y1 < y2,
                0 <= width,
        ;
    } else if y2 < y1 {
        assert((y2 + oy) * width + width <= (y1 + oy) * width) by (nonlinear_arith)
            requires
                y2 < y1,
                0 <= width,
        ;
    }
}

/// After a full snapshot is composited onto a template large enough to hold
/// it, each cell of the snapshot grid, shifted by the offset, shows the
/// palette colour of that cell's nibble.
pub proof fn lemma_snapshot_cell_color(
    data: Seq<u8>,
    width: int,
    height: int,
    snapshot: Seq<u8>,
    ox: int,
    oy: int,
    x: int,
    y: int,
    c: int,
)
    requires
        data.len() == width * height * 4,
        snapshot.len() == SNAPSHOT_BYTES,
        0 <= ox,
        0 <= oy,
        ox + SNAPSHOT_WIDTH <= width,
        oy + 2 * SNAPSHOT_BYTES / SNAPSHOT_WIDTH as int <= height,
        0 <= x < SNAPSHOT_WIDTH,
        0 <= y < 2 * SNAPSHOT_BYTES / SNAPSHOT_WIDTH as int,
        0 <= c < 4,
    ensures
        blit(data, width, pixel_records(snapshot), ox, oy)[((y + oy) * width + x + ox) * 4 + c]
            == channel(palette_color(nibble_at(snapshot, grid_index(x, y))), c),
{
    let recs = pixel_records(snapshot);
    let rows = 2 * SNAPSHOT_BYTES / SNAPSHOT_WIDTH as int;
    lemma_records_cover_raster(snapshot, rows);
    let q = (y + oy) * width + x + ox;
    let k = q * 4 + c;
    let j = grid_index(x, y);
    lemma_cell_in_raster(x + ox, y + oy, width, height);
    assert(recs[j].x == x && recs[j].y == y);
    assert(k / 4 == q && k % 4 == c);
    assert forall|l: int| j < l < recs.len() implies target(width, #[trigger] recs[l], ox, oy)
        != k / 4 by {
        if target(width, recs[l], ox, oy) == q {
            lemma_targets_distinct(
                recs[l].x as int,
                recs[l].y as int,
                x,
                y,
                width,
                ox,
                oy,
            );
        }
    }
    lemma_blit_last_hit(data, width, recs, ox, oy, k, j);
}

/// What an image file decodes to: width, height and row-major RGBA bytes.
pub uninterp spec fn decoded_image(bytes: Seq<u8>) -> Option<(u32, u32, Seq<u8>)>;

/// Relies on `image::load_from_memory`, which guesses the format of an image
/// file held in memory and decodes it, or fails. The image is handed out as
/// 8-bit RGBA through `DynamicImage::to_rgba8`.
#[verifier::external_body]
fn decode_rgba(bytes: &[u8]) -> (r: Option<(u32, u32, Vec<u8>)>)
    ensures
        r is Some <==> decoded_image(bytes@) is Some,
        r is Some ==> decoded_image(bytes@) == Some((r.unwrap().0, r.unwrap().1, r.unwrap().2@)),
{
    match image::load_from_memory(bytes) {
        Ok(img) => {
            let rgba = img.to_rgba8();
            Some((rgba.width(), rgba.height(), rgba.into_raw()))
        },
        Err(_) => None,
    }
}

/// The image file decodes, and to exactly `width * height` pixels.
pub open spec fn is_template(bytes: Seq<u8>) -> bool {
    &&& decoded_image(bytes) is Some
    &&& decoded_image(bytes).unwrap().2.len() == decoded_image(bytes).unwrap().0
        * decoded_image(bytes).unwrap().1 * 4
}

/// Decodes an image file into a pixel buffer; `None` when the bytes are not
/// an image the decoder understands, or decode to a byte count that does not
/// match the image's dimensions.
pub fn load_template(bytes: &[u8]) -> (r: Option<PixelBuffer>)
    ensures
        r is Some <==> is_template(bytes@),
        r is Some ==> r.unwrap().wf() && decoded_image(bytes@) == Some(
            (r.unwrap().width, r.unwrap().height, r.unwrap().data@),
        ),
{
    match decode_rgba(bytes) {
        Some((width, height, data)) => {
            proof {
                assert(0 <= width * height <= 0xFFFF_FFFE_0000_0001) by (nonlinear_arith)
                    requires
                        width <= 0xFFFF_FFFF,
                        height <= 0xFFFF_FFFF,
                ;
            }
            let pixels: u64 = (width as u64) * (height as u64);
            if data.len() as u128 == (pixels as u128) * 4 {
                Some(PixelBuffer { width, height, data })
            } else {
                None
            }
        },
        None => None,
    }
}

/// The standard base64 text, padded, of a byte sequence.
pub uninterp spec fn base64_of(bytes: Seq<u8>) -> Seq<char>;

/// Relies on `base64::encode` (the standard alphabet, with padding): four
/// characters for each started group of three bytes. It panics when that
/// length overflows `usize`, which the precondition excludes.
#[verifier::external_body]
fn encode_base64(bytes: &[u8]) -> (r: String)
    requires
        4 * ((bytes@.len() + 2) / 3) <= usize::MAX,
    ensures
        r@ == base64_of(bytes@),
        r@.len() == 4 * ((bytes@.len() + 2) / 3),
{
    #[allow(deprecated)]
    base64::encode(bytes)
}

/// The base64 text of the canvas's raw RGBA bytes.
pub fn raw_base64(canvas: &PixelBuffer) -> (r: String)
    requires
        4 * ((canvas.data@.len() + 2) / 3) <= usize::MAX,
    ensures
        r@ == base64_of(canvas.data@),
        r@.len() == 4 * ((canvas.data@.len() + 2) / 3),
{
    encode_base64(canvas.data.as_slice())
}

} // verus!
