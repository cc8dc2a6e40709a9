use vstd::prelude::*;
use crate::color::{hex_to_rgba, palette_color, palette_hex, Rgba};

verus! {

/// Width of the snapshot grid, in pixels.
pub const SNAPSHOT_WIDTH: u32 = 128;

/// Length of a packed snapshot: two pixels per byte.
pub const SNAPSHOT_BYTES: usize = 8192;

/// One resolved snapshot pixel: its grid position and its colour.
#[derive(Clone, Copy, Debug, PartialEq, Eq, Structural)]
pub struct PixelStruct {
    pub x: u32,
    pub y: u32,
    pub pixel: Rgba,
}

/// The palette index at flat position `i`: the low nibble of byte `i / 2`
/// for even `i`, its high nibble for odd `i`.
pub open spec fn nibble_at(snapshot: Seq<u8>, i: int) -> int {
    if i % 2 == 0 {
        snapshot[i / 2] as int % 16
    } else {
        snapshot[i / 2] as int / 16
    }
}

/// The record produced for flat position `i`, laid out row-major on a
/// grid `SNAPSHOT_WIDTH` wide; a full snapshot fills 128 rows.
pub open spec fn pixel_record(snapshot: Seq<u8>, i: int) -> PixelStruct {
    PixelStruct {
        x: (i % SNAPSHOT_WIDTH as int) as u32,
        y: (i / SNAPSHOT_WIDTH as int) as u32,
        pixel: palette_color(nibble_at(snapshot, i)),
    }
}

/// The flat position of grid cell `(x, y)`.
pub open spec fn grid_index(x: int, y: int) -> int {
    y * SNAPSHOT_WIDTH as int + x
}

/// All records of a snapshot, two per byte, in byte order, low nibble first.
pub open spec fn pixel_records(snapshot: Seq<u8>) -> Seq<PixelStruct> {
    Seq::new(2 * snapshot.len(), |i: int| pixel_record(snapshot, i))
}

/// Unpacks each byte into two palette indices and resolves each to a
/// positioned colour.
pub fn convert_snapshot_to_pixel_array(snapshot: Vec<u8>) -> (r: Vec<PixelStruct>)
    requires
        snapshot@.len() <= 0x7FFF_FFFF,
    ensures
        r@ == pixel_records(snapshot@),
{
    let mut unpacked_array: Vec<u8> = Vec::new();
    let mut k: usize = 0;
    while k < snapshot.len()
        invariant
            k <= snapshot@.len() <= 0x7FFF_FFFF,
            unpacked_array@.len() == 2 * k,
            forall|i: int|
                0 <= i < 2 * k ==> #[trigger] unpacked_array@[i] as int == nibble_at(
                    snapshot@,
                    i,
                ),
        decreases snapshot@.len() - k,
    {
        let doublepixel = snapshot[k];
        unpacked_array.push(doublepixel % 16);
        unpacked_array.push(doublepixel / 16);
        k += 1;
    }

    let mut pixel_array: Vec<PixelStruct> = Vec::new();
    let mut i: usize = 0;
    while i < unpacked_array.len()
        invariant
            unpacked_array@.len() == 2 * snapshot@.len(),
            2 * snapshot@.len() <= 0xFFFF_FFFE,
            i <= unpacked_array@.len(),
            forall|j: int|
                0 <= j < unpacked_array@.len() ==> #[trigger] unpacked_array@[j] as int
                    == nibble_at(snapshot@, j),
            pixel_array@ == pixel_records(snapshot@).take(i as int),
        decreases unpacked_array@.len() - i,
    {
        let index = unpacked_array[i];
        assert(index < 16);
        let color = palette_hex(index);
        let position = i as u32;
        pixel_array.push(
            PixelStruct {
                x: position % SNAPSHOT_WIDTH,
                y: position / SNAPSHOT_WIDTH,
                pixel: hex_to_rgba(color),
            },
        );
        i += 1;
        assert(pixel_array@ =~= pixel_records(snapshot@).take(i as int));
    }
    assert(pixel_array@ =~= pixel_records(snapshot@));
    pixel_array
}

/// Relies on `rand::random`: one byte drawn from the thread-local generator.
/// Nothing is promised of its value.
#[verifier::external_body]
fn random_byte() -> (r: u8) {
    rand::random::<u8>()
}

/// Draws a fresh snapshot of `SNAPSHOT_BYTES` random bytes.
pub fn random_snapshot_image_data() -> (r: Vec<u8>)
    ensures
        r@.len() == SNAPSHOT_BYTES,
{
    let mut arr: Vec<u8> = Vec::new();
    let mut k: usize = 0;
    while k < SNAPSHOT_BYTES
        invariant
            k <= SNAPSHOT_BYTES,
            arr@.len() == k,
        decreases SNAPSHOT_BYTES - k,
    {
        arr.push(random_byte());
        k += 1;
    }
    arr
}

/// A snapshot whose records fill `rows` rows of the grid yields one record
/// per cell of that `SNAPSHOT_WIDTH` by `rows` raster: every record lies on
/// it, every cell has a record, and no two records share a cell.
pub proof fn lemma_records_cover_raster(snapshot: Seq<u8>, rows: int)
    requires
        2 * snapshot.len() == SNAPSHOT_WIDTH * rows,
        snapshot.len() <= 0x7FFF_FFFF,
    ensures
        pixel_records(snapshot).len() == SNAPSHOT_WIDTH * rows,
        forall|i: int|
            0 <= i < pixel_records(snapshot).len() ==> (#[trigger] pixel_records(snapshot)[i]).x
                < SNAPSHOT_WIDTH && pixel_records(snapshot)[i].y < rows,
        forall|x: int, y: int|
            0 <= x < SNAPSHOT_WIDTH && 0 <= y < rows ==> 0 <= grid_index(x, y) < pixel_records(
                snapshot,
            ).len() && (#[trigger] pixel_records(snapshot)[grid_index(x, y)]).x == x
                && pixel_records(snapshot)[grid_index(x, y)].y == y,
        forall|i: int, j: int|
            0 <= i < pixel_records(snapshot).len() && 0 <= j < pixel_records(snapshot).len()
                && (#[trigger] pixel_records(snapshot)[i]).x == (#[trigger] pixel_records(
                snapshot,
            )[j]).x && pixel_records(snapshot)[i].y == pixel_records(snapshot)[j].y ==> i == j,
{
    let recs = pixel_records(snapshot);
    assert forall|i: int| 0 <= i < recs.len() implies (#[trigger] recs[i]).x < SNAPSHOT_WIDTH
        && recs[i].y < rows by {
        assert(0 <= i % 128 < 128 && 0 <= i / 128 < rows);
    }
    assert forall|x: int, y: int| 0 <= x < SNAPSHOT_WIDTH && 0 <= y < rows implies 0
        <= grid_index(x, y) < recs.len() && (#[trigger] recs[grid_index(x, y)]).x == x
        && recs[grid_index(x, y)].y == y by {
        let i = grid_index(x, y);
        assert(i < 128 * rows);
        assert(i % 128 == x && i / 128 == y);
    }
    assert forall|i: int, j: int|
        0 <= i < recs.len() && 0 <= j < recs.len() && (#[trigger] recs[i]).x == (#[trigger] recs[j]).x
            && recs[i].y == recs[j].y implies i == j by {
        assert(i == 128 * (i / 128) + i % 128);
        assert(j == 128 * (j / 128) + j % 128);
    }
}

} // verus!
