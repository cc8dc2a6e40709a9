use snapshot_card::canvas::{
    apply_snapshot, composite_pixels, load_template, raw_base64, PixelBuffer,
    TEMPLATE_OFFSET_X, TEMPLATE_OFFSET_Y,
};
use snapshot_card::color::{hex_to_rgba, palette_hex, Rgba, PALETTE_LEN};
use snapshot_card::snapshot::{
    convert_snapshot_to_pixel_array, random_snapshot_image_data, PixelStruct, SNAPSHOT_BYTES,
    SNAPSHOT_WIDTH,
};

fn rgba(r: u8, g: u8, b: u8, a: u8) -> Rgba {
    Rgba { r, g, b, a }
}

fn palette(i: u8) -> Rgba {
    hex_to_rgba(palette_hex(i))
}

fn patterned_snapshot(len: usize) -> Vec<u8> {
    (0..len).map(|i| ((i * 37 + 11) % 256) as u8).collect()
}

fn blank_canvas(width: u32, height: u32, fill: u8) -> PixelBuffer {
    PixelBuffer { width, height, data: vec![fill; (width * height * 4) as usize] }
}

fn pixel_at(canvas: &PixelBuffer, x: u32, y: u32) -> Rgba {
    let base = ((y * canvas.width + x) * 4) as usize;
    rgba(canvas.data[base], canvas.data[base + 1], canvas.data[base + 2], canvas.data[base + 3])
}

#[test]
fn hex_opaque_white() {
    assert_eq!(hex_to_rgba("#FFFFFF"), rgba(255, 255, 255, 255));
}

#[test]
fn hex_explicit_zero_alpha() {
    assert_eq!(hex_to_rgba("#00000000"), rgba(0, 0, 0, 0));
}

#[test]
fn hex_explicit_alpha_and_lower_case() {
    assert_eq!(hex_to_rgba("#12345678"), rgba(0x12, 0x34, 0x56, 0x78));
    assert_eq!(hex_to_rgba("#34d7e0"), rgba(0x34, 0xD7, 0xE0, 255));
}

#[test]
fn palette_matches_table() {
    let table: [(u8, u8, u8); 16] = [
        (0xFF, 0xFF, 0xFF),
        (0xE4, 0xE4, 0xE4),
        (0x88, 0x88, 0x88),
        (0x22, 0x22, 0x22),
        (0xFD, 0xA1, 0xD3),
        (0xF8, 0x22, 0x00),
        (0xF0, 0x92, 0x00),
        (0xA8, 0x68, 0x39),
        (0xE6, 0xDA, 0x00),
        (0x7B, 0xE4, 0x00),
        (0x0F, 0xC3, 0x00),
        (0x34, 0xD7, 0xE0),
        (0x2B, 0x84, 0xCD),
        (0x32, 0x00, 0xF4),
        (0xDE, 0x64, 0xEA),
        (0x8E, 0x0A, 0x85),
    ];
    assert_eq!(PALETTE_LEN as usize, table.len());
    for (i, (r, g, b)) in table.iter().enumerate() {
        assert_eq!(palette(i as u8), rgba(*r, *g, *b, 255));
    }
}

#[test]
fn byte_zero_gives_two_white_pixels() {
    let p = convert_snapshot_to_pixel_array(vec![0x00]);
    assert_eq!(p.len(), 2);
    assert_eq!(p[0].pixel, rgba(0xFF, 0xFF, 0xFF, 255));
    assert_eq!(p[1].pixel, rgba(0xFF, 0xFF, 0xFF, 255));
}

#[test]
fn byte_ff_gives_two_last_palette_pixels() {
    let p = convert_snapshot_to_pixel_array(vec![0xFF]);
    assert_eq!(p.len(), 2);
    assert_eq!(p[0].pixel, rgba(0x8E, 0x0A, 0x85, 255));
    assert_eq!(p[1].pixel, rgba(0x8E, 0x0A, 0x85, 255));
}

#[test]
fn byte_10_low_nibble_first() {
    let p = convert_snapshot_to_pixel_array(vec![0x10]);
    assert_eq!(p[0], PixelStruct { x: 0, y: 0, pixel: rgba(0xFF, 0xFF, 0xFF, 255) });
    assert_eq!(p[1], PixelStruct { x: 1, y: 0, pixel: rgba(0xE4, 0xE4, 0xE4, 255) });
}

#[test]
fn empty_snapshot_gives_no_pixels() {
    assert!(convert_snapshot_to_pixel_array(Vec::new()).is_empty());
}

#[test]
fn full_snapshot_covers_raster_once() {
    let p = convert_snapshot_to_pixel_array(patterned_snapshot(SNAPSHOT_BYTES));
    assert_eq!(p.len(), 16384);
    let mut seen = vec![false; 16384];
    for rec in p.iter() {
        assert!(rec.x < 128 && rec.y < 128);
        let cell = (rec.y * 128 + rec.x) as usize;
        assert!(!seen[cell]);
        seen[cell] = true;
    }
    assert!(seen.iter().all(|s| *s));
}

#[test]
fn half_snapshot_covers_128_by_64_once() {
    let p = convert_snapshot_to_pixel_array(patterned_snapshot(4096));
    assert_eq!(p.len(), 8192);
    let mut seen = vec![false; 8192];
    for rec in p.iter() {
        assert!(rec.x < 128 && rec.y < 64);
        let cell = (rec.y * 128 + rec.x) as usize;
        assert!(!seen[cell]);
        seen[cell] = true;
    }
    assert!(seen.iter().all(|s| *s));
}

#[test]
fn flat_index_to_coordinates() {
    let p = convert_snapshot_to_pixel_array(patterned_snapshot(SNAPSHOT_BYTES));
    assert_eq!((p[0].x, p[0].y), (0, 0));
    assert_eq!((p[127].x, p[127].y), (127, 0));
    assert_eq!((p[128].x, p[128].y), (0, 1));
    assert_eq!((p[16383].x, p[16383].y), (127, 127));
}

#[test]
fn nibbles_resolve_in_byte_order() {
    let snapshot = patterned_snapshot(SNAPSHOT_BYTES);
    let p = convert_snapshot_to_pixel_array(snapshot.clone());
    for (k, byte) in snapshot.iter().enumerate() {
        assert_eq!(p[2 * k].pixel, palette(byte % 16));
        assert_eq!(p[2 * k + 1].pixel, palette(byte / 16));
    }
}

#[test]
fn random_snapshot_has_full_length() {
    assert_eq!(random_snapshot_image_data().len(), SNAPSHOT_BYTES);
    assert_eq!(SNAPSHOT_BYTES, 8192);
    assert_eq!(SNAPSHOT_WIDTH, 128);
}

#[test]
fn put_pixel_overwrites_one_pixel() {
    let mut canvas = blank_canvas(3, 2, 7);
    canvas.put_pixel(2, 1, rgba(1, 2, 3, 4));
    assert_eq!(pixel_at(&canvas, 2, 1), rgba(1, 2, 3, 4));
    assert_eq!(pixel_at(&canvas, 1, 1), rgba(7, 7, 7, 7));
    assert_eq!(canvas.data.len(), 24);
}

#[test]
fn composite_later_records_win() {
    let mut canvas = blank_canvas(4, 4, 0);
    let pixels = vec![
        PixelStruct { x: 0, y: 0, pixel: rgba(1, 1, 1, 1) },
        PixelStruct { x: 1, y: 0, pixel: rgba(2, 2, 2, 2) },
        PixelStruct { x: 0, y: 0, pixel: rgba(3, 3, 3, 3) },
    ];
    composite_pixels(&mut canvas, &pixels, 2, 1);
    assert_eq!(pixel_at(&canvas, 2, 1), rgba(3, 3, 3, 3));
    assert_eq!(pixel_at(&canvas, 3, 1), rgba(2, 2, 2, 2));
    assert_eq!(pixel_at(&canvas, 0, 0), rgba(0, 0, 0, 0));
}

#[test]
fn compositing_twice_changes_nothing() {
    let snapshot = patterned_snapshot(SNAPSHOT_BYTES);
    let mut once = blank_canvas(130, 212, 9);
    apply_snapshot(&mut once, snapshot.clone());
    let mut twice = blank_canvas(130, 212, 9);
    apply_snapshot(&mut twice, snapshot.clone());
    assert_eq!(once.data, twice.data);
    apply_snapshot(&mut twice, snapshot);
    assert_eq!(once.data, twice.data);
}

#[test]
fn end_to_end_first_pixel_from_first_byte() {
    let snapshot = patterned_snapshot(SNAPSHOT_BYTES);
    let mut canvas = blank_canvas(128, 64 + 148, 42);
    apply_snapshot(&mut canvas, snapshot.clone());
    assert_eq!(
        pixel_at(&canvas, TEMPLATE_OFFSET_X, TEMPLATE_OFFSET_Y),
        palette(snapshot[0] % 16)
    );
    assert_eq!(pixel_at(&canvas, 1, 0), palette(snapshot[0] / 16));
    assert_eq!(pixel_at(&canvas, 0, 200), rgba(42, 42, 42, 42));
}

#[test]
fn load_template_rejects_garbage() {
    assert!(load_template(&[1, 2, 3, 4, 5]).is_none());
    assert!(load_template(&[]).is_none());
}

#[test]
fn load_template_decodes_png() {
    let mut img = image::RgbaImage::new(2, 1);
    img.put_pixel(0, 0, image::Rgba([10, 20, 30, 255]));
    img.put_pixel(1, 0, image::Rgba([40, 50, 60, 128]));
    let mut bytes = std::io::Cursor::new(Vec::new());
    image::DynamicImage::ImageRgba8(img)
        .write_to(&mut bytes, image::ImageOutputFormat::Png)
        .unwrap();
    let canvas = load_template(bytes.get_ref()).unwrap();
    assert_eq!((canvas.width, canvas.height), (2, 1));
    assert_eq!(canvas.data, vec![10, 20, 30, 255, 40, 50, 60, 128]);
}

#[test]
fn raw_bytes_to_base64() {
    let canvas = PixelBuffer { width: 1, height: 1, data: vec![1, 2, 3, 4] };
    assert_eq!(raw_base64(&canvas), "AQIDBA==");
    let empty = PixelBuffer { width: 0, height: 0, data: Vec::new() };
    assert_eq!(raw_base64(&empty), "");
}
