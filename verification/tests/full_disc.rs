use image::{GenericImageView, ImageEncoder};
use rustwari::cvutils::Assembler;
use rustwari::himawaridt::HimawariDatetime;
use rustwari::tiles::{
    full_disc_tiles, on_fetch_event, FetchAction, FetchError, FetchEvent, FetchState, RetryPolicy,
};

fn color_of(x: u32, y: u32) -> [u8; 4] {
    [(10 + 12 * x) as u8, (10 + 12 * y) as u8, (x * 20 + y) as u8, 255]
}

/// The stub publisher: a solid tile whose colour tells the cell, read from
/// the end of the locator, `..._<column>_<row>.png`. Tiles of the columns
/// from `band` to `band + 4` are served whole, 550 pixels wide and high; to
/// keep a run short the others are served as their upper left pixel.
fn served_tile(url: &url::Url, band: u32) -> Vec<u8> {
    let name = url.path().rsplit('/').next().unwrap().trim_end_matches(".png");
    let mut parts = name.split('_');
    assert_eq!(parts.next(), Some("001000"));
    let x: u32 = parts.next().unwrap().parse().unwrap();
    let y: u32 = parts.next().unwrap().parse().unwrap();
    let edge = edge_of(x, band);
    let tile = image::RgbaImage::from_pixel(edge, edge, image::Rgba(color_of(x, y)));
    let mut bytes = Vec::new();
    image::codecs::png::PngEncoder::new_with_quality(
        &mut bytes,
        image::codecs::png::CompressionType::Fast,
        image::codecs::png::FilterType::NoFilter,
    )
    .write_image(tile.as_raw(), edge, edge, image::ColorType::Rgba8)
    .unwrap();
    bytes
}

fn edge_of(x: u32, band: u32) -> u32 {
    if band <= x && x < band + 5 {
        550
    } else {
        1
    }
}

#[test]
fn a_snapshot_is_fetched_and_assembled_columns_0_to_4() {
    fetch_and_assemble(0);
}

#[test]
fn a_snapshot_is_fetched_and_assembled_columns_5_to_9() {
    fetch_and_assemble(5);
}

#[test]
fn a_snapshot_is_fetched_and_assembled_columns_10_to_14() {
    fetch_and_assemble(10);
}

#[test]
fn a_snapshot_is_fetched_and_assembled_columns_15_to_19() {
    fetch_and_assemble(15);
}

fn fetch_and_assemble(band: u32) {
    let hwdt = HimawariDatetime { year: 2022, month: 9, day: 21, h: 0, m: 10 };
    assert_eq!(hwdt.pretty_filename(), "fulldisc-2022-09-21 00_10.png");
    let tiles = full_disc_tiles(&hwdt).unwrap();
    let policy = RetryPolicy::unlimited();
    let mut conduit: Vec<(Vec<u8>, u32, u32)> = Vec::new();
    for (i, tile) in tiles.iter().enumerate() {
        // Every seventh tile fails twice before it arrives.
        let mut failures = if i % 7 == 0 { 2 } else { 0 };
        let (mut state, mut action) =
            on_fetch_event(&policy, FetchState::Pending, FetchEvent::Started);
        while action == FetchAction::Request {
            let event = if failures > 0 {
                failures -= 1;
                FetchEvent::Failure(FetchError::HttpStatus(503))
            } else {
                FetchEvent::Fetched
            };
            (state, action) = on_fetch_event(&policy, state, event);
        }
        assert_eq!((state, action), (FetchState::Delivered, FetchAction::Deliver));
        conduit.push((served_tile(&tile.url, band), tile.x, tile.y));
    }
    assert_eq!(conduit.len(), 400);
    // The tiles arrive in an order of their own.
    let order: Vec<usize> = (0..400).map(|i| (i * 141 + 17 + band as usize) % 400).collect();
    let mut sorted = order.clone();
    sorted.sort();
    sorted.dedup();
    assert_eq!(sorted.len(), 400);
    let mut assembler = Assembler::new();
    for (n, i) in order.iter().enumerate() {
        assert!(!assembler.is_complete());
        assert_eq!(assembler.consumed(), n);
        let (bytes, x, y) = &conduit[*i];
        assert_eq!(assembler.accept(bytes, *x, *y), Ok(()));
    }
    assert!(assembler.is_complete());
    let image = match assembler.finish() {
        Ok(image) => image,
        Err(_) => panic!("the finished mosaic is held back"),
    };
    assert_eq!(image.dimensions(), (11000, 11000));
    for x in 0..20u32 {
        for y in 0..20u32 {
            let last = edge_of(x, band) - 1;
            for (dx, dy) in [(0, 0), (last, 0), (0, last), (last, last), (last / 2, last / 2)] {
                assert_eq!(
                    image.get_pixel(x * 550 + dx, y * 550 + dy),
                    image::Rgba(color_of(x, y))
                );
            }
        }
    }
    for x in band..band + 5 {
        for py in 0..11000u32 {
            assert_eq!(image.get_pixel(x * 550 + 137, py), image::Rgba(color_of(x, py / 550)));
        }
    }
}
