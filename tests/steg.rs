use bossmang::bits::{pack, unpack, DecodeError};
use bossmang::capacity::{check_capacity, CapacityError};
use bossmang::carrier::{embed, extract, Carrier, Slot};
use bossmang::error::Error;
use bossmang::plan::{build_plan, generate, select_channel};
use bossmang::steg::{extract_data, extract_from_carrier, hide_data, hide_in_carrier};
use image::{ImageEncoder, Rgba, RgbaImage};

const SEED: u64 = 0x5eed_1234_abcd_0042;

fn png_of(img: &RgbaImage) -> Vec<u8> {
    let mut out = Vec::new();
    image::codecs::png::PngEncoder::new(&mut out)
        .write_image(img.as_raw(), img.width(), img.height(), image::ExtendedColorType::Rgba8)
        .unwrap();
    out
}

fn white(width: u32, height: u32) -> Carrier {
    Carrier::new(width, height, vec![255u8; (width * height * 4) as usize]).unwrap()
}

#[test]
fn test_hide_and_extract() {
    let mut img = RgbaImage::new(100, 100);
    for pixel in img.pixels_mut() {
        *pixel = Rgba([255, 255, 255, 255]);
    }
    let file = png_of(&img);

    let test_data = b"Hello, World!";

    let hidden = hide_data(&file, test_data, SEED).unwrap();

    let extracted = extract_data(&hidden, test_data.len(), SEED).unwrap();

    assert_eq!(test_data, extracted.as_slice());
}

#[test]
fn test_image_too_small() {
    let img = RgbaImage::new(2, 2);
    let file = png_of(&img);

    let result = hide_data(&file, &vec![0; 100], SEED);
    assert!(result.is_err());
}

#[test]
fn too_small_image_reports_bits() {
    let file = png_of(&RgbaImage::new(2, 2));
    match hide_data(&file, &vec![0; 100], SEED) {
        Err(Error::Capacity(e)) => assert_eq!(e, CapacityError { needed: 800, available: 12 }),
        other => panic!("unexpected result: {:?}", other),
    }
}

#[test]
fn undecodable_file_is_an_image_error() {
    assert!(matches!(hide_data(&[1, 2, 3], b"x", SEED), Err(Error::Image(_))));
    assert!(matches!(extract_data(&[1, 2, 3], 1, SEED), Err(Error::Image(_))));
}

#[test]
fn hidden_file_is_png_of_same_size() {
    let file = png_of(&RgbaImage::from_pixel(7, 5, Rgba([10, 20, 30, 40])));
    let out = hide_data(&file, b"hi", SEED).unwrap();
    assert_eq!(&out[1..4], b"PNG");
    let img = image::load_from_memory(&out).unwrap().to_rgba8();
    assert_eq!((img.width(), img.height()), (7, 5));
    assert!(img.pixels().all(|p| p[3] == 40));
    assert!(img.pixels().any(|p| p.0 != [10, 20, 30, 40]));
}

#[test]
fn pack_is_least_significant_bit_first() {
    let bits = pack(&[0b1000_0101, 0x01]);
    let expected = vec![
        true, false, true, false, false, false, false, true, true, false, false, false, false,
        false, false, false,
    ];
    assert_eq!(bits, expected);
    assert_eq!(pack(&[]), Vec::<bool>::new());
}

#[test]
fn unpack_inverts_pack() {
    let payload: Vec<u8> = (0..=255).collect();
    assert_eq!(unpack(&pack(&payload), payload.len()), Ok(payload));
    assert_eq!(unpack(&Vec::new(), 0), Ok(Vec::new()));
}

#[test]
fn unpack_rejects_wrong_bit_count() {
    let bits = vec![true; 12];
    assert_eq!(unpack(&bits, 2), Err(DecodeError { bits: 12, bytes: 2 }));
    assert_eq!(unpack(&bits, 1), Err(DecodeError { bits: 12, bytes: 1 }));
}

#[test]
fn capacity_boundary() {
    // 1 x 8 pixels offer 24 bits: three bytes fit, four do not
    assert_eq!(check_capacity(1, 8, 3), Ok(()));
    assert_eq!(check_capacity(1, 8, 4), Err(CapacityError { needed: 32, available: 24 }));
    assert_eq!(check_capacity(0, 0, 0), Ok(()));
    assert_eq!(check_capacity(100, 100, 3750), Ok(()));
    assert_eq!(check_capacity(100, 100, 3751), Err(CapacityError { needed: 30008, available: 30000 }));
}

#[test]
fn capacity_of_largest_image() {
    let max = u32::MAX as u128;
    assert_eq!(
        check_capacity(u32::MAX, u32::MAX, usize::MAX),
        Err(CapacityError { needed: 8 * usize::MAX as u128, available: 3 * max * max })
    );
}

#[test]
fn generate_is_deterministic_permutation() {
    let a = generate(10, 7, SEED);
    let b = generate(10, 7, SEED);
    assert_eq!(a, b);
    let mut sorted = a.clone();
    sorted.sort();
    let grid: Vec<(u32, u32)> = (0..10).flat_map(|x| (0..7).map(move |y| (x, y))).collect();
    assert_eq!(sorted, grid);
    assert_ne!(a, grid);
    assert_ne!(generate(10, 7, SEED + 1), a);
    assert!(generate(0, 5, SEED).is_empty());
}

#[test]
fn channel_depends_on_coordinate_and_seed() {
    for x in 0..20 {
        for y in 0..20 {
            let c = select_channel(x, y, SEED);
            assert!(c < 3);
            assert_eq!(c, select_channel(x, y, SEED));
        }
    }
    let all: Vec<u8> = (0..60).map(|x| select_channel(x, 0, SEED)).collect();
    assert!(all.contains(&0) && all.contains(&1) && all.contains(&2));
}

#[test]
fn plan_follows_visit_order() {
    let order = generate(6, 4, SEED);
    let plan = build_plan(6, 4, 10, SEED);
    assert_eq!(plan.len(), 10);
    for (i, s) in plan.iter().enumerate() {
        assert_eq!((s.x, s.y), order[i]);
        assert_eq!(s.channel, select_channel(s.x, s.y, SEED));
    }
    let full = build_plan(6, 4, 100, SEED);
    assert_eq!(full.len(), 72);
    for (i, s) in full.iter().enumerate() {
        let (x, y) = order[i % 24];
        assert_eq!((s.x, s.y), (x, y));
        assert_eq!(s.channel, (select_channel(x, y, SEED) + (i / 24) as u8) % 3);
    }
    let mut slots: Vec<(u32, u32, u8)> = full.iter().map(|s| (s.x, s.y, s.channel)).collect();
    slots.sort();
    slots.dedup();
    assert_eq!(slots.len(), 72);
}

#[test]
fn embed_and_extract_exact_bytes() {
    let mut c = Carrier::new(2, 1, vec![0x10, 0x21, 0x32, 0x43, 0x54, 0x65, 0x76, 0x87]).unwrap();
    let plan = vec![Slot { x: 1, y: 0, channel: 2 }, Slot { x: 0, y: 0, channel: 0 }];
    embed(&mut c, &plan, &vec![true, true]);
    assert_eq!(c.pixels, vec![0x11, 0x21, 0x32, 0x43, 0x54, 0x65, 0x77, 0x87]);
    assert_eq!(extract(&c, &plan, 2), vec![true, true]);
    embed(&mut c, &plan, &vec![false, false]);
    assert_eq!(c.pixels, vec![0x10, 0x21, 0x32, 0x43, 0x54, 0x65, 0x76, 0x87]);
}

#[test]
fn carrier_round_trip_and_non_interference() {
    let original = Carrier::new(
        16,
        16,
        (0..16 * 16 * 4).map(|i| (i * 37 % 256) as u8).collect(),
    )
    .unwrap();
    let mut c = original.clone();
    let payload = b"sixteen by sixteen";
    hide_in_carrier(&mut c, payload, SEED).unwrap();
    assert_eq!(extract_from_carrier(&c, payload.len(), SEED).unwrap(), payload.to_vec());
    let plan = build_plan(16, 16, payload.len() * 8, SEED);
    for k in 0..c.pixels.len() {
        assert_eq!(c.pixels[k] & 0xfe, original.pixels[k] & 0xfe);
        if k % 4 == 3 {
            assert_eq!(c.pixels[k], original.pixels[k]);
        }
        let named = plan
            .iter()
            .any(|s| 4 * (s.y as usize * 16 + s.x as usize) + s.channel as usize == k);
        if !named {
            assert_eq!(c.pixels[k], original.pixels[k]);
        }
    }
}

#[test]
fn exactly_full_image_round_trips_through_carrier() {
    // 8 pixels, one byte: every pixel carries a bit
    let mut c = white(2, 4);
    hide_in_carrier(&mut c, &[0x5a], SEED).unwrap();
    assert_eq!(extract_from_carrier(&c, 1, SEED).unwrap(), vec![0x5a]);
}

#[test]
fn payload_beyond_pixel_count_round_trips() {
    // 3 pixels offer 9 bits: one byte needs a second and third channel pass
    let mut small = white(3, 1);
    hide_in_carrier(&mut small, &[0xa7], SEED).unwrap();
    assert_eq!(extract_from_carrier(&small, 1, SEED).unwrap(), vec![0xa7]);
    let mut c = white(1, 1);
    assert!(hide_in_carrier(&mut c, &[], SEED).is_ok());
    assert_eq!(extract_from_carrier(&c, 0, SEED).unwrap(), Vec::<u8>::new());
}

#[test]
fn payload_of_exactly_available_bits_round_trips() {
    // 8 x 1 pixels offer 24 bits, exactly three bytes
    let mut c = Carrier::new(8, 1, (0..32).map(|i| (i * 7) as u8).collect()).unwrap();
    let before = c.clone();
    hide_in_carrier(&mut c, &[0x00, 0xff, 0x3c], SEED).unwrap();
    assert_eq!(extract_from_carrier(&c, 3, SEED).unwrap(), vec![0x00, 0xff, 0x3c]);
    for k in (3..32).step_by(4) {
        assert_eq!(c.pixels[k], before.pixels[k]);
    }
    let file = png_of(&RgbaImage::from_pixel(8, 1, Rgba([1, 2, 3, 4])));
    let out = hide_data(&file, b"abc", SEED).unwrap();
    assert_eq!(extract_data(&out, 3, SEED).unwrap(), b"abc".to_vec());
}

#[test]
fn capacity_failure_leaves_carrier_unchanged() {
    let mut c = white(2, 2);
    match hide_in_carrier(&mut c, &[0u8; 2], SEED) {
        Err(Error::Capacity(e)) => assert_eq!(e, CapacityError { needed: 16, available: 12 }),
        other => panic!("unexpected result: {:?}", other),
    }
    assert_eq!(c, white(2, 2));
    assert!(matches!(extract_from_carrier(&c, 2, SEED), Err(Error::Capacity(_))));
}

#[test]
fn carrier_new_checks_length() {
    assert!(Carrier::new(2, 2, vec![0; 16]).is_some());
    assert!(Carrier::new(2, 2, vec![0; 15]).is_none());
    assert!(Carrier::new(0, 9, vec![]).is_some());
}

#[test]
fn hiding_is_reproducible_and_seed_dependent() {
    let file = png_of(&RgbaImage::from_pixel(20, 20, Rgba([200, 100, 50, 255])));
    let a = hide_data(&file, b"seeded", SEED).unwrap();
    let b = hide_data(&file, b"seeded", SEED).unwrap();
    assert_eq!(a, b);
    assert_eq!(extract_data(&a, 6, SEED).unwrap(), b"seeded".to_vec());
    assert_ne!(extract_data(&a, 6, SEED ^ 1).unwrap(), b"seeded".to_vec());
}

#[test]
fn jpeg_carrier_is_hidden_into_png() {
    let img = image::RgbImage::from_pixel(16, 16, image::Rgb([90, 140, 200]));
    let mut file = Vec::new();
    image::codecs::jpeg::JpegEncoder::new(&mut file)
        .write_image(img.as_raw(), 16, 16, image::ExtendedColorType::Rgb8)
        .unwrap();
    let out = hide_data(&file, b"from a jpeg", SEED).unwrap();
    assert_eq!(&out[1..4], b"PNG");
    assert_eq!(extract_data(&out, 11, SEED).unwrap(), b"from a jpeg".to_vec());
}
