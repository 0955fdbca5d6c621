use nitrohydra::compose::{
    compose_canvas, cover_crop, cover_plan, encode_composed, ComposeError, SourceImage,
};
use nitrohydra::scan::decode_cached;
use nitrohydra::monitors::Monitor;

fn png_bytes(w: u32, h: u32) -> Vec<u8> {
    let img = image::DynamicImage::new_rgb8(w, h);
    let mut buf = std::io::Cursor::new(Vec::new());
    img.write_to(&mut buf, image::ImageFormat::Png).unwrap();
    buf.into_inner()
}

fn monitor(name: &str, width: u32, height: u32, x: u32, y: u32) -> Monitor {
    Monitor { name: name.into(), width, height, x, y }
}

#[test]
fn cover_plan_scales_wide_source_onto_square() {
    // 100x50 onto 64x64: the height ratio wins, width overflows and is cropped
    let p = cover_plan(100, 50, 64, 64).unwrap();
    assert_eq!(p.scaled_w, 128);
    assert_eq!(p.scaled_h, 64);
    assert_eq!(p.crop_x, 32);
    assert_eq!(p.crop_y, 0);
}

#[test]
fn cover_plan_scales_tall_source_onto_square() {
    let p = cover_plan(50, 100, 64, 64).unwrap();
    assert_eq!(p.scaled_w, 64);
    assert_eq!(p.scaled_h, 128);
    assert_eq!(p.crop_x, 0);
    assert_eq!(p.crop_y, 32);
}

#[test]
fn cover_plan_rounds_scaled_edge_up() {
    // 3x2 onto 2x2: width scale 2/3 < height scale 1; scaled width = ceil(3*2/2) = 3
    let p = cover_plan(3, 2, 2, 2).unwrap();
    assert_eq!(p.scaled_w, 3);
    assert_eq!(p.scaled_h, 2);
    assert_eq!(p.crop_x, 0);
}

#[test]
fn cover_crop_hits_target_exactly_for_any_aspect() {
    for (sw, sh) in [(100u32, 50u32), (50, 100), (64, 64), (1, 1), (7, 3), (3, 7)] {
        let frame = decode_cached(&png_bytes(sw, sh)).unwrap();
        let tile = cover_crop(&frame, 64, 48).unwrap();
        assert_eq!(tile.width(), 64);
        assert_eq!(tile.height(), 48);
    }
}

#[test]
fn canvas_is_bounding_box_of_monitors() {
    // the taller monitor's bottom determines the height, not a sum
    let sources = vec![
        SourceImage {
            path: "/a.png".into(),
            bytes: png_bytes(30, 20),
            monitor: monitor("L", 1920, 1080, 0, 0),
        },
        SourceImage {
            path: "/b.png".into(),
            bytes: png_bytes(20, 30),
            monitor: monitor("R", 2560, 1440, 1920, 0),
        },
    ];
    let canvas = compose_canvas(&sources).unwrap();
    assert_eq!(canvas.width(), 4480);
    assert_eq!(canvas.height(), 1440);
}

#[test]
fn canvas_respects_offsets_and_gaps() {
    let sources = vec![
        SourceImage {
            path: "/a.png".into(),
            bytes: png_bytes(8, 8),
            monitor: monitor("A", 100, 100, 0, 50),
        },
        SourceImage {
            path: "/b.png".into(),
            bytes: png_bytes(8, 8),
            monitor: monitor("B", 100, 100, 300, 0),
        },
    ];
    let canvas = compose_canvas(&sources).unwrap();
    assert_eq!(canvas.width(), 400);
    assert_eq!(canvas.height(), 150);
}

#[test]
fn undecodable_source_fails_with_its_path() {
    let sources = vec![SourceImage {
        path: "/bad.png".into(),
        bytes: vec![0, 1, 2, 3],
        monitor: monitor("A", 100, 100, 0, 0),
    }];
    match compose_canvas(&sources) {
        Err(ComposeError::ImageDecode { path, .. }) => assert_eq!(path.as_str(), "/bad.png"),
        other => panic!("expected a decode error, got {:?}", other.is_ok()),
    }
}

#[test]
fn compose_error_messages() {
    let e = ComposeError::ImageDecode { path: "/x.png".into(), detail: "bad magic".into() };
    assert_eq!(e.message().as_str(), "failed to decode /x.png: bad magic");
    let e = ComposeError::ImageTooLarge { path: "/x.png".into() };
    assert_eq!(e.message().as_str(), "image too large to scale: /x.png");
    let e = ComposeError::EncodeFailed { detail: "no space".into() };
    assert_eq!(e.message().as_str(), "failed to encode wallpaper: no space");
}

#[test]
fn composed_canvas_encodes_to_a_decodable_jpeg() {
    let sources = vec![SourceImage {
        path: "/a.png".into(),
        bytes: png_bytes(10, 10),
        monitor: monitor("A", 32, 16, 0, 0),
    }];
    let canvas = compose_canvas(&sources).unwrap();
    let jpeg = encode_composed(&canvas).unwrap();
    let back = decode_cached(&jpeg).unwrap();
    assert_eq!(back.width(), 32);
    assert_eq!(back.height(), 16);
}

#[test]
fn oversized_canvas_cannot_be_encoded() {
    let sources = vec![SourceImage {
        path: "/wide.png".into(),
        bytes: png_bytes(7000, 1),
        monitor: monitor("W", 70000, 10, 0, 0),
    }];
    let canvas = compose_canvas(&sources).unwrap();
    assert_eq!(canvas.width(), 70000);
    match encode_composed(&canvas) {
        Err(ComposeError::EncodeFailed { .. }) => {}
        _ => panic!("expected an encode failure"),
    }
}
