use std::sync::mpsc;

use nitrohydra::channel::ChannelEvent;
use nitrohydra::scan::{
    event_to_poll, is_image_file_name, thumb_dims, thumbnail_from_bytes, ImageLoader, Poll,
    ScanItem, MAX_THUMB_EDGE,
};

fn png_bytes(w: u32, h: u32) -> Vec<u8> {
    let img = image::DynamicImage::new_rgb8(w, h);
    let mut buf = std::io::Cursor::new(Vec::new());
    img.write_to(&mut buf, image::ImageFormat::Png).unwrap();
    buf.into_inner()
}

#[test]
fn image_extensions_match_case_insensitively() {
    assert!(is_image_file_name("/pics/alps.jpg"));
    assert!(is_image_file_name("/pics/alps.JPG"));
    assert!(is_image_file_name("/pics/alps.Jpeg"));
    assert!(is_image_file_name("/pics/alps.png"));
    assert!(is_image_file_name("relative.PNG"));
}

#[test]
fn non_image_names_are_filtered() {
    assert!(!is_image_file_name("/pics/readme.txt"));
    assert!(!is_image_file_name("/pics/archive.tar.gz"));
    assert!(!is_image_file_name("/pics/noextension"));
    assert!(!is_image_file_name("/pics/.png"));
    assert!(!is_image_file_name("/pics.jpg/inner"));
    assert!(!is_image_file_name(""));
}

#[test]
fn thumb_dims_scale_the_longer_edge_to_the_bound() {
    assert_eq!(thumb_dims(1024, 512, 512), (512, 256));
    assert_eq!(thumb_dims(512, 1024, 512), (256, 512));
    assert_eq!(thumb_dims(512, 512, 512), (512, 512));
}

#[test]
fn thumb_dims_round_to_nearest_and_never_hit_zero() {
    // 3:2 → the short edge rounds from 341.33 down
    assert_eq!(thumb_dims(3, 2, 512), (512, 341));
    // extreme ratio: the short edge is clamped to one pixel
    assert_eq!(thumb_dims(4000000, 1, 512), (512, 1));
}

#[test]
fn thumbnail_keeps_aspect_and_reports_original_size() {
    let t = thumbnail_from_bytes(&png_bytes(100, 50)).unwrap();
    assert_eq!(t.original_w, 100);
    assert_eq!(t.original_h, 50);
    assert_eq!(t.frame.width(), MAX_THUMB_EDGE);
    assert_eq!(t.frame.height(), MAX_THUMB_EDGE / 2);
}

#[test]
fn undecodable_bytes_are_skipped_silently() {
    assert!(thumbnail_from_bytes(&vec![1, 2, 3]).is_none());
    assert!(thumbnail_from_bytes(&vec![]).is_none());
}

#[test]
fn loader_reports_image_then_done() {
    let (tx, rx) = mpsc::channel::<Result<ScanItem, String>>();
    let loader = ImageLoader::from_receiver(rx);
    let t = thumbnail_from_bytes(&png_bytes(4, 4)).unwrap();
    tx.send(Ok(ScanItem {
        name: "/pics/a.png".into(),
        modified: 7,
        original_w: t.original_w,
        original_h: t.original_h,
        frame: t.frame,
    }))
    .unwrap();
    drop(tx);
    match loader.poll() {
        Poll::Image(item) => {
            assert_eq!(item.name.as_str(), "/pics/a.png");
            assert_eq!(item.modified, 7);
        }
        _ => panic!("expected an image event"),
    }
    assert!(matches!(loader.poll(), Poll::Done));
}

#[test]
fn loader_reports_pending_while_scan_runs() {
    let (tx, rx) = mpsc::channel::<Result<ScanItem, String>>();
    let loader = ImageLoader::from_receiver(rx);
    assert!(matches!(loader.poll(), Poll::Pending));
    tx.send(Err("Error: permission denied".into())).unwrap();
    match loader.poll() {
        Poll::Error(e) => assert_eq!(e.as_str(), "Error: permission denied"),
        _ => panic!("expected an error event"),
    }
}

#[test]
fn dropped_scan_settles_to_done_without_panicking() {
    let (tx, rx) = mpsc::channel::<Result<ScanItem, String>>();
    let loader = ImageLoader::from_receiver(rx);
    drop(tx);
    // every subsequent poll settles to Done: no panic, no hang
    for _ in 0..16 {
        assert!(matches!(loader.poll(), Poll::Done));
    }
}

#[test]
fn channel_events_map_to_their_poll_outcomes() {
    let t = thumbnail_from_bytes(&png_bytes(3, 3)).unwrap();
    let item = ScanItem {
        name: "/pics/one.png".into(),
        modified: 1,
        original_w: t.original_w,
        original_h: t.original_h,
        frame: t.frame,
    };
    match event_to_poll(ChannelEvent::Received(Ok(item))) {
        Poll::Image(it) => assert_eq!(it.name.as_str(), "/pics/one.png"),
        _ => panic!("expected an image event"),
    }
    match event_to_poll(ChannelEvent::Received(Err("Error: boom".into()))) {
        Poll::Error(e) => assert_eq!(e.as_str(), "Error: boom"),
        _ => panic!("expected an error event"),
    }
    assert!(matches!(
        event_to_poll(ChannelEvent::<Result<ScanItem, String>>::Nothing),
        Poll::Pending
    ));
    assert!(matches!(
        event_to_poll(ChannelEvent::<Result<ScanItem, String>>::Closed),
        Poll::Done
    ));
}
