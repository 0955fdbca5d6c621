use std::sync::mpsc;

use nitrohydra::frame::Frame;
use nitrohydra::scan::decode_cached;
use nitrohydra::jobs::{preview_action, PreviewAction, PreviewJob};
use nitrohydra::selection::Selection;

fn png_frame(w: u32, h: u32) -> Frame {
    let img = image::DynamicImage::new_rgb8(w, h);
    let mut buf = std::io::Cursor::new(Vec::new());
    img.write_to(&mut buf, image::ImageFormat::Png).unwrap();
    decode_cached(&buf.into_inner()).unwrap()
}

fn pair(a: usize, b: usize) -> Selection {
    let mut s = Selection::new();
    s.click(a, false);
    s.click(b, false);
    s
}

#[test]
fn preview_starts_idle() {
    let j = PreviewJob::new();
    assert!(!j.is_running());
    assert!(!j.has_texture());
}

#[test]
fn preview_delivers_composed_frame() {
    let (tx, rx) = mpsc::channel::<Result<Frame, String>>();
    let mut j = PreviewJob::new();
    j.start(rx);
    assert!(j.is_running());
    assert!(j.poll().is_none());
    assert!(j.is_running());
    tx.send(Ok(png_frame(6, 3))).unwrap();
    let frame = j.poll().unwrap();
    assert_eq!(frame.width(), 6);
    assert_eq!(frame.height(), 3);
    assert!(!j.is_running());
    assert!(j.has_texture());
}

#[test]
fn preview_failure_keeps_previous_image() {
    let (tx, rx) = mpsc::channel::<Result<Frame, String>>();
    let mut j = PreviewJob::new();
    j.start(rx);
    tx.send(Ok(png_frame(2, 2))).unwrap();
    j.poll().unwrap();
    let (tx2, rx2) = mpsc::channel::<Result<Frame, String>>();
    j.start(rx2);
    tx2.send(Err("failed to decode /x: bad".into())).unwrap();
    assert!(j.poll().is_none());
    assert!(!j.is_running());
    assert!(j.has_texture());
}

#[test]
fn preview_crash_stops_the_job() {
    let (tx, rx) = mpsc::channel::<Result<Frame, String>>();
    let mut j = PreviewJob::new();
    j.start(rx);
    drop(tx);
    assert!(j.poll().is_none());
    assert!(!j.is_running());
    assert!(!j.has_texture());
}

#[test]
fn step_hands_back_the_arrived_frame() {
    let (_tx, rx) = mpsc::channel::<Result<Frame, String>>();
    let mut j = PreviewJob::new();
    j.start(rx);
    assert!(j
        .on_event(nitrohydra::channel::ChannelEvent::Nothing)
        .is_none());
    assert!(j.is_running());
    let frame = j
        .on_event(nitrohydra::channel::ChannelEvent::Received(Ok(png_frame(5, 4))))
        .unwrap();
    assert_eq!(frame.width(), 5);
    assert_eq!(frame.height(), 4);
    assert!(!j.is_running());
    assert!(j.has_texture());
}

#[test]
fn clear_drops_image_and_listener() {
    let (_tx, rx) = mpsc::channel::<Result<Frame, String>>();
    let mut j = PreviewJob::new();
    j.start(rx);
    j.clear();
    assert!(!j.is_running());
    assert!(!j.has_texture());
}

#[test]
fn preview_rule_needs_full_selection_and_monitors() {
    let one = {
        let mut s = Selection::new();
        s.click(3, false);
        s
    };
    assert!(matches!(preview_action(&one, true, None, false), PreviewAction::Keep));
    assert!(matches!(
        preview_action(&one, true, Some((3, 4)), false),
        PreviewAction::Clear
    ));
    let two = pair(3, 4);
    assert!(matches!(
        preview_action(&two, false, Some((3, 4)), false),
        PreviewAction::Clear
    ));
}

#[test]
fn preview_rule_is_single_flight() {
    let two = pair(3, 4);
    assert!(matches!(
        preview_action(&two, true, None, false),
        PreviewAction::Start(3, 4)
    ));
    // the same pair again, or a job in flight: nothing is restarted
    assert!(matches!(
        preview_action(&two, true, Some((3, 4)), false),
        PreviewAction::Keep
    ));
    assert!(matches!(preview_action(&two, true, None, true), PreviewAction::Keep));
    assert!(matches!(
        preview_action(&two, true, Some((9, 9)), false),
        PreviewAction::Start(3, 4)
    ));
}
