use nitrohydra::monitors::{parse_geometry, parse_report, DetectError};

#[test]
fn geometry_parses_full_shape() {
    let m = parse_geometry("DP-4", "3840x2160+1920+80").unwrap();
    assert_eq!(m.name.as_str(), "DP-4");
    assert_eq!(m.width, 3840);
    assert_eq!(m.height, 2160);
    assert_eq!(m.x, 1920);
    assert_eq!(m.y, 80);
}

#[test]
fn geometry_rejects_malformed_tokens() {
    assert!(parse_geometry("a", "1920x1080").is_none());
    assert!(parse_geometry("a", "1080+0+0").is_none());
    assert!(parse_geometry("a", "1920x1080+0").is_none());
    assert!(parse_geometry("a", "wxh+0+0").is_none());
    assert!(parse_geometry("a", "").is_none());
}

#[test]
fn geometry_rejects_out_of_range_numbers() {
    assert!(parse_geometry("a", "99999999999x1080+0+0").is_none());
    assert_eq!(
        parse_geometry("a", "4294967295x1+0+0").unwrap().width,
        u32::MAX
    );
}

#[test]
fn report_skips_disconnected_lines() {
    let report = "eDP-1 connected primary 1920x1080+0+0 (normal left inverted) 344mm x 194mm\n\
                  HDMI-1 disconnected (normal left inverted right x axis y axis)\n";
    let monitors = parse_report(report).unwrap();
    assert_eq!(monitors.len(), 1);
    assert_eq!(monitors[0].name.as_str(), "eDP-1");
    assert_eq!(monitors[0].width, 1920);
    assert_eq!(monitors[0].height, 1080);
    assert_eq!(monitors[0].x, 0);
    assert_eq!(monitors[0].y, 0);
}

#[test]
fn report_sorts_left_to_right() {
    let report = "HDMI-0 connected 2560x1440+1920+0 (normal)\n\
                  DP-2 connected primary 1920x1080+0+0 (normal)\n";
    let monitors = parse_report(report).unwrap();
    assert_eq!(monitors.len(), 2);
    assert_eq!(monitors[0].name.as_str(), "DP-2");
    assert_eq!(monitors[0].x, 0);
    assert_eq!(monitors[1].name.as_str(), "HDMI-0");
    assert_eq!(monitors[1].x, 1920);
}

#[test]
fn report_skips_connected_line_without_geometry() {
    let report = "VGA-1 connected (normal left inverted)\n\
                  DP-1 connected 800x600+0+0\n";
    let monitors = parse_report(report).unwrap();
    assert_eq!(monitors.len(), 1);
    assert_eq!(monitors[0].name.as_str(), "DP-1");
}

#[test]
fn report_without_monitors_fails() {
    let err = parse_report("Screen 0: minimum 8 x 8\nHDMI-1 disconnected\n").unwrap_err();
    assert!(matches!(err, DetectError::NoMonitorsFound));
    assert_eq!(err.message().as_str(), "no connected monitors found");
}

#[test]
fn detect_error_messages() {
    let inv = DetectError::ToolInvocation("No such file".into());
    assert_eq!(inv.message().as_str(), "failed to run xrandr: No such file");
    let fail = DetectError::ToolFailure("Can't open display".into());
    assert_eq!(fail.message().as_str(), "xrandr failed: Can't open display");
}
