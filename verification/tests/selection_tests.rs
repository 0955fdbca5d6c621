use nitrohydra::selection::Selection;

fn sel(items: &[usize]) -> Selection {
    let mut s = Selection::new();
    if items.len() == 1 {
        s.click(items[0], false);
    } else if items.len() == 2 && items[0] == items[1] {
        s.click(items[0], true);
    } else if items.len() == 2 {
        s.click(items[0], false);
        s.click(items[1], false);
    }
    s
}

// --- click tests ---

#[test]
fn empty_click() {
    let mut s = sel(&[]);
    s.click(0, false);
    assert_eq!(s.items(), &[0]);
}

#[test]
fn empty_shift_click() {
    let mut s = sel(&[]);
    s.click(0, true);
    assert_eq!(s.items(), &[0, 0]);
}

#[test]
fn single_click_different() {
    let mut s = sel(&[0]);
    s.click(1, false);
    assert_eq!(s.items(), &[0, 1]);
}

#[test]
fn single_click_same() {
    let mut s = sel(&[0]);
    s.click(0, false);
    assert_eq!(s.items(), &[0]);
}

#[test]
fn single_shift_click_same() {
    let mut s = sel(&[0]);
    s.click(0, true);
    assert_eq!(s.items(), &[0, 0]);
}

#[test]
fn single_shift_click_different() {
    let mut s = sel(&[0]);
    s.click(1, true);
    assert_eq!(s.items(), &[1, 1]);
}

#[test]
fn pair_click_first_swaps() {
    let mut s = sel(&[0, 1]);
    s.click(0, false);
    assert_eq!(s.items(), &[1, 0]);
}

#[test]
fn pair_click_second_swaps() {
    let mut s = sel(&[0, 1]);
    s.click(1, false);
    assert_eq!(s.items(), &[1, 0]);
}

#[test]
fn pair_click_new_replaces_second() {
    let mut s = sel(&[0, 1]);
    s.click(2, false);
    assert_eq!(s.items(), &[0, 2]);
}

#[test]
fn pair_shift_click_new() {
    let mut s = sel(&[0, 1]);
    s.click(2, true);
    assert_eq!(s.items(), &[2, 2]);
}

#[test]
fn duplicated_click_same() {
    let mut s = sel(&[0, 0]);
    s.click(0, false);
    assert_eq!(s.items(), &[0, 0]);
}

#[test]
fn duplicated_click_different() {
    let mut s = sel(&[0, 0]);
    s.click(1, false);
    assert_eq!(s.items(), &[0, 1]);
}

#[test]
fn duplicated_shift_click_different() {
    let mut s = sel(&[0, 0]);
    s.click(1, true);
    assert_eq!(s.items(), &[1, 1]);
}

// --- badge tests ---

#[test]
fn badge_empty() {
    let s = sel(&[]);
    assert_eq!(s.badge(0), None);
}

#[test]
fn badge_single_selected() {
    let s = sel(&[0]);
    assert_eq!(s.badge(0), Some("1"));
}

#[test]
fn badge_pair_second() {
    let s = sel(&[0, 1]);
    assert_eq!(s.badge(1), Some("2"));
}

#[test]
fn badge_duplicated() {
    let s = sel(&[0, 0]);
    assert_eq!(s.badge(0), Some("*"));
}

#[test]
fn badge_not_selected() {
    let s = sel(&[0, 1]);
    assert_eq!(s.badge(2), None);
}

// --- the selection never grows past two slots ---

#[test]
fn many_clicks_stay_bounded() {
    let mut s = Selection::new();
    let clicks: Vec<(usize, bool)> = vec![
        (3, false),
        (5, false),
        (7, false),
        (5, true),
        (9, false),
        (9, false),
        (2, true),
        (2, false),
        (4, false),
        (1, false),
    ];
    for (idx, shift) in clicks {
        s.click(idx, shift);
        assert!(s.len() <= 2);
    }
}

#[test]
fn shift_click_duplicates_from_any_state() {
    for start in [&[][..], &[4][..], &[4, 6][..], &[4, 4][..]] {
        let mut s = sel(start);
        s.click(8, true);
        assert_eq!(s.items(), &[8, 8]);
        assert!(s.is_duplicated());
    }
}

#[test]
fn clear_empties_selection() {
    let mut s = sel(&[0, 1]);
    s.clear();
    assert!(s.is_empty());
    assert_eq!(s.len(), 0);
    assert_eq!(s.badge(0), None);
}
