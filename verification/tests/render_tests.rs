use mlib::config::Config;
use mlib::history::HistoryStore;
use mlib::listing::EntryKind;
use mlib::listing::RawEntry;
use mlib::nav::NavState;
use mlib::render::Color;
use mlib::render::DrawOp;
use mlib::render::render;

fn media_config() -> Config {
    Config {
        media_dir: String::from("/media"),
        data_dir: String::from("/tmp/mlib-data"),
        player: String::from("mpv"),
        filetypes: vec![String::from(".mkv")],
    }
}

fn raw(path: &str, name: &str, kind: EntryKind) -> RawEntry {
    RawEntry { path: String::from(path), name: String::from(name), kind }
}

fn state_with_files(count: usize) -> NavState {
    let cfg = media_config();
    let data = HistoryStore::new();
    let mut state = NavState::new(String::from("/media"));
    let mut listing = Vec::new();
    for i in 0..count {
        let name = format!("f{:02}.mkv", i);
        let path = format!("/media/{}", name);
        listing.push(raw(path.as_str(), name.as_str(), EntryKind::File));
    }
    state.refresh(Some(listing), &data, &cfg);
    state
}

fn texts(ops: &Vec<DrawOp>) -> Vec<(u16, u16, String, Color)> {
    let mut out = Vec::new();
    for op in ops {
        if let DrawOp::Text { x, y, text, color } = op {
            out.push((*x, *y, text.clone(), *color));
        }
    }
    out
}

fn cell_at(ops: &Vec<DrawOp>, cx: u16, cy: u16) -> Option<char> {
    let mut found = None;
    for op in ops {
        if let DrawOp::Cell { x, y, glyph, .. } = op {
            if *x == cx && *y == cy {
                found = Some(*glyph);
            }
        }
    }
    found
}

#[test]
fn frame_starts_with_clear_and_draws_the_border() {
    let state = state_with_files(3);
    let ops = render(&state, 40, 10);
    assert!(matches!(ops[0], DrawOp::Clear));
    assert_eq!(cell_at(&ops, 0, 0), Some('\u{250c}'));
    assert_eq!(cell_at(&ops, 39, 0), Some('\u{2510}'));
    assert_eq!(cell_at(&ops, 0, 9), Some('\u{2514}'));
    assert_eq!(cell_at(&ops, 39, 9), Some('\u{2518}'));
    assert_eq!(cell_at(&ops, 0, 5), Some('\u{2502}'));
    assert_eq!(cell_at(&ops, 20, 0), Some('\u{2500}'));
    assert_eq!(cell_at(&ops, 20, 5), None);
}

#[test]
fn title_shows_the_path_with_a_separator() {
    let state = state_with_files(1);
    let ops = render(&state, 40, 10);
    let t = texts(&ops);
    assert_eq!(t[0].0, 1);
    assert_eq!(t[0].1, 0);
    assert_eq!(t[0].2, " /media/ ");
    let mut root_state = state_with_files(1);
    root_state.current_path = String::from("/");
    let ops2 = render(&root_state, 40, 10);
    assert_eq!(texts(&ops2)[0].2, " / ");
}

#[test]
fn selected_row_gets_a_marker_and_rows_get_colors() {
    let cfg = media_config();
    let mut data = HistoryStore::new();
    data.add(String::from("seen.mkv"));
    let mut state = NavState::new(String::from("/media"));
    let listing = vec![
        raw("/media/dirA", "dirA", EntryKind::Directory),
        raw("/media/new.mkv", "new.mkv", EntryKind::File),
        raw("/media/seen.mkv", "seen.mkv", EntryKind::File),
    ];
    state.refresh(Some(listing), &data, &cfg);
    let ops = render(&state, 40, 10);
    let t = texts(&ops);
    // After the title and the help hint come the marker and the rows.
    assert_eq!(t[2], (2, 1, String::from(">"), Color::White));
    assert_eq!(t[3], (4, 1, String::from("dirA/"), Color::Cyan));
    assert_eq!(t[4], (4, 2, String::from("new"), Color::White));
    assert_eq!(t[5], (4, 3, String::from("seen"), Color::Green));
}

#[test]
fn selection_below_the_band_is_pinned_to_the_last_row() {
    let mut state = state_with_files(12);
    // Height 10 shows rows 1..=8; select the tenth entry (index 9).
    state.selected = 9;
    let ops = render(&state, 40, 10);
    let t = texts(&ops);
    let marker: Vec<_> = t.iter().filter(|e| e.2 == ">").collect();
    assert_eq!(marker.len(), 1);
    assert_eq!(marker[0].1, 8);
    // The first visible row is the entry that scrolled into view.
    let first_row: Vec<_> = t.iter().filter(|e| e.1 == 1 && e.0 == 4).collect();
    assert_eq!(first_row[0].2, "f02");
}

#[test]
fn long_names_get_an_ellipsis() {
    let cfg = media_config();
    let data = HistoryStore::new();
    let mut state = NavState::new(String::from("/media"));
    let long = "a-very-long-file-name-that-cannot-fit.mkv";
    let listing = vec![raw("/media/long.mkv", long, EntryKind::File)];
    state.refresh(Some(listing), &data, &cfg);
    let ops = render(&state, 20, 10);
    let t = texts(&ops);
    let row = t.iter().find(|e| e.0 == 4).expect("an entry row");
    // Budget is width 20 minus 6: 14 characters, the last three an ellipsis.
    assert_eq!(row.2.chars().count(), 14);
    assert!(row.2.ends_with("..."));
    assert_eq!(row.2, "a-very-long...");
}

#[test]
fn help_panel_appears_when_toggled() {
    let mut state = state_with_files(1);
    let ops = render(&state, 60, 12);
    let t = texts(&ops);
    assert!(t.iter().all(|e| e.2 != " help "));
    state.show_help = true;
    let ops2 = render(&state, 60, 12);
    let t2 = texts(&ops2);
    assert!(t2.iter().any(|e| e.2 == " help "));
    assert!(t2.iter().any(|e| e.2.contains("navigation")));
    // The panel is filled behind its border.
    assert_eq!(cell_at(&ops2, 30, 5), Some(' '));
}

#[test]
fn size_is_clamped_to_the_maximum() {
    let state = state_with_files(1);
    let ops = render(&state, 500, 50);
    // The frame border ends at the clamped 400 by 20 size.
    assert_eq!(cell_at(&ops, 399, 0), Some('\u{2510}'));
    assert_eq!(cell_at(&ops, 399, 19), Some('\u{2518}'));
    let mut max_x = 0u16;
    let mut max_y = 0u16;
    for op in &ops {
        if let DrawOp::Cell { x, y, .. } = op {
            if *x > max_x {
                max_x = *x;
            }
            if *y > max_y {
                max_y = *y;
            }
        }
    }
    assert_eq!(max_x, 399);
    assert_eq!(max_y, 19);
}

#[test]
fn degenerate_sizes_draw_no_cells() {
    let state = state_with_files(2);
    let ops = render(&state, 0, 0);
    for op in &ops {
        assert!(matches!(op, DrawOp::Clear) || matches!(op, DrawOp::Text { .. }));
    }
}
