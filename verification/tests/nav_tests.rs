use mlib::config::Config;
use mlib::history::HistoryStore;
use mlib::listing::Entry;
use mlib::listing::EntryKind;
use mlib::listing::RawEntry;
use mlib::nav::Action;
use mlib::nav::clamp_index;
use mlib::nav::Command;
use mlib::nav::NavState;

fn media_config() -> Config {
    Config {
        media_dir: String::from("/media"),
        data_dir: String::from("/tmp/mlib-data"),
        player: String::from("mpv"),
        filetypes: vec![String::from(".mkv")],
    }
}

fn raw(path: &str, name: &str, kind: EntryKind) -> RawEntry {
    RawEntry { path: String::from(path), name: String::from(name), kind }
}

fn three_files() -> Vec<RawEntry> {
    vec![
        raw("/media/a.mkv", "a.mkv", EntryKind::File),
        raw("/media/b.mkv", "b.mkv", EntryKind::File),
        raw("/media/c.mkv", "c.mkv", EntryKind::File),
    ]
}

fn names(entries: &Vec<Entry>) -> Vec<String> {
    entries.iter().map(|e| e.display_name.clone()).collect()
}

#[test]
fn clamp_empty_list_is_zero() {
    assert_eq!(clamp_index(0, 0), 0);
    assert_eq!(clamp_index(-1, 0), 0);
    assert_eq!(clamp_index(7, 0), 0);
}

#[test]
fn clamp_stays_in_range() {
    for sel in -5..10 {
        let r = clamp_index(sel, 4);
        assert!(0 <= r && r < 4);
    }
    assert_eq!(clamp_index(2, 4), 2);
    assert_eq!(clamp_index(5, 4), 1);
    assert_eq!(clamp_index(-2, 4), 2);
}

#[test]
fn move_up_from_first_wraps_to_last() {
    let cfg = media_config();
    let mut data = HistoryStore::new();
    let mut state = NavState::new(String::from("/media"));
    state.refresh(Some(three_files()), &data, &cfg);
    assert_eq!(state.selected, 0);
    state.step(Command::MoveUp, &mut data, &cfg);
    state.refresh(Some(three_files()), &data, &cfg);
    assert_eq!(state.selected, 2);
}

#[test]
fn move_down_from_last_wraps_to_first() {
    let cfg = media_config();
    let mut data = HistoryStore::new();
    let mut state = NavState::new(String::from("/media"));
    state.refresh(Some(three_files()), &data, &cfg);
    state.step(Command::MoveDown, &mut data, &cfg);
    state.refresh(Some(three_files()), &data, &cfg);
    state.step(Command::MoveDown, &mut data, &cfg);
    state.refresh(Some(three_files()), &data, &cfg);
    assert_eq!(state.selected, 2);
    state.step(Command::MoveDown, &mut data, &cfg);
    state.refresh(Some(three_files()), &data, &cfg);
    assert_eq!(state.selected, 0);
}

#[test]
fn any_move_sequence_stays_clamped() {
    let cfg = media_config();
    let mut data = HistoryStore::new();
    let mut state = NavState::new(String::from("/media"));
    let moves = [
        Command::MoveUp,
        Command::MoveUp,
        Command::MoveDown,
        Command::MoveUp,
        Command::MoveDown,
        Command::MoveDown,
        Command::MoveDown,
        Command::MoveUp,
    ];
    for cmd in moves {
        state.step(cmd, &mut data, &cfg);
        state.refresh(Some(three_files()), &data, &cfg);
        assert!(0 <= state.selected && (state.selected as usize) < state.entries.len());
    }
}

#[test]
fn toggle_hidden_twice_restores_listing() {
    let cfg = media_config();
    let mut data = HistoryStore::new();
    let mut state = NavState::new(String::from("/media"));
    let listing = || {
        vec![
            raw("/media/a.mkv", "a.mkv", EntryKind::File),
            raw("/media/.secret", ".secret", EntryKind::File),
            raw("/media/notes.txt", "notes.txt", EntryKind::File),
            raw("/media/Shows", "Shows", EntryKind::Directory),
        ]
    };
    state.refresh(Some(listing()), &data, &cfg);
    let before = names(&state.entries);
    assert_eq!(before, vec![String::from("a"), String::from("Shows")]);
    state.step(Command::ToggleHidden, &mut data, &cfg);
    state.refresh(Some(listing()), &data, &cfg);
    assert_eq!(
        names(&state.entries),
        vec![
            String::from(".secret"),
            String::from("a.mkv"),
            String::from("notes.txt"),
            String::from("Shows"),
        ]
    );
    state.step(Command::ToggleHidden, &mut data, &cfg);
    state.refresh(Some(listing()), &data, &cfg);
    assert_eq!(names(&state.entries), before);
}

#[test]
fn unreadable_listing_clears_entries() {
    let cfg = media_config();
    let mut data = HistoryStore::new();
    let mut state = NavState::new(String::from("/media"));
    state.refresh(Some(three_files()), &data, &cfg);
    assert_eq!(state.entries.len(), 3);
    state.step(Command::MoveDown, &mut data, &cfg);
    state.refresh(None, &data, &cfg);
    assert_eq!(state.entries.len(), 0);
    assert_eq!(state.selected, 0);
}

#[test]
fn leave_goes_to_parent_and_root_stays_root() {
    let cfg = media_config();
    let mut data = HistoryStore::new();
    let mut state = NavState::new(String::from("/media/shows"));
    state.step(Command::Leave, &mut data, &cfg);
    assert_eq!(state.current_path, "/media");
    assert_eq!(state.selected, 0);
    state.step(Command::Leave, &mut data, &cfg);
    assert_eq!(state.current_path, "/");
    state.step(Command::Leave, &mut data, &cfg);
    assert_eq!(state.current_path, "/");
}

#[test]
fn enter_directory_scenario() {
    let cfg = media_config();
    let mut data = HistoryStore::new();
    let mut state = NavState::new(String::from("/media"));
    let listing = vec![
        raw("/media/Anime", "Anime", EntryKind::Directory),
        raw("/media/b.mkv", "b.mkv", EntryKind::File),
    ];
    state.refresh(Some(listing), &data, &cfg);
    assert_eq!(state.selected, 0);
    assert!(!state.entries[0].is_file);
    let action = state.step(Command::Enter, &mut data, &cfg);
    match action {
        Action::EnterDir { path } => assert_eq!(path, "/media/Anime"),
        _ => panic!("expected an enter action"),
    }
    state.commit_enter();
    assert_eq!(state.current_path, "/media/Anime");
    assert_eq!(state.selected, 0);
}

#[test]
fn media_scenario_plays_selected_file_and_marks_watched() {
    let cfg = media_config();
    let mut data = HistoryStore::new();
    let mut state = NavState::new(String::from("/media"));
    let listing = || {
        vec![
            raw("/media/Show1", "Show1", EntryKind::Directory),
            raw("/media/movie.mkv", "movie.mkv", EntryKind::File),
            raw("/media/.git", ".git", EntryKind::Directory),
        ]
    };
    state.refresh(Some(listing()), &data, &cfg);
    // Hidden ".git" is gone; "movie" and "Show1" are ordered by their
    // case-insensitive display names.
    assert_eq!(names(&state.entries), vec![String::from("movie"), String::from("Show1")]);
    assert!(state.entries[0].is_file);
    assert!(!state.entries[1].is_file);
    assert_eq!(state.selected, 0);
    let action = state.step(Command::Activate, &mut data, &cfg);
    match action {
        Action::Play { path } => assert_eq!(path, "/media/movie.mkv"),
        _ => panic!("expected a play action"),
    }
    mlib::history::hist_add(&mut data, &cfg, &state.entries[0]);
    state.refresh(Some(listing()), &data, &cfg);
    assert!(state.entries[0].is_watched);
    assert!(!state.entries[1].is_watched);
}

#[test]
fn toggle_watched_flips_membership() {
    let cfg = media_config();
    let mut data = HistoryStore::new();
    let mut state = NavState::new(String::from("/media"));
    state.refresh(Some(three_files()), &data, &cfg);
    let action = state.step(Command::ToggleWatched, &mut data, &cfg);
    assert!(matches!(action, Action::SaveHistory));
    state.refresh(Some(three_files()), &data, &cfg);
    assert!(state.entries[0].is_watched);
    let action = state.step(Command::ToggleWatched, &mut data, &cfg);
    assert!(matches!(action, Action::SaveHistory));
    state.refresh(Some(three_files()), &data, &cfg);
    assert!(!state.entries[0].is_watched);
}

#[test]
fn unknown_kind_entries_are_skipped() {
    let cfg = media_config();
    let mut data = HistoryStore::new();
    let mut state = NavState::new(String::from("/media"));
    let listing = vec![
        raw("/media/a.mkv", "a.mkv", EntryKind::File),
        raw("/media/ghost.mkv", "ghost.mkv", EntryKind::Unknown),
    ];
    state.refresh(Some(listing), &data, &cfg);
    assert_eq!(names(&state.entries), vec![String::from("a")]);
}

#[test]
fn quit_command_requests_quit() {
    let cfg = media_config();
    let mut data = HistoryStore::new();
    let mut state = NavState::new(String::from("/media"));
    let action = state.step(Command::Quit, &mut data, &cfg);
    assert!(matches!(action, Action::Quit));
}
