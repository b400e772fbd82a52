use mlib::config::Config;
use mlib::config::default_config;
use mlib::history::HistoryStore;
use mlib::listing::Entry;
use mlib::listing::EntryKind;
use mlib::listing::list_entries;
use mlib::listing::RawEntry;
use mlib::paths::normalize_key;
use mlib::paths::parent_of;
use mlib::text::ends_with_exec;
use mlib::text::lex_le_exec;
use mlib::text::remove_all;

fn media_config() -> Config {
    Config {
        media_dir: String::from("/media"),
        data_dir: String::from("/tmp/mlib-data"),
        player: String::from("mpv"),
        filetypes: vec![String::from(".mkv")],
    }
}

fn raw(path: &str, name: &str, kind: EntryKind) -> RawEntry {
    RawEntry { path: String::from(path), name: String::from(name), kind }
}

fn names(entries: &Vec<Entry>) -> Vec<String> {
    entries.iter().map(|e| e.display_name.clone()).collect()
}

#[test]
fn hidden_and_unmatched_files_are_filtered() {
    let cfg = media_config();
    let data = HistoryStore::new();
    let listing = vec![
        raw("/media/b.mkv", "b.mkv", EntryKind::File),
        raw("/media/A", "A", EntryKind::Directory),
        raw("/media/.hidden", ".hidden", EntryKind::Directory),
    ];
    let entries = list_entries(Some(listing), false, &cfg, &data);
    assert_eq!(names(&entries), vec![String::from("A"), String::from("b")]);
    assert!(!entries[0].is_file);
    assert!(entries[1].is_file);
    assert_eq!(entries[1].path, "/media/b.mkv");
}

#[test]
fn sort_is_case_insensitive() {
    let cfg = media_config();
    let data = HistoryStore::new();
    let listing = vec![
        raw("/media/B.mkv", "B.mkv", EntryKind::File),
        raw("/media/a.mkv", "a.mkv", EntryKind::File),
        raw("/media/C.mkv", "C.mkv", EntryKind::File),
    ];
    let entries = list_entries(Some(listing), false, &cfg, &data);
    assert_eq!(names(&entries), vec![String::from("a"), String::from("B"), String::from("C")]);
}

#[test]
fn sort_keeps_enumeration_order_on_equal_keys() {
    let cfg = media_config();
    let data = HistoryStore::new();
    let listing = vec![
        raw("/media/x/Same.mkv", "Same.mkv", EntryKind::File),
        raw("/media/y/same.mkv", "same.mkv", EntryKind::File),
    ];
    let entries = list_entries(Some(listing), false, &cfg, &data);
    assert_eq!(entries.len(), 2);
    assert_eq!(entries[0].path, "/media/x/Same.mkv");
    assert_eq!(entries[1].path, "/media/y/same.mkv");
}

#[test]
fn reserved_system_name_is_hidden() {
    let cfg = media_config();
    let data = HistoryStore::new();
    let listing = vec![
        raw("/media/System Volume Information", "System Volume Information", EntryKind::Directory),
        raw("/media/Shows", "Shows", EntryKind::Directory),
    ];
    let entries = list_entries(Some(listing), false, &cfg, &data);
    assert_eq!(names(&entries), vec![String::from("Shows")]);
    let listing2 = vec![
        raw("/media/System Volume Information", "System Volume Information", EntryKind::Directory),
    ];
    let shown = list_entries(Some(listing2), true, &cfg, &data);
    assert_eq!(shown.len(), 1);
}

#[test]
fn suffix_is_stripped_anywhere_in_a_file_name() {
    let cfg = media_config();
    let data = HistoryStore::new();
    let listing = vec![raw("/media/a.mkv.part.mkv", "a.mkv.part.mkv", EntryKind::File)];
    let entries = list_entries(Some(listing), false, &cfg, &data);
    assert_eq!(names(&entries), vec![String::from("a.part")]);
    assert_eq!(entries[0].path, "/media/a.mkv.part.mkv");
}

#[test]
fn unreadable_listing_is_empty() {
    let cfg = media_config();
    let data = HistoryStore::new();
    let entries = list_entries(None, false, &cfg, &data);
    assert_eq!(entries.len(), 0);
}

#[test]
fn text_helpers_compare_and_strip() {
    assert!(lex_le_exec("abc", "abd"));
    assert!(!lex_le_exec("abd", "abc"));
    assert!(lex_le_exec("ab", "abc"));
    assert!(lex_le_exec("", "a"));
    assert!(ends_with_exec("movie.mkv", ".mkv"));
    assert!(!ends_with_exec("movie.mp4", ".mkv"));
    assert!(ends_with_exec("x", ""));
    assert_eq!(remove_all("aabbaa", "aa"), "bb");
    assert_eq!(remove_all("banana", "na"), "ba");
    assert_eq!(remove_all("abc", ""), "abc");
}

#[test]
fn parent_of_follows_path_rules() {
    assert_eq!(parent_of("/"), "/");
    assert_eq!(parent_of("/media"), "/");
    assert_eq!(parent_of("/media/shows"), "/media");
    assert_eq!(parent_of("/media/shows/"), "/media");
    assert_eq!(parent_of("plain"), "");
    assert_eq!(parent_of(""), "/");
    assert_eq!(parent_of("a/b"), "a");
}

#[test]
fn normalize_key_strips_the_root_prefix() {
    assert_eq!(normalize_key("/media/a.mkv", "/media"), "a.mkv");
    assert_eq!(normalize_key("/media/x/y.mkv", "/media/"), "x/y.mkv");
    assert_eq!(normalize_key("/media", "/media"), "");
    assert_eq!(normalize_key("/mediacenter/a.mkv", "/media"), "/mediacenter/a.mkv");
    assert_eq!(normalize_key("/other/a.mkv", "/media"), "/other/a.mkv");
    assert_eq!(normalize_key("/a", "/"), "a");
    assert_eq!(normalize_key("/media/a.mkv", ""), "/media/a.mkv");
}

#[test]
fn default_config_uses_given_directories() {
    let cfg = default_config(String::from("/home/someone"), String::from("/home/someone/.config"));
    assert_eq!(cfg.media_dir, "/home/someone");
    assert_eq!(cfg.data_dir, "/home/someone/.config/mlib");
    assert_eq!(cfg.player, "mpv");
    assert_eq!(
        cfg.filetypes,
        vec![
            String::from(".mp4"),
            String::from(".mkv"),
            String::from(".avi"),
            String::from(".m4v"),
            String::from(".webm"),
            String::from(".mov"),
        ]
    );
}

#[test]
fn watched_flag_follows_history() {
    let cfg = media_config();
    let mut data = HistoryStore::new();
    data.add(String::from("seen.mkv"));
    let listing = vec![
        raw("/media/seen.mkv", "seen.mkv", EntryKind::File),
        raw("/media/new.mkv", "new.mkv", EntryKind::File),
    ];
    let entries = list_entries(Some(listing), false, &cfg, &data);
    assert_eq!(names(&entries), vec![String::from("new"), String::from("seen")]);
    assert!(!entries[0].is_watched);
    assert!(entries[1].is_watched);
}
