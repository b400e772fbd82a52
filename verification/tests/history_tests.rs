use mlib::codec::encode_history;
use mlib::codec::encode_keys;
use mlib::codec::parse_history;
use mlib::config::Config;
use mlib::history::hist_add;
use mlib::history::hist_contains;
use mlib::history::hist_remove;
use mlib::history::HistoryStore;
use mlib::listing::Entry;

fn media_config() -> Config {
    Config {
        media_dir: String::from("/media"),
        data_dir: String::from("/tmp/mlib-data"),
        player: String::from("mpv"),
        filetypes: vec![String::from(".mkv")],
    }
}

fn entry(path: &str) -> Entry {
    Entry {
        path: String::from(path),
        display_name: String::from(path),
        is_file: true,
        is_watched: false,
    }
}

#[test]
fn add_then_contains_then_remove() {
    let mut h = HistoryStore::new();
    let k = String::from("movie.mkv");
    assert!(!h.contains(&k));
    h.add(k.clone());
    assert!(h.contains(&k));
    h.add(k.clone());
    assert!(h.contains(&k));
    h.remove(&k);
    assert!(!h.contains(&k));
    h.remove(&k);
    assert!(!h.contains(&k));
}

#[test]
fn keys_under_the_media_root_are_stored_relative() {
    let cfg = media_config();
    let mut data = HistoryStore::new();
    let e = entry("/media/shows/ep1.mkv");
    hist_add(&mut data, &cfg, &e);
    assert!(hist_contains(&data, &cfg, &e));
    assert!(data.contains(&String::from("shows/ep1.mkv")));
    assert!(!data.contains(&String::from("/media/shows/ep1.mkv")));
    hist_remove(&mut data, &cfg, &e);
    assert!(!hist_contains(&data, &cfg, &e));
}

#[test]
fn keys_outside_the_media_root_are_stored_verbatim() {
    let cfg = media_config();
    let mut data = HistoryStore::new();
    let e = entry("/elsewhere/film.mkv");
    hist_add(&mut data, &cfg, &e);
    assert!(data.contains(&String::from("/elsewhere/film.mkv")));
    assert!(hist_contains(&data, &cfg, &e));
}

#[test]
fn encode_then_parse_reproduces_membership() {
    let mut h = HistoryStore::new();
    h.add(String::from("a.mkv"));
    h.add(String::from("shows/b.mkv"));
    h.add(String::from("c d.mkv"));
    let text = encode_history(&h);
    let back = parse_history(text.as_str()).expect("the encoder writes a readable document");
    assert!(back.contains(&String::from("a.mkv")));
    assert!(back.contains(&String::from("shows/b.mkv")));
    assert!(back.contains(&String::from("c d.mkv")));
    assert!(!back.contains(&String::from("e.mkv")));
}

#[test]
fn encode_then_parse_handles_odd_characters() {
    let mut h = HistoryStore::new();
    let odd = String::from("we\"ird\\name\nwith\tcontrol\u{1}.mkv");
    h.add(odd.clone());
    let text = encode_history(&h);
    let back = parse_history(text.as_str()).expect("escapes must read back");
    assert!(back.contains(&odd));
}

#[test]
fn empty_store_round_trips() {
    let h = HistoryStore::new();
    let text = encode_history(&h);
    assert_eq!(text, "{\"history\":[]}");
    let back = parse_history(text.as_str()).expect("an empty document is valid");
    assert!(!back.contains(&String::from("anything")));
}

#[test]
fn exact_document_for_one_key() {
    let keys = vec![String::from("x")];
    assert_eq!(encode_keys(&keys), "{\"history\":[\"x\"]}");
}

#[test]
fn parse_accepts_pretty_printed_documents() {
    let text = "{\n  \"history\": [\n    \"a b.mkv\",\n    \"shows/c.mkv\"\n  ]\n}";
    let back = parse_history(text).expect("pretty-printed form must parse");
    assert!(back.contains(&String::from("a b.mkv")));
    assert!(back.contains(&String::from("shows/c.mkv")));
}

#[test]
fn parse_decodes_unicode_escapes() {
    let text = "{\"history\":[\"\\u0041\\u0042\"]}";
    let back = parse_history(text).expect("unicode escapes must parse");
    assert!(back.contains(&String::from("AB")));
}

#[test]
fn parse_rejects_malformed_documents() {
    assert!(parse_history("").is_none());
    assert!(parse_history("{}").is_none());
    assert!(parse_history("{\"history\":}").is_none());
    assert!(parse_history("{\"history\":[").is_none());
    assert!(parse_history("{\"history\":[\"a\"").is_none());
    assert!(parse_history("{\"history\":[\"a\",]}").is_none());
    assert!(parse_history("{\"history\":[\"a\"]} trailing").is_none());
    assert!(parse_history("{\"watched\":[\"a\"]}").is_none());
    assert!(parse_history("{\"history\":[\"bad\\escape\"]}").is_none());
}

#[test]
fn encoder_output_is_json_that_serde_reads() {
    let mut h = HistoryStore::new();
    h.add(String::from("we\"ird\\name\nwith\tcontrol\u{1}.mkv"));
    h.add(String::from("plain.mkv"));
    let text = encode_history(&h);
    let value: serde_json::Value = serde_json::from_str(text.as_str()).expect("valid JSON");
    let items = value
        .get("history")
        .expect("a history field")
        .as_array()
        .expect("an array of keys");
    let mut found_odd = false;
    let mut found_plain = false;
    for item in items {
        let s = item.as_str().expect("a string key");
        if s == "we\"ird\\name\nwith\tcontrol\u{1}.mkv" {
            found_odd = true;
        }
        if s == "plain.mkv" {
            found_plain = true;
        }
    }
    assert!(found_odd && found_plain);
}
