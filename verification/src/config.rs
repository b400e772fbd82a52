//! The immutable configuration: browse root, player command, data directory
//! and the file-extension allow-list.

use crate::seq_views;
use vstd::prelude::*;
use vstd::string::*;

verus! {

/// Configuration loaded once at startup. `media_dir` is the default browse
/// root and the root that history keys are made relative to; `data_dir`
/// holds the history file; `player` is the external player command;
/// `filetypes` is the extension allow-list applied while hidden entries are
/// not shown.
pub struct Config {
    pub media_dir: String,
    pub data_dir: String,
    pub player: String,
    pub filetypes: Vec<String>,
}

impl Config {
    /// The configured filter suffixes, as character sequences.
    pub open spec fn filters(&self) -> Seq<Seq<char>> {
        seq_views(self.filetypes@)
    }
}

/// The configuration used when no configuration file exists yet, built from
/// the user's home directory and the platform configuration directory.
pub fn default_config(home: String, config_base: String) -> (c: Config)
    ensures
        c.media_dir == home,
        c.data_dir@ == config_base@ + "/mlib"@,
        c.player@ == "mpv"@,
        c.filters() =~= seq![".mp4"@, ".mkv"@, ".avi"@, ".m4v"@, ".webm"@, ".mov"@],
{
    let mut filetypes: Vec<String> = Vec::new();
    filetypes.push(String::from_str(".mp4"));
    filetypes.push(String::from_str(".mkv"));
    filetypes.push(String::from_str(".avi"));
    filetypes.push(String::from_str(".m4v"));
    filetypes.push(String::from_str(".webm"));
    filetypes.push(String::from_str(".mov"));
    let c = Config {
        media_dir: home,
        data_dir: config_base.concat("/mlib"),
        player: String::from_str("mpv"),
        filetypes,
    };
    proof {
        assert(c.filters() =~= seq![".mp4"@, ".mkv"@, ".avi"@, ".m4v"@, ".webm"@, ".mov"@]);
    }
    c
}

} // verus!
