//! The navigation state machine: current path, selection, entry list and
//! the two UI toggles, driven by discrete commands.
//!
//! After every command the caller re-reads the current directory and calls
//! [`NavState::refresh`], which rebuilds the entry list and re-clamps the
//! selection; a selection moved past either end wraps around.

use crate::config::Config;
use crate::history::hist_add;
use crate::history::hist_contains;
use crate::history::hist_remove;
use crate::history::HistoryStore;
use crate::listing::list_entries;
use crate::listing::select_spec;
use crate::listing::sort_v;
use crate::listing::Entry;
use crate::listing::EntryV;
use crate::listing::RawEntry;
use crate::paths::norm_key_spec;
use crate::paths::parent_of;
use crate::paths::parent_spec;
use crate::seq_views;
use vstd::arithmetic::div_mod::lemma_fundamental_div_mod;
use vstd::arithmetic::div_mod::lemma_fundamental_div_mod_converse;
use vstd::prelude::*;

verus! {

/// Selection index after a clamp pass: `0` for an empty entry list, the
/// floored modulo of `sel` into `[0, n)` otherwise (so a move up from the
/// first entry wraps to the last, and a move down from the last wraps to
/// the first).
pub open spec fn clamp_spec(sel: int, n: int) -> int {
    if n <= 0 {
        0
    } else {
        sel % n
    }
}

/// The largest entry list the state machine handles; the selection index
/// is kept in a 32-bit signed integer, as a terminal list never outgrows
/// one.
pub const MAX_ENTRIES: usize = 0x7fff_ffff;

/// A discrete command, as the key handler decodes it.
#[derive(Clone, Copy, PartialEq, Eq, Structural)]
pub enum Command {
    MoveUp,
    MoveDown,
    Enter,
    Leave,
    Activate,
    ToggleWatched,
    ToggleHidden,
    ToggleHelp,
    Quit,
}

/// What the caller must do after a command: nothing, probe and enter the
/// selected directory, play the selected file, save the history file, or
/// quit.
pub enum Action {
    Nothing,
    EnterDir { path: String },
    Play { path: String },
    SaveHistory,
    Quit,
}

/// The single mutable root of the user interface.
pub struct NavState {
    pub current_path: String,
    pub selected: i32,
    pub entries: Vec<Entry>,
    pub show_hidden: bool,
    pub show_help: bool,
}

impl NavState {
    /// The state between a command and the next clamp pass: the selection
    /// may have moved one step out of bounds.
    pub open spec fn wf(self) -> bool {
        &&& self.entries@.len() <= MAX_ENTRIES
        &&& -1 <= self.selected as int
        &&& self.selected as int <= MAX_ENTRIES
    }

    /// The state after a clamp pass: the selection is `0` on an empty list
    /// and in bounds otherwise.
    pub open spec fn clamped(self) -> bool {
        &&& self.wf()
        &&& if self.entries@.len() == 0 {
            self.selected == 0
        } else {
            0 <= self.selected < self.entries@.len()
        }
    }

    /// There is a selected entry.
    pub open spec fn has_selection(self) -> bool {
        self.entries@.len() > 0
    }

    /// The view of the selected entry.
    pub open spec fn sel(self) -> EntryV
        recommends
            self.clamped(),
            self.has_selection(),
    {
        self.entries@[self.selected as int]@
    }

    /// The selected entry is a file.
    pub open spec fn file_selected(self) -> bool {
        self.has_selection() && self.sel().is_file
    }

    /// The selected entry is a directory.
    pub open spec fn dir_selected(self) -> bool {
        self.has_selection() && !self.sel().is_file
    }

    /// The initial state: browsing `path` with nothing listed yet, nothing
    /// hidden shown and the help closed.
    pub fn new(path: String) -> (s: NavState)
        ensures
            s.current_path == path,
            s.selected == 0,
            s.entries@.len() == 0,
            !s.show_hidden,
            !s.show_help,
            s.clamped(),
    {
        NavState {
            current_path: path,
            selected: 0,
            entries: Vec::new(),
            show_hidden: false,
            show_help: false,
        }
    }

    /// Applies one command. Selection moves do not wrap here: the wrap
    /// happens at the next [`NavState::refresh`], against the entry list
    /// that is current then. `Enter` and `Activate` decide, but leave the
    /// outside work — probing the directory, spawning the player — to the
    /// caller, through the returned [`Action`].
    pub fn step(&mut self, cmd: Command, data: &mut HistoryStore, config: &Config) -> (a: Action)
        requires
            old(self).clamped(),
        ensures
            final(self).wf(),
            final(self).entries == old(self).entries,
            final(self).show_help == (old(self).show_help != (cmd == Command::ToggleHelp)),
            final(self).show_hidden == (old(self).show_hidden != (cmd == Command::ToggleHidden)),
            cmd == Command::MoveUp ==> final(self).selected == old(self).selected - 1,
            cmd == Command::MoveDown ==> final(self).selected == old(self).selected + 1,
            cmd != Command::MoveUp && cmd != Command::MoveDown && cmd != Command::Leave
                ==> final(self).selected == old(self).selected,
            cmd == Command::Leave ==> final(self).selected == 0 && final(self).current_path@
                == parent_spec(old(self).current_path@),
            cmd != Command::Leave ==> final(self).current_path == old(self).current_path,
            cmd == Command::ToggleWatched && old(self).file_selected() ==> ({
                let key = norm_key_spec(old(self).sel().path, config.media_dir@);
                &&& final(data)@ == if old(data)@.contains(key) {
                    old(data)@.remove(key)
                } else {
                    old(data)@.insert(key)
                }
                &&& a is SaveHistory
            }),
            !(cmd == Command::ToggleWatched && old(self).file_selected())
                ==> *final(data) == *old(data),
            cmd == Command::Enter && old(self).dir_selected() ==> (a matches Action::EnterDir {
                path,
            } && path@ == old(self).sel().path),
            cmd == Command::Activate && old(self).file_selected() ==> (a matches Action::Play {
                path,
            } && path@ == old(self).sel().path),
            cmd == Command::Quit ==> a is Quit,
            cmd == Command::MoveUp || cmd == Command::MoveDown || cmd == Command::Leave || cmd
                == Command::ToggleHidden || cmd == Command::ToggleHelp ==> a is Nothing,
            cmd == Command::Enter && !old(self).dir_selected() ==> a is Nothing,
            cmd == Command::Activate && !old(self).file_selected() ==> a is Nothing,
            cmd == Command::ToggleWatched && !old(self).file_selected() ==> a is Nothing,
    {
        match cmd {
            Command::MoveUp => {
                self.selected = self.selected - 1;
                Action::Nothing
            },
            Command::MoveDown => {
                self.selected = self.selected + 1;
                Action::Nothing
            },
            Command::Enter => {
                if self.entries.len() > 0 && !self.entries[self.selected as usize].is_file {
                    Action::EnterDir { path: self.entries[self.selected as usize].path.clone() }
                } else {
                    Action::Nothing
                }
            },
            Command::Leave => {
                self.current_path = parent_of(self.current_path.as_str());
                self.selected = 0;
                Action::Nothing
            },
            Command::Activate => {
                if self.entries.len() > 0 && self.entries[self.selected as usize].is_file {
                    Action::Play { path: self.entries[self.selected as usize].path.clone() }
                } else {
                    Action::Nothing
                }
            },
            Command::ToggleWatched => {
                if self.entries.len() > 0 && self.entries[self.selected as usize].is_file {
                    let sel = self.selected as usize;
                    if hist_contains(data, config, &self.entries[sel]) {
                        hist_remove(data, config, &self.entries[sel]);
                    } else {
                        hist_add(data, config, &self.entries[sel]);
                    }
                    Action::SaveHistory
                } else {
                    Action::Nothing
                }
            },
            Command::ToggleHidden => {
                self.show_hidden = !self.show_hidden;
                Action::Nothing
            },
            Command::ToggleHelp => {
                self.show_help = !self.show_help;
                Action::Nothing
            },
            Command::Quit => Action::Quit,
        }
    }

    /// Commits an `Enter` after the caller found the selected directory
    /// readable: the current path becomes the selection's path and the
    /// selection is reset.
    pub fn commit_enter(&mut self)
        requires
            old(self).clamped(),
            old(self).dir_selected(),
        ensures
            final(self).current_path@ == old(self).sel().path,
            final(self).selected == 0,
            final(self).entries == old(self).entries,
            final(self).show_hidden == old(self).show_hidden,
            final(self).show_help == old(self).show_help,
            final(self).clamped(),
    {
        let p = self.entries[self.selected as usize].path.clone();
        self.current_path = p;
        self.selected = 0;
    }

    /// Replaces the entry list with the listing of `raw` and re-clamps the
    /// selection. A raw listing of `None` stands for an unreadable
    /// directory and empties the list.
    pub fn refresh(&mut self, raw: Option<Vec<RawEntry>>, data: &HistoryStore, config: &Config)
        requires
            old(self).wf(),
            raw matches Some(v) ==> v@.len() <= MAX_ENTRIES,
        ensures
            final(self).clamped(),
            raw matches Some(v) ==> seq_views(final(self).entries@) == sort_v(
                select_spec(
                    seq_views(v@),
                    old(self).show_hidden,
                    config.filters(),
                    data@,
                    config.media_dir@,
                ),
            ),
            raw is None ==> final(self).entries@.len() == 0,
            final(self).selected as int == clamp_spec(
                old(self).selected as int,
                final(self).entries@.len() as int,
            ),
            final(self).current_path == old(self).current_path,
            final(self).show_hidden == old(self).show_hidden,
            final(self).show_help == old(self).show_help,
    {
        let fresh = list_entries(raw, self.show_hidden, config, data);
        self.entries = fresh;
        self.selected = clamp_index(self.selected, self.entries.len());
    }
}

/// Clamps a selection index to an entry count: `0` for an empty list, the
/// floored modulo otherwise, so that one step past either end comes out at
/// the other.
pub fn clamp_index(sel: i32, n: usize) -> (r: i32)
    requires
        n <= MAX_ENTRIES,
    ensures
        r as int == clamp_spec(sel as int, n as int),
        n == 0 ==> r == 0,
        n > 0 ==> 0 <= r < n,
{
    if n == 0 {
        return 0;
    }
    let m = n as i32;
    if sel >= 0 && sel < m {
        proof {
            lemma_fundamental_div_mod_converse(sel as int, n as int, 0, sel as int);
        }
        sel
    } else if sel >= 0 {
        sel % m
    } else {
        let t = -(sel + 1);
        let tm = t % m;
        let r = m - 1 - tm;
        proof {
            let ti = t as int;
            let mi = m as int;
            lemma_fundamental_div_mod(ti, mi);
            let q = ti / mi;
            assert(ti == mi * q + ti % mi);
            assert((-q - 1) * mi == -(mi * q) - mi) by (nonlinear_arith);
            assert(sel as int == (-q - 1) * mi + (mi - 1 - tm as int));
            lemma_fundamental_div_mod_converse(sel as int, mi, -q - 1, mi - 1 - tm as int);
        }
        r
    }
}

/// Clamping always lands in range: `0` for an empty list, `[0, n)`
/// otherwise, whatever the selection was before.
pub proof fn lemma_clamp_in_range(sel: int, n: int)
    ensures
        n <= 0 ==> clamp_spec(sel, n) == 0,
        n > 0 ==> 0 <= clamp_spec(sel, n) < n,
{
}

/// The wraparound at the ends: one step up from the first entry selects
/// the last, one step down from the last selects the first.
pub proof fn lemma_wraparound(n: int)
    requires
        n > 0,
    ensures
        clamp_spec(-1, n) == n - 1,
        clamp_spec(n, n) == 0,
        clamp_spec(0 - 1, n) == n - 1,
{
    lemma_fundamental_div_mod_converse(-1, n, -1, n - 1);
    lemma_fundamental_div_mod_converse(n, n, 1, 0);
}

} // verus!
