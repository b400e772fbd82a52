//! Directory listing rules: which raw children are visible, how their
//! display names are derived, and the case-insensitive stable order in
//! which they are shown.
//!
//! A raw child whose type could not be determined is skipped rather than
//! failing the whole listing.

use crate::config::Config;
use crate::history::HistoryStore;
use crate::paths::norm_key_spec;
use crate::paths::normalize_key;
use crate::seq_views;
use crate::text::ends_with;
use crate::text::ends_with_exec;
use crate::text::lemma_lex_le_total;
use crate::text::lemma_lex_le_trans;
use crate::text::lex_le;
use crate::text::lex_le_exec;
use crate::text::lower_of;
use crate::text::fold_case;
use crate::text::remove_all;
use crate::text::remove_all_spec;
use vstd::prelude::*;
use vstd::string::*;

verus! {

broadcast use vstd::seq_lib::group_to_multiset_ensures;

/// How a raw directory child was classified by the enumeration.
#[derive(Clone, Copy, PartialEq, Eq, Structural)]
pub enum EntryKind {
    File,
    Directory,
    Unknown,
}

/// One raw directory child, as enumerated: its absolute path, its bare
/// name, and its classification.
pub struct RawEntry {
    pub path: String,
    pub name: String,
    pub kind: EntryKind,
}

/// The view of a raw directory child.
#[verifier::ext_equal]
pub struct RawEntryV {
    pub path: Seq<char>,
    pub name: Seq<char>,
    pub kind: EntryKind,
}

impl View for RawEntry {
    type V = RawEntryV;

    open spec fn view(&self) -> RawEntryV {
        RawEntryV { path: self.path@, name: self.name@, kind: self.kind }
    }
}

/// One visible entry: the absolute path used for opening and history, the
/// name shown in the list, and the file/watched flags.
pub struct Entry {
    pub path: String,
    pub display_name: String,
    pub is_file: bool,
    pub is_watched: bool,
}

/// The view of a visible entry.
#[verifier::ext_equal]
pub struct EntryV {
    pub path: Seq<char>,
    pub display_name: Seq<char>,
    pub is_file: bool,
    pub is_watched: bool,
}

impl View for Entry {
    type V = EntryV;

    open spec fn view(&self) -> EntryV {
        EntryV {
            path: self.path@,
            display_name: self.display_name@,
            is_file: self.is_file,
            is_watched: self.is_watched,
        }
    }
}

/// A name counts as hidden when it starts with a dot or is the reserved
/// system name.
pub open spec fn hidden_name(name: Seq<char>) -> bool {
    (name.len() > 0 && name[0] == '.') || name == "System Volume Information"@
}

/// A non-directory passes the extension filter when its name ends with one
/// of the filter suffixes; directories always pass.
pub open spec fn passes_filter(name: Seq<char>, is_file: bool, filters: Seq<Seq<char>>) -> bool {
    !is_file || exists|i: int| 0 <= i < filters.len() && ends_with(name, filters[i])
}

/// Whether a child is shown: everything when hidden entries are shown,
/// otherwise only non-hidden children that pass the extension filter.
pub open spec fn visible_spec(
    name: Seq<char>,
    is_file: bool,
    show_hidden: bool,
    filters: Seq<Seq<char>>,
) -> bool {
    show_hidden || (!hidden_name(name) && passes_filter(name, is_file, filters))
}

/// The name with the filter suffixes at and after position `i` removed,
/// one after the other.
pub open spec fn strip_from(name: Seq<char>, filters: Seq<Seq<char>>, i: int) -> Seq<char>
    decreases filters.len() - i,
{
    if 0 <= i < filters.len() {
        strip_from(remove_all_spec(name, filters[i]), filters, i + 1)
    } else {
        name
    }
}

/// The display name of a child: while the filter is active, every filter
/// suffix is stripped from a file's name; directories and raw names are
/// shown as they are.
pub open spec fn display_spec(
    name: Seq<char>,
    is_file: bool,
    show_hidden: bool,
    filters: Seq<Seq<char>>,
) -> Seq<char> {
    if show_hidden || !is_file {
        name
    } else {
        strip_from(name, filters, 0)
    }
}

/// The entry a visible raw child turns into.
pub open spec fn entry_v(
    r: RawEntryV,
    show_hidden: bool,
    filters: Seq<Seq<char>>,
    hist: Set<Seq<char>>,
    root: Seq<char>,
) -> EntryV {
    EntryV {
        path: r.path,
        display_name: display_spec(r.name, r.kind == EntryKind::File, show_hidden, filters),
        is_file: r.kind == EntryKind::File,
        is_watched: hist.contains(norm_key_spec(r.path, root)),
    }
}

/// The visible entries of a raw listing, in enumeration order: children of
/// unknown type are skipped, the rest pass through the visibility rule.
pub open spec fn select_spec(
    raw: Seq<RawEntryV>,
    show_hidden: bool,
    filters: Seq<Seq<char>>,
    hist: Set<Seq<char>>,
    root: Seq<char>,
) -> Seq<EntryV>
    decreases raw.len(),
{
    if raw.len() == 0 {
        Seq::empty()
    } else {
        let front = select_spec(raw.drop_last(), show_hidden, filters, hist, root);
        let r = raw.last();
        if r.kind != EntryKind::Unknown && visible_spec(
            r.name,
            r.kind == EntryKind::File,
            show_hidden,
            filters,
        ) {
            front.push(entry_v(r, show_hidden, filters, hist, root))
        } else {
            front
        }
    }
}

/// The listing order: entries compare by the lowercase form of their
/// display names.
pub open spec fn key_le_v(a: EntryV, b: EntryV) -> bool {
    lex_le(lower_of(a.display_name), lower_of(b.display_name))
}

/// `e` inserted into `s` after every element whose key is less than or
/// equal to its own — the stable insertion position.
pub open spec fn insert_v(s: Seq<EntryV>, e: EntryV) -> Seq<EntryV>
    decreases s.len(),
{
    if s.len() == 0 {
        seq![e]
    } else if key_le_v(s.last(), e) {
        s.push(e)
    } else {
        insert_v(s.drop_last(), e).push(s.last())
    }
}

/// Stable insertion sort of the entries by `key_le_v`.
pub open spec fn sort_v(s: Seq<EntryV>) -> Seq<EntryV>
    decreases s.len(),
{
    if s.len() == 0 {
        Seq::empty()
    } else {
        insert_v(sort_v(s.drop_last()), s.last())
    }
}

/// The entries are in order.
pub open spec fn sorted_v(s: Seq<EntryV>) -> bool {
    forall|i: int, j: int| 0 <= i < j < s.len() ==> key_le_v(s[i], s[j])
}

/// The listing order is total.
pub proof fn lemma_key_total(a: EntryV, b: EntryV)
    ensures
        key_le_v(a, b) || key_le_v(b, a),
{
    lemma_lex_le_total(lower_of(a.display_name), lower_of(b.display_name));
}

/// The listing order is transitive.
pub proof fn lemma_key_trans(a: EntryV, b: EntryV, c: EntryV)
    requires
        key_le_v(a, b),
        key_le_v(b, c),
    ensures
        key_le_v(a, c),
{
    lemma_lex_le_trans(
        lower_of(a.display_name),
        lower_of(b.display_name),
        lower_of(c.display_name),
    );
}

proof fn lemma_insert_v(s: Seq<EntryV>, e: EntryV)
    requires
        sorted_v(s),
    ensures
        sorted_v(insert_v(s, e)),
        insert_v(s, e).len() == s.len() + 1,
        insert_v(s, e).to_multiset() == s.to_multiset().insert(e),
        forall|k: int|
            0 <= k < insert_v(s, e).len() ==> insert_v(s, e)[k] == e || s.contains(
                #[trigger] insert_v(s, e)[k],
            ),
    decreases s.len(),
{
    if s.len() == 0 {
        assert(insert_v(s, e) =~= Seq::empty().push(e));
        assert(s.to_multiset() =~= Seq::<EntryV>::empty().to_multiset());
    } else if key_le_v(s.last(), e) {
        let r = s.push(e);
        assert forall|i: int, j: int| 0 <= i < j < r.len() implies key_le_v(r[i], r[j]) by {
            if j == r.len() - 1 {
                if i < s.len() - 1 {
                    lemma_key_trans(s[i], s.last(), e);
                }
            }
        }
    } else {
        let s0 = s.drop_last();
        let t = s.last();
        lemma_insert_v(s0, e);
        let m = insert_v(s0, e);
        let r = m.push(t);
        lemma_key_total(t, e);
        assert forall|i: int, j: int| 0 <= i < j < r.len() implies key_le_v(r[i], r[j]) by {
            if j == r.len() - 1 {
                if m[i] == e {
                    assert(key_le_v(e, t));
                } else {
                    let k = choose|k: int| 0 <= k < s0.len() && s0[k] == m[i];
                    assert(key_le_v(s[k], s.last()));
                }
            }
        }
        assert(s0.to_multiset().insert(e).insert(t) =~= s0.to_multiset().insert(t).insert(e));
        assert(s0.push(t) =~= s);
        assert(s0.push(t).to_multiset() == s0.to_multiset().insert(t));
        assert forall|k: int| 0 <= k < r.len() implies r[k] == e || s.contains(#[trigger] r[k]) by {
            if k < m.len() {
                if m[k] != e {
                    let k2 = choose|k2: int| 0 <= k2 < s0.len() && s0[k2] == m[k];
                    assert(s[k2] == m[k]);
                }
            } else {
                assert(s[s.len() - 1] == t);
            }
        }
    }
}

/// The sort yields the same entries, in order: it permutes the input, its
/// result is sorted, and its length is unchanged.
pub proof fn lemma_sort_v(s: Seq<EntryV>)
    ensures
        sorted_v(sort_v(s)),
        sort_v(s).len() == s.len(),
        sort_v(s).to_multiset() == s.to_multiset(),
    decreases s.len(),
{
    if s.len() == 0 {
    } else {
        lemma_sort_v(s.drop_last());
        lemma_insert_v(sort_v(s.drop_last()), s.last());
        assert(s.drop_last().push(s.last()) =~= s);
        assert(s.drop_last().push(s.last()).to_multiset() == s.drop_last().to_multiset().insert(
            s.last(),
        ));
    }
}

/// Where the insertion position is known, `insert_v` is a positional
/// insertion.
proof fn lemma_insert_v_at(s: Seq<EntryV>, e: EntryV, idx: int)
    requires
        0 <= idx <= s.len(),
        forall|k: int| idx <= k < s.len() ==> !key_le_v(#[trigger] s[k], e),
        idx > 0 ==> key_le_v(s[idx - 1], e),
    ensures
        insert_v(s, e) == s.take(idx) + seq![e] + s.skip(idx),
    decreases s.len(),
{
    if s.len() == 0 {
        assert(insert_v(s, e) =~= s.take(idx) + seq![e] + s.skip(idx));
    } else if idx == s.len() {
        assert(insert_v(s, e) =~= s.take(idx) + seq![e] + s.skip(idx));
    } else {
        let s0 = s.drop_last();
        lemma_insert_v_at(s0, e, idx);
        assert(insert_v(s, e) == insert_v(s0, e).push(s.last()));
        assert(s0.take(idx) =~= s.take(idx));
        assert((s0.take(idx) + seq![e] + s0.skip(idx)).push(s.last()) =~= s.take(idx) + seq![e]
            + s.skip(idx));
    }
}

/// Compares two entries in the listing order.
fn entry_le(a: &Entry, b: &Entry) -> (r: bool)
    ensures
        r == key_le_v(a@, b@),
{
    let la = fold_case(a.display_name.as_str());
    let lb = fold_case(b.display_name.as_str());
    lex_le_exec(la.as_str(), lb.as_str())
}

/// Inserts `e` into the sorted vector at its stable position.
#[verifier::loop_isolation(true)]
fn insert_entry(out: &mut Vec<Entry>, e: Entry)
    ensures
        seq_views(final(out)@) == insert_v(seq_views(old(out)@), e@),
        final(out)@.len() == old(out)@.len() + 1,
{
    let mut idx: usize = out.len();
    loop
        invariant
            idx <= out@.len(),
            out@ == old(out)@,
            forall|k: int| idx <= k < out@.len() ==> !key_le_v(#[trigger] out@[k]@, e@),
        ensures
            idx <= out@.len(),
            out@ == old(out)@,
            forall|k: int| idx <= k < out@.len() ==> !key_le_v(#[trigger] out@[k]@, e@),
            idx > 0 ==> key_le_v(out@[idx - 1]@, e@),
        decreases idx,
    {
        if idx == 0 {
            break;
        }
        if entry_le(&out[idx - 1], &e) {
            break;
        }
        idx = idx - 1;
    }
    proof {
        let sv = seq_views(out@);
        assert forall|k: int| idx <= k < sv.len() implies !key_le_v(#[trigger] sv[k], e@) by {
            assert(sv[k] == out@[k]@);
        }
        lemma_insert_v_at(sv, e@, idx as int);
    }
    let ghost before = out@;
    out.insert(idx, e);
    proof {
        assert(seq_views(out@) =~= seq_views(before).take(idx as int) + seq![e@] + seq_views(
            before,
        ).skip(idx as int));
    }
}

/// Sorts the entries by `key_le_v`, keeping the input order of entries
/// whose keys compare equal.
fn sort_entries(input: Vec<Entry>) -> (r: Vec<Entry>)
    ensures
        seq_views(r@) == sort_v(seq_views(input@)),
        r@.len() == input@.len(),
{
    let ghost orig = input@;
    let mut rest = input;
    let mut out: Vec<Entry> = Vec::new();
    proof {
        assert(orig.skip(0) =~= orig);
        assert(seq_views(orig.take(0)) =~= Seq::<EntryV>::empty());
        assert(seq_views(out@) =~= Seq::<EntryV>::empty());
    }
    while rest.len() > 0
        invariant
            rest@.len() <= orig.len(),
            rest@ == orig.skip(orig.len() - rest@.len()),
            seq_views(out@) == sort_v(seq_views(orig.take(orig.len() - rest@.len()))),
            out@.len() + rest@.len() == orig.len(),
        decreases rest@.len(),
    {
        let ghost i = orig.len() - rest@.len();
        let e = rest.remove(0);
        proof {
            assert(e == orig[i]);
            assert(rest@ =~= orig.skip(i + 1));
        }
        insert_entry(&mut out, e);
        proof {
            let p1 = seq_views(orig.take(i + 1));
            assert(p1.drop_last() =~= seq_views(orig.take(i)));
            assert(p1.last() == orig[i]@);
            assert(sort_v(p1) == insert_v(sort_v(seq_views(orig.take(i))), orig[i]@));
        }
    }
    proof {
        assert(orig.take(orig.len() as int) =~= orig);
    }
    out
}

/// Whether a raw child with the given name is shown.
fn visible_exec(name: &str, is_file: bool, show_hidden: bool, filters: &Vec<String>) -> (r: bool)
    ensures
        r == visible_spec(name@, is_file, show_hidden, seq_views(filters@)),
{
    if show_hidden {
        return true;
    }
    let n = name.unicode_len();
    if n > 0 && name.get_char(0) == '.' {
        return false;
    }
    let reserved = String::from_str("System Volume Information");
    let own = String::from_str(name);
    if own == reserved {
        return false;
    }
    if !is_file {
        return true;
    }
    let m = filters.len();
    let mut i: usize = 0;
    while i < m
        invariant
            i <= m,
            m == filters@.len(),
            forall|k: int| 0 <= k < i ==> !ends_with(name@, seq_views(filters@)[k]),
        decreases m - i,
    {
        if ends_with_exec(name, filters[i].as_str()) {
            assert(ends_with(name@, seq_views(filters@)[i as int]));
            return true;
        }
        i = i + 1;
    }
    false
}

/// The display name of a raw child with the given name.
fn display_exec(name: &str, is_file: bool, show_hidden: bool, filters: &Vec<String>) -> (r: String)
    ensures
        r@ == display_spec(name@, is_file, show_hidden, seq_views(filters@)),
{
    if show_hidden || !is_file {
        return String::from_str(name);
    }
    let m = filters.len();
    let mut cur = String::from_str(name);
    let mut i: usize = 0;
    while i < m
        invariant
            i <= m,
            m == filters@.len(),
            strip_from(name@, seq_views(filters@), 0) == strip_from(
                cur@,
                seq_views(filters@),
                i as int,
            ),
        decreases m - i,
    {
        cur = remove_all(cur.as_str(), filters[i].as_str());
        i = i + 1;
    }
    cur
}

/// Builds the visible entries of a raw listing, in enumeration order.
fn select_entries(
    raw: &Vec<RawEntry>,
    show_hidden: bool,
    config: &Config,
    data: &HistoryStore,
) -> (r: Vec<Entry>)
    ensures
        seq_views(r@) == select_spec(
            seq_views(raw@),
            show_hidden,
            config.filters(),
            data@,
            config.media_dir@,
        ),
        r@.len() <= raw@.len(),
{
    let n = raw.len();
    let mut out: Vec<Entry> = Vec::new();
    let mut i: usize = 0;
    proof {
        assert(seq_views(raw@).take(0) =~= Seq::<RawEntryV>::empty());
        assert(seq_views(out@) =~= Seq::<EntryV>::empty());
    }
    while i < n
        invariant
            i <= n,
            n == raw@.len(),
            out@.len() <= i,
            seq_views(out@) == select_spec(
                seq_views(raw@).take(i as int),
                show_hidden,
                config.filters(),
                data@,
                config.media_dir@,
            ),
        decreases n - i,
    {
        let ghost pref = seq_views(raw@).take(i as int);
        let ghost pref1 = seq_views(raw@).take(i + 1);
        proof {
            assert(pref1.drop_last() =~= pref);
            assert(pref1.last() == raw@[i as int]@);
        }
        let keep = match raw[i].kind {
            EntryKind::Unknown => false,
            EntryKind::File => visible_exec(
                raw[i].name.as_str(),
                true,
                show_hidden,
                &config.filetypes,
            ),
            EntryKind::Directory => visible_exec(
                raw[i].name.as_str(),
                false,
                show_hidden,
                &config.filetypes,
            ),
        };
        if keep {
            let is_file = match raw[i].kind {
                EntryKind::File => true,
                _ => false,
            };
            let disp = display_exec(raw[i].name.as_str(), is_file, show_hidden, &config.filetypes);
            let key = normalize_key(raw[i].path.as_str(), config.media_dir.as_str());
            let watched = data.contains(&key);
            let ent = Entry {
                path: raw[i].path.clone(),
                display_name: disp,
                is_file,
                is_watched: watched,
            };
            let ghost prev = out@;
            out.push(ent);
            proof {
                assert(ent@ =~= entry_v(
                    raw@[i as int]@,
                    show_hidden,
                    config.filters(),
                    data@,
                    config.media_dir@,
                ));
                assert(seq_views(out@) =~= seq_views(prev).push(ent@));
            }
        }
        i = i + 1;
    }
    proof {
        assert(seq_views(raw@).take(n as int) =~= seq_views(raw@));
    }
    out
}

/// Turns a raw listing into the entries shown: `None` stands for a listing
/// that could not be read and yields no entries; a readable listing is
/// filtered and sorted.
pub fn list_entries(
    raw: Option<Vec<RawEntry>>,
    show_hidden: bool,
    config: &Config,
    data: &HistoryStore,
) -> (r: Vec<Entry>)
    ensures
        raw matches Some(v) ==> seq_views(r@) == sort_v(
            select_spec(seq_views(v@), show_hidden, config.filters(), data@, config.media_dir@),
        ) && r@.len() <= v@.len(),
        raw is None ==> r@.len() == 0,
{
    match raw {
        None => Vec::new(),
        Some(v) => {
            let picked = select_entries(&v, show_hidden, config, data);
            sort_entries(picked)
        },
    }
}

/// The visible entries are always ordered by the lowercase form of their
/// display names, and the order is all the sort changes: the sorted
/// listing holds exactly the entries the filter selected.
pub proof fn lemma_listing_ordered(
    raw: Seq<RawEntryV>,
    show_hidden: bool,
    filters: Seq<Seq<char>>,
    hist: Set<Seq<char>>,
    root: Seq<char>,
)
    ensures
        sorted_v(sort_v(select_spec(raw, show_hidden, filters, hist, root))),
        sort_v(select_spec(raw, show_hidden, filters, hist, root)).to_multiset() == select_spec(
            raw,
            show_hidden,
            filters,
            hist,
            root,
        ).to_multiset(),
{
    lemma_sort_v(select_spec(raw, show_hidden, filters, hist, root));
}

/// Toggling the hidden flag twice yields exactly the listing the original
/// flag yields: the visible entry sequence, including its order, is
/// restored when nothing else changed.
pub proof fn lemma_filter_round_trip(
    raw: Seq<RawEntryV>,
    show_hidden: bool,
    filters: Seq<Seq<char>>,
    hist: Set<Seq<char>>,
    root: Seq<char>,
)
    ensures
        sort_v(select_spec(raw, !!show_hidden, filters, hist, root)) == sort_v(
            select_spec(raw, show_hidden, filters, hist, root),
        ),
{
}

} // verus!
