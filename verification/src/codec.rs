//! Reading and writing the history file: a small JSON codec for the one
//! document the store persists, `{"history":["key", ...]}`.
//!
//! Encoding yields plain JSON with the quote, the backslash and control
//! characters escaped. Parsing accepts the encoder's output as well as the
//! usual pretty-printed form of the same document: whitespace between
//! tokens and the common string escapes. Anything else parses to `None`.

use crate::history::HistoryStore;
use crate::seq_views;
use crate::text::push_char;
use vstd::prelude::*;
use vstd::string::*;

verus! {

/// The lowercase hexadecimal digit for a value below sixteen.
pub open spec fn hex_char(v: int) -> char {
    if v == 0 {
        '0'
    } else if v == 1 {
        '1'
    } else if v == 2 {
        '2'
    } else if v == 3 {
        '3'
    } else if v == 4 {
        '4'
    } else if v == 5 {
        '5'
    } else if v == 6 {
        '6'
    } else if v == 7 {
        '7'
    } else if v == 8 {
        '8'
    } else if v == 9 {
        '9'
    } else if v == 10 {
        'a'
    } else if v == 11 {
        'b'
    } else if v == 12 {
        'c'
    } else if v == 13 {
        'd'
    } else if v == 14 {
        'e'
    } else {
        'f'
    }
}

/// The value of a hexadecimal digit, or `-1` for any other character.
pub open spec fn hex_val(c: char) -> int {
    if c == '0' {
        0
    } else if c == '1' {
        1
    } else if c == '2' {
        2
    } else if c == '3' {
        3
    } else if c == '4' {
        4
    } else if c == '5' {
        5
    } else if c == '6' {
        6
    } else if c == '7' {
        7
    } else if c == '8' {
        8
    } else if c == '9' {
        9
    } else if c == 'a' || c == 'A' {
        10
    } else if c == 'b' || c == 'B' {
        11
    } else if c == 'c' || c == 'C' {
        12
    } else if c == 'd' || c == 'D' {
        13
    } else if c == 'e' || c == 'E' {
        14
    } else if c == 'f' || c == 'F' {
        15
    } else {
        -1
    }
}

/// How one character is written inside a JSON string: quote and backslash
/// escaped, control characters as `\u00XX`, everything else as itself.
pub open spec fn esc_char(c: char) -> Seq<char> {
    if c == '"' {
        seq!['\\', '"']
    } else if c == '\\' {
        seq!['\\', '\\']
    } else if (c as u32) < 0x20 {
        seq!['\\', 'u', '0', '0', hex_char(((c as u32) / 16) as int), hex_char(((c as u32) % 16) as int)]
    } else {
        seq![c]
    }
}

/// A key written as the body of a JSON string.
pub open spec fn enc_str(s: Seq<char>) -> Seq<char>
    decreases s.len(),
{
    if s.len() == 0 {
        Seq::empty()
    } else {
        esc_char(s[0]) + enc_str(s.drop_first())
    }
}

/// The keys from position `i` on, quoted and comma-separated.
pub open spec fn enc_items(keys: Seq<Seq<char>>, i: int) -> Seq<char>
    decreases keys.len() - i,
{
    if 0 <= i < keys.len() {
        (if i > 0 {
            seq![',']
        } else {
            Seq::<char>::empty()
        }) + seq!['"'] + enc_str(keys[i]) + seq!['"'] + enc_items(keys, i + 1)
    } else {
        Seq::empty()
    }
}

/// The document's opening: `{"history":[`.
pub open spec fn doc_head() -> Seq<char> {
    seq!['{', '"', 'h', 'i', 's', 't', 'o', 'r', 'y', '"', ':', '[']
}

/// The document's closing: `]}`.
pub open spec fn doc_tail() -> Seq<char> {
    seq![']', '}']
}

/// The whole history document for a list of keys.
pub open spec fn enc_doc(keys: Seq<Seq<char>>) -> Seq<char> {
    doc_head() + enc_items(keys, 0) + doc_tail()
}

/// The lowercase hexadecimal digit for a value below sixteen.
fn hex_char_exec(v: u32) -> (c: char)
    requires
        v < 16,
    ensures
        c == hex_char(v as int),
{
    if v == 0 {
        '0'
    } else if v == 1 {
        '1'
    } else if v == 2 {
        '2'
    } else if v == 3 {
        '3'
    } else if v == 4 {
        '4'
    } else if v == 5 {
        '5'
    } else if v == 6 {
        '6'
    } else if v == 7 {
        '7'
    } else if v == 8 {
        '8'
    } else if v == 9 {
        '9'
    } else if v == 10 {
        'a'
    } else if v == 11 {
        'b'
    } else if v == 12 {
        'c'
    } else if v == 13 {
        'd'
    } else if v == 14 {
        'e'
    } else {
        'f'
    }
}

/// Appends one key's characters in their escaped form.
fn append_escaped(out: &mut String, key: &str)
    ensures
        final(out)@ == old(out)@ + enc_str(key@),
{
    let n = key.unicode_len();
    let mut i: usize = 0;
    proof {
        assert(key@.skip(0) =~= key@);
        assert(old(out)@ + Seq::<char>::empty() =~= old(out)@);
    }
    while i < n
        invariant
            i <= n,
            n == key@.len(),
            out@ + enc_str(key@.skip(i as int)) == old(out)@ + enc_str(key@),
        decreases n - i,
    {
        let c = key.get_char(i);
        let ghost pre = out@;
        if c == '"' {
            out.append("\\\"");
            proof {
                reveal_strlit("\\\"");
                assert(out@ =~= pre + esc_char(c));
            }
        } else if c == '\\' {
            out.append("\\\\");
            proof {
                reveal_strlit("\\\\");
                assert(out@ =~= pre + esc_char(c));
            }
        } else if (c as u32) < 0x20 {
            out.append("\\u00");
            push_char(out, hex_char_exec((c as u32) / 16));
            push_char(out, hex_char_exec((c as u32) % 16));
            proof {
                reveal_strlit("\\u00");
                vstd::utf8::char_is_scalar(c);
                assert(out@ =~= pre + esc_char(c));
            }
        } else {
            push_char(out, c);
            proof {
                assert(out@ =~= pre + esc_char(c));
            }
        }
        proof {
            assert(key@.skip(i as int).drop_first() =~= key@.skip(i + 1));
            assert(enc_str(key@.skip(i as int)) =~= esc_char(c) + enc_str(key@.skip(i + 1)));
            assert(pre + (esc_char(c) + enc_str(key@.skip(i + 1))) =~= (pre + esc_char(c)) + enc_str(
                key@.skip(i + 1),
            ));
        }
        i = i + 1;
    }
    proof {
        assert(key@.skip(n as int) =~= Seq::<char>::empty());
        assert(out@ + Seq::<char>::empty() =~= out@);
    }
}

/// Writes the history document for the given keys, in their given order.
pub fn encode_keys(keys: &Vec<String>) -> (r: String)
    ensures
        r@ == enc_doc(seq_views(keys@)),
{
    let mut out = String::from_str("{\"history\":[");
    proof {
        reveal_strlit("{\"history\":[");
        assert(out@ =~= doc_head());
        assert(doc_head() + Seq::<char>::empty() =~= doc_head());
    }
    let n = keys.len();
    let mut i: usize = 0;
    while i < n
        invariant
            i <= n,
            n == keys@.len(),
            out@ == doc_head() + enc_items_upto(seq_views(keys@), i as int),
        decreases n - i,
    {
        let ghost pre = out@;
        if i > 0 {
            out.append(",");
            proof {
                reveal_strlit(",");
            }
        }
        out.append("\"");
        append_escaped(&mut out, keys[i].as_str());
        out.append("\"");
        proof {
            reveal_strlit("\"");
            assert(out@ =~= doc_head() + enc_items_upto(seq_views(keys@), i + 1));
        }
        i = i + 1;
    }
    out.append("]}");
    proof {
        reveal_strlit("]}");
        lemma_enc_items_upto(seq_views(keys@), n as int);
        assert(out@ =~= enc_doc(seq_views(keys@)));
    }
    out
}

/// The keys before position `i`, quoted and comma-separated: the prefix
/// form of `enc_items`.
pub open spec fn enc_items_upto(keys: Seq<Seq<char>>, i: int) -> Seq<char>
    decreases i,
{
    if 0 < i <= keys.len() {
        enc_items_upto(keys, i - 1) + (if i > 1 {
            seq![',']
        } else {
            Seq::<char>::empty()
        }) + seq!['"'] + enc_str(keys[i - 1]) + seq!['"']
    } else {
        Seq::empty()
    }
}

/// Concatenating the prefix before `i` with the suffix from `i` yields the
/// whole item list.
proof fn lemma_enc_items_upto(keys: Seq<Seq<char>>, i: int)
    requires
        0 <= i <= keys.len(),
    ensures
        enc_items_upto(keys, i) + enc_items(keys, i) == enc_items(keys, 0),
    decreases i,
{
    if i == 0 {
        assert(enc_items_upto(keys, 0) + enc_items(keys, 0) =~= enc_items(keys, 0));
    } else {
        lemma_enc_items_upto(keys, i - 1);
        assert(enc_items(keys, i - 1) =~= (if i - 1 > 0 {
            seq![',']
        } else {
            Seq::<char>::empty()
        }) + seq!['"'] + enc_str(keys[i - 1]) + seq!['"'] + enc_items(keys, i));
        assert(enc_items_upto(keys, i) + enc_items(keys, i) =~= enc_items_upto(keys, i - 1)
            + enc_items(keys, i - 1));
    }
}

/// JSON whitespace.
pub open spec fn is_ws(c: char) -> bool {
    c == ' ' || c == '\n' || c == '\r' || c == '\t'
}

/// The first position at or after `i` that does not hold whitespace.
pub open spec fn skip_ws(s: Seq<char>, i: int) -> int
    decreases s.len() - i,
{
    if 0 <= i < s.len() && is_ws(s[i]) {
        skip_ws(s, i + 1)
    } else {
        i
    }
}

/// Skipping whitespace never moves backwards nor past the end.
proof fn lemma_skip_ws(s: Seq<char>, i: int)
    requires
        0 <= i <= s.len(),
    ensures
        i <= skip_ws(s, i) <= s.len(),
        skip_ws(s, i) < s.len() ==> !is_ws(s[skip_ws(s, i)]),
    decreases s.len() - i,
{
    if i < s.len() && is_ws(s[i]) {
        lemma_skip_ws(s, i + 1);
    }
}

/// Prepends a parsed character to a string-body result.
pub open spec fn cons_parsed(c: char, r: Option<(Seq<char>, int)>) -> Option<(Seq<char>, int)> {
    match r {
        Some((t, j)) => Some((seq![c] + t, j)),
        None => None,
    }
}

/// The body of a JSON string from position `i` up to its closing quote:
/// the decoded characters and the position after the quote. Plain
/// characters stand for themselves; the escapes `\" \\ \/ \n \r \t \b \f`
/// and `\uXXXX` (for a value that is a valid character) are decoded;
/// anything else fails.
pub open spec fn parse_str_body(s: Seq<char>, i: int) -> Option<(Seq<char>, int)>
    decreases s.len() - i,
{
    if i < 0 || i >= s.len() {
        None
    } else if s[i] == '"' {
        Some((Seq::empty(), i + 1))
    } else if s[i] == '\\' {
        if i + 1 >= s.len() {
            None
        } else {
            let e = s[i + 1];
            if e == '"' || e == '\\' || e == '/' {
                cons_parsed(e, parse_str_body(s, i + 2))
            } else if e == 'n' {
                cons_parsed('\n', parse_str_body(s, i + 2))
            } else if e == 'r' {
                cons_parsed('\r', parse_str_body(s, i + 2))
            } else if e == 't' {
                cons_parsed('\t', parse_str_body(s, i + 2))
            } else if e == 'b' {
                cons_parsed('\u{8}', parse_str_body(s, i + 2))
            } else if e == 'f' {
                cons_parsed('\u{c}', parse_str_body(s, i + 2))
            } else if e == 'u' {
                if i + 6 > s.len() || hex_val(s[i + 2]) < 0 || hex_val(s[i + 3]) < 0 || hex_val(
                    s[i + 4],
                ) < 0 || hex_val(s[i + 5]) < 0 {
                    None
                } else {
                    let v = hex_val(s[i + 2]) * 4096 + hex_val(s[i + 3]) * 256 + hex_val(s[i + 4])
                        * 16 + hex_val(s[i + 5]);
                    if v < 0xd800 || v >= 0xe000 {
                        cons_parsed(v as char, parse_str_body(s, i + 6))
                    } else {
                        None
                    }
                }
            } else {
                None
            }
        }
    } else {
        cons_parsed(s[i], parse_str_body(s, i + 1))
    }
}

/// A parsed string body ends after the position it started at, within the
/// document.
proof fn lemma_parse_str_body_advances(s: Seq<char>, i: int)
    requires
        parse_str_body(s, i) is Some,
    ensures
        i < (parse_str_body(s, i)->Some_0).1 <= s.len(),
    decreases s.len() - i,
{
    if i < 0 || i >= s.len() {
    } else if s[i] == '"' {
    } else if s[i] == '\\' {
        let e = s[i + 1];
        if e == 'u' {
            lemma_parse_str_body_advances(s, i + 6);
        } else {
            lemma_parse_str_body_advances(s, i + 2);
        }
    } else {
        lemma_parse_str_body_advances(s, i + 1);
    }
}

/// The elements of the key array from position `i` on, up to and past the
/// closing bracket: the decoded keys and the position after the bracket.
/// `first` tells whether a comma must separate the next element.
pub open spec fn parse_items(s: Seq<char>, i: int, first: bool) -> Option<(Seq<Seq<char>>, int)>
    decreases s.len() - i,
    via parse_items_dec
{
    let j = skip_ws(s, i);
    if i < 0 || j >= s.len() {
        None
    } else if s[j] == ']' {
        Some((Seq::empty(), j + 1))
    } else {
        let j2 = if first {
            j
        } else if s[j] == ',' {
            skip_ws(s, j + 1)
        } else {
            -1
        };
        if j2 < 0 || j2 >= s.len() || s[j2] != '"' {
            None
        } else {
            match parse_str_body(s, j2 + 1) {
                None => None,
                Some((k, j3)) => match parse_items(s, j3, false) {
                    None => None,
                    Some((ks, j4)) => Some((seq![k] + ks, j4)),
                },
            }
        }
    }
}

#[via_fn]
proof fn parse_items_dec(s: Seq<char>, i: int, first: bool) {
    let j = skip_ws(s, i);
    if 0 <= i && j < s.len() && s[j] != ']' {
        lemma_skip_ws(s, i);
        let j2 = if first {
            j
        } else if s[j] == ',' {
            skip_ws(s, j + 1)
        } else {
            -1
        };
        if !first && s[j] == ',' && j + 1 <= s.len() {
            lemma_skip_ws(s, j + 1);
        }
        if 0 <= j2 && j2 < s.len() && s[j2] == '"' {
            if parse_str_body(s, j2 + 1) is Some {
                lemma_parse_str_body_advances(s, j2 + 1);
            }
        }
    }
}

/// The whole history document: optional whitespace around `{`, the
/// `"history"` key, `:`, the array of keys, `}`, and nothing after it.
pub open spec fn parse_doc(s: Seq<char>) -> Option<Seq<Seq<char>>> {
    let i0 = skip_ws(s, 0);
    if i0 >= s.len() || s[i0] != '{' {
        None
    } else {
        let i1 = skip_ws(s, i0 + 1);
        if i1 + 9 > s.len() || s.subrange(i1, i1 + 9) != seq![
            '"',
            'h',
            'i',
            's',
            't',
            'o',
            'r',
            'y',
            '"',
        ] {
            None
        } else {
            let i2 = skip_ws(s, i1 + 9);
            if i2 >= s.len() || s[i2] != ':' {
                None
            } else {
                let i3 = skip_ws(s, i2 + 1);
                if i3 >= s.len() || s[i3] != '[' {
                    None
                } else {
                    match parse_items(s, i3 + 1, true) {
                        None => None,
                        Some((ks, j)) => {
                            let j2 = skip_ws(s, j);
                            if j2 >= s.len() || s[j2] != '}' {
                                None
                            } else if skip_ws(s, j2 + 1) == s.len() {
                                Some(ks)
                            } else {
                                None
                            }
                        },
                    }
                }
            }
        }
    }
}

/// Relies on `char::from_u32`: every value below the surrogate range or
/// between it and the character maximum is `Some` character, the one with
/// that value.
#[verifier::external_body]
fn char_from_u32(v: u32) -> (c: char)
    requires
        v < 0xd800 || (0xe000 <= v && v < 0x110000),
    ensures
        c == v as char,
{
    char::from_u32(v).unwrap()
}

/// The first position at or after `i` without whitespace.
fn skip_ws_exec(s: &str, i: usize) -> (r: usize)
    requires
        i <= s@.len(),
    ensures
        r as int == skip_ws(s@, i as int),
        i <= r <= s@.len(),
    decreases s@.len() - i,
{
    proof {
        lemma_skip_ws(s@, i as int);
    }
    if i < s.unicode_len() {
        let c = s.get_char(i);
        if c == ' ' || c == '\n' || c == '\r' || c == '\t' {
            return skip_ws_exec(s, i + 1);
        }
    }
    i
}

/// The value of a hexadecimal digit, or `-1` for any other character.
fn hex_val_exec(c: char) -> (v: i32)
    ensures
        v as int == hex_val(c),
{
    if c == '0' {
        0
    } else if c == '1' {
        1
    } else if c == '2' {
        2
    } else if c == '3' {
        3
    } else if c == '4' {
        4
    } else if c == '5' {
        5
    } else if c == '6' {
        6
    } else if c == '7' {
        7
    } else if c == '8' {
        8
    } else if c == '9' {
        9
    } else if c == 'a' || c == 'A' {
        10
    } else if c == 'b' || c == 'B' {
        11
    } else if c == 'c' || c == 'C' {
        12
    } else if c == 'd' || c == 'D' {
        13
    } else if c == 'e' || c == 'E' {
        14
    } else if c == 'f' || c == 'F' {
        15
    } else {
        -1
    }
}

/// Prepends a decoded character to a parsed string-body result.
fn prepend_parsed(c: char, r: Option<(String, usize)>) -> (p: Option<(String, usize)>)
    ensures
        p is Some <==> r is Some,
        p matches Some(pp) ==> (r matches Some(rr) && pp.0@ == seq![c] + rr.0@ && pp.1 == rr.1),
{
    match r {
        None => None,
        Some((t, j)) => {
            let mut w = String::new();
            push_char(&mut w, c);
            w.append(t.as_str());
            proof {
                assert(w@ =~= seq![c] + t@);
            }
            Some((w, j))
        },
    }
}

/// Decodes the body of a JSON string from position `i`, as
/// `parse_str_body` describes.
fn parse_str_body_exec(s: &str, i: usize) -> (r: Option<(String, usize)>)
    requires
        i <= s@.len(),
    ensures
        r is Some <==> parse_str_body(s@, i as int) is Some,
        r matches Some(p) ==> parse_str_body(s@, i as int) == Some((p.0@, p.1 as int)),
    decreases s@.len() - i,
{
    let n = s.unicode_len();
    if i >= n {
        return None;
    }
    let c = s.get_char(i);
    if c == '"' {
        return Some((String::new(), i + 1));
    }
    if c == '\\' {
        if i + 1 >= n {
            return None;
        }
        let e = s.get_char(i + 1);
        if e == '"' || e == '\\' || e == '/' {
            prepend_parsed(e, parse_str_body_exec(s, i + 2))
        } else if e == 'n' {
            prepend_parsed('\n', parse_str_body_exec(s, i + 2))
        } else if e == 'r' {
            prepend_parsed('\r', parse_str_body_exec(s, i + 2))
        } else if e == 't' {
            prepend_parsed('\t', parse_str_body_exec(s, i + 2))
        } else if e == 'b' {
            prepend_parsed('\u{8}', parse_str_body_exec(s, i + 2))
        } else if e == 'f' {
            prepend_parsed('\u{c}', parse_str_body_exec(s, i + 2))
        } else if e == 'u' {
            if n - i < 6 {
                return None;
            }
            let h0 = hex_val_exec(s.get_char(i + 2));
            let h1 = hex_val_exec(s.get_char(i + 3));
            let h2 = hex_val_exec(s.get_char(i + 4));
            let h3 = hex_val_exec(s.get_char(i + 5));
            if h0 < 0 || h1 < 0 || h2 < 0 || h3 < 0 {
                return None;
            }
            let v: u32 = (h0 as u32) * 4096 + (h1 as u32) * 256 + (h2 as u32) * 16 + (h3 as u32);
            if v < 0xd800 || v >= 0xe000 {
                let ch = char_from_u32(v);
                prepend_parsed(ch, parse_str_body_exec(s, i + 6))
            } else {
                None
            }
        } else {
            None
        }
    } else {
        prepend_parsed(c, parse_str_body_exec(s, i + 1))
    }
}

/// Decodes the elements of the key array from position `i`, as
/// `parse_items` describes.
fn parse_items_exec(s: &str, i: usize, first: bool) -> (r: Option<(Vec<String>, usize)>)
    requires
        i <= s@.len(),
    ensures
        r is Some <==> parse_items(s@, i as int, first) is Some,
        r matches Some(p) ==> parse_items(s@, i as int, first) == Some((
            seq_views(p.0@),
            p.1 as int,
        )) && p.1 <= s@.len(),
    decreases s@.len() - i,
{
    let n = s.unicode_len();
    let j = skip_ws_exec(s, i);
    if j >= n {
        return None;
    }
    let cj = s.get_char(j);
    if cj == ']' {
        let v: Vec<String> = Vec::new();
        proof {
            assert(seq_views(v@) =~= Seq::<Seq<char>>::empty());
        }
        return Some((v, j + 1));
    }
    let j2: usize = if first {
        j
    } else if cj == ',' {
        skip_ws_exec(s, j + 1)
    } else {
        return None;
    };
    if j2 >= n {
        return None;
    }
    if s.get_char(j2) != '"' {
        return None;
    }
    match parse_str_body_exec(s, j2 + 1) {
        None => None,
        Some((k, j3)) => {
            proof {
                lemma_parse_str_body_advances(s@, j2 as int + 1);
            }
            match parse_items_exec(s, j3, false) {
                None => None,
                Some((ks, j4)) => {
                    let mut v = ks;
                    v.insert(0, k);
                    proof {
                        assert(seq_views(v@) =~= seq![k@] + seq_views(v@.drop_first()));
                    }
                    Some((v, j4))
                },
            }
        },
    }
}

/// Decodes the whole history document, as `parse_doc` describes.
fn parse_keys(s: &str) -> (r: Option<Vec<String>>)
    ensures
        r is Some <==> parse_doc(s@) is Some,
        r matches Some(p) ==> parse_doc(s@) == Some(seq_views(p@)),
{
    let n = s.unicode_len();
    let i0 = skip_ws_exec(s, 0);
    if i0 >= n {
        return None;
    }
    if s.get_char(i0) != '{' {
        return None;
    }
    let i1 = skip_ws_exec(s, i0 + 1);
    if n - i1 < 9 {
        return None;
    }
    if !crate::text::matches_at(s, i1, "\"history\"") {
        proof {
            reveal_strlit("\"history\"");
            assert(s@.subrange(i1 as int, i1 + 9) != seq![
                '"',
                'h',
                'i',
                's',
                't',
                'o',
                'r',
                'y',
                '"',
            ]) by {
                if s@.subrange(i1 as int, i1 + 9) == seq![
                    '"',
                    'h',
                    'i',
                    's',
                    't',
                    'o',
                    'r',
                    'y',
                    '"',
                ] {
                    assert(s@.skip(i1 as int).take(9) =~= s@.subrange(i1 as int, i1 + 9));
                    assert("\"history\""@ =~= seq!['"', 'h', 'i', 's', 't', 'o', 'r', 'y', '"']);
                }
            }
        }
        return None;
    }
    proof {
        reveal_strlit("\"history\"");
        assert("\"history\""@ =~= seq!['"', 'h', 'i', 's', 't', 'o', 'r', 'y', '"']);
        assert(s@.skip(i1 as int).take(9) =~= s@.subrange(i1 as int, i1 + 9));
    }
    let i2 = skip_ws_exec(s, i1 + 9);
    if i2 >= n {
        return None;
    }
    if s.get_char(i2) != ':' {
        return None;
    }
    let i3 = skip_ws_exec(s, i2 + 1);
    if i3 >= n {
        return None;
    }
    if s.get_char(i3) != '[' {
        return None;
    }
    match parse_items_exec(s, i3 + 1, true) {
        None => None,
        Some((ks, j)) => {
            let j2 = skip_ws_exec(s, j);
            if j2 >= n {
                return None;
            }
            if s.get_char(j2) != '}' {
                return None;
            }
            if skip_ws_exec(s, j2 + 1) == n {
                Some(ks)
            } else {
                None
            }
        },
    }
}

/// The set of keys in a decoded key list.
pub open spec fn key_set(ks: Seq<Seq<char>>) -> Set<Seq<char>> {
    Set::new(|k: Seq<char>| exists|i: int| 0 <= i < ks.len() && ks[i] == k)
}

/// Reads a history store back from the text of a history document: the
/// store holds exactly the keys the document lists. Text that is not a
/// history document yields `None`.
pub fn parse_history(s: &str) -> (r: Option<HistoryStore>)
    ensures
        r is Some <==> parse_doc(s@) is Some,
        r matches Some(h) ==> parse_doc(s@) matches Some(ks) && h@ == key_set(ks),
{
    match parse_keys(s) {
        None => None,
        Some(ks) => {
            let mut h = HistoryStore::new();
            let n = ks.len();
            let mut i: usize = 0;
            proof {
                assert(h@ =~= key_set(seq_views(ks@).take(0)));
            }
            while i < n
                invariant
                    i <= n,
                    n == ks@.len(),
                    h@ == key_set(seq_views(ks@).take(i as int)),
                decreases n - i,
            {
                h.add(ks[i].clone());
                proof {
                    let kv = seq_views(ks@);
                    assert forall|k: Seq<char>|
                        key_set(kv.take(i + 1)).contains(k) <==> key_set(kv.take(i as int)).insert(
                            kv[i as int],
                        ).contains(k) by {
                        if key_set(kv.take(i + 1)).contains(k) {
                            let x = choose|x: int|
                                0 <= x < i + 1 && #[trigger] kv.take(i + 1)[x] == k;
                            if x < i {
                                assert(kv.take(i as int)[x] == k);
                            }
                        }
                        if key_set(kv.take(i as int)).contains(k) {
                            let x = choose|x: int| 0 <= x < i && kv.take(i as int)[x] == k;
                            assert(kv.take(i + 1)[x] == k);
                        }
                        if k == kv[i as int] {
                            assert(kv.take(i + 1)[i as int] == k);
                        }
                    }
                    assert(h@ == key_set(kv.take(i as int)).insert(kv[i as int]));
                    assert(h@ =~= key_set(kv.take(i + 1)));
                }
                i = i + 1;
            }
            proof {
                assert(seq_views(ks@).take(n as int) =~= seq_views(ks@));
            }
            Some(h)
        },
    }
}


/// A hexadecimal digit reads back as its value.
proof fn lemma_hex_inverse(v: int)
    requires
        0 <= v < 16,
    ensures
        hex_val(hex_char(v)) == v,
{
}

/// A string body written by the encoder parses back to the key it encoded,
/// ending right after the closing quote.
#[verifier::rlimit(100)]
proof fn lemma_parse_enc_str(s: Seq<char>, i: int, k: Seq<char>)
    requires
        0 <= i,
        i + enc_str(k).len() + 1 <= s.len(),
        s.subrange(i, i + enc_str(k).len() + 1) == enc_str(k) + seq!['"'],
    ensures
        parse_str_body(s, i) == Some((k, i + enc_str(k).len() + 1)),
    decreases k.len(),
{
    let w = enc_str(k) + seq!['"'];
    assert forall|t: int| i <= t < i + w.len() implies s[t] == w[t - i] by {
        assert(s.subrange(i, i + enc_str(k).len() + 1)[t - i] == s[t]);
    }
    if k.len() == 0 {
        assert(s[i] == '"');
    } else {
        let c = k[0];
        let e = esc_char(c);
        let k2 = k.drop_first();
        assert(enc_str(k) == e + enc_str(k2));
        let i2 = i + e.len();
        assert(s.subrange(i2, i2 + enc_str(k2).len() + 1) =~= enc_str(k2) + seq!['"']) by {
            assert forall|t: int| 0 <= t < enc_str(k2).len() + 1 implies s.subrange(
                i2,
                i2 + enc_str(k2).len() + 1,
            )[t] == (enc_str(k2) + seq!['"'])[t] by {
                assert(s.subrange(i2, i2 + enc_str(k2).len() + 1)[t] == s[i2 + t]);
                assert(s[i2 + t] == w[(i2 + t) - i]);
                assert(w[(i2 + t) - i] == (enc_str(k2) + seq!['"'])[t]);
            }
        }
        lemma_parse_enc_str(s, i2, k2);
        if c == '"' {
            assert(s[i] == '\\' && s[i + 1] == '"');
            assert(parse_str_body(s, i) == cons_parsed('"', parse_str_body(s, i + 2)));
            assert(seq![c] + k2 =~= k);
        } else if c == '\\' {
            assert(s[i] == '\\' && s[i + 1] == '\\');
            assert(seq![c] + k2 =~= k);
        } else if (c as u32) < 0x20 {
            let u = c as u32;
            let hi = ((c as u32) / 16) as int;
            let lo = ((c as u32) % 16) as int;
            assert(s[i] == '\\' && s[i + 1] == 'u' && s[i + 2] == '0' && s[i + 3] == '0'
                && s[i + 4] == hex_char(hi) && s[i + 5] == hex_char(lo));
            lemma_hex_inverse(hi);
            lemma_hex_inverse(lo);
            let v = hex_val(s[i + 2]) * 4096 + hex_val(s[i + 3]) * 256 + hex_val(s[i + 4]) * 16
                + hex_val(s[i + 5]);
            assert(v == u as int);
            vstd::utf8::char_u32_cast(c, u);
            assert(v as char == c);
            assert(seq![c] + k2 =~= k);
        } else {
            assert(s[i] == c);
            assert(seq![c] + k2 =~= k);
        }
    }
}

/// The items written by the encoder from position `idx` on parse back to
/// exactly those keys, ending right before the closing brace.
#[verifier::rlimit(100)]
proof fn lemma_parse_enc_items(s: Seq<char>, pos: int, keys: Seq<Seq<char>>, idx: int)
    requires
        0 <= pos <= s.len(),
        0 <= idx <= keys.len(),
        s.skip(pos) == enc_items(keys, idx) + seq![']', '}'],
    ensures
        parse_items(s, pos, idx == 0) == Some((keys.skip(idx), s.len() - 1)),
    decreases keys.len() - idx,
{
    let w = enc_items(keys, idx) + seq![']', '}'];
    assert forall|t: int| pos <= t < pos + w.len() implies s[t] == w[t - pos] by {
        assert(s.skip(pos)[t - pos] == s[t]);
    }
    assert(s.len() == pos + w.len());
    if idx == keys.len() {
        assert(s[pos] == ']');
        assert(skip_ws(s, pos) == pos);
        assert(keys.skip(idx) =~= Seq::<Seq<char>>::empty());
        assert(parse_items(s, pos, idx == 0) == Some((Seq::<Seq<char>>::empty(), pos + 1)));
    } else {
        let k = keys[idx];
        let lead = if idx > 0 { 1int } else { 0int };
        assert(enc_items(keys, idx) == (if idx > 0 {
            seq![',']
        } else {
            Seq::<char>::empty()
        }) + seq!['"'] + enc_str(k) + seq!['"'] + enc_items(keys, idx + 1));
        let j2 = pos + lead;
        assert(s[j2] == '"');
        if idx > 0 {
            assert(s[pos] == ',');
            assert(skip_ws(s, pos) == pos);
            assert(s[pos + 1] == '"');
            assert(skip_ws(s, pos + 1) == pos + 1);
        } else {
            assert(skip_ws(s, pos) == pos);
        }
        let bstart = j2 + 1;
        let blen = enc_str(k).len();
        assert(s.subrange(bstart, bstart + blen + 1) =~= enc_str(k) + seq!['"']) by {
            assert forall|t: int| 0 <= t < blen + 1 implies s.subrange(
                bstart,
                bstart + blen + 1,
            )[t] == (enc_str(k) + seq!['"'])[t] by {
                assert(s.subrange(bstart, bstart + blen + 1)[t] == s[bstart + t]);
                assert(s[bstart + t] == w[(bstart + t) - pos]);
                assert(w[(bstart + t) - pos] == (enc_str(k) + seq!['"'])[t]);
            }
        }
        lemma_parse_enc_str(s, bstart, k);
        let j3 = bstart + blen + 1;
        assert(s.skip(j3) =~= enc_items(keys, idx + 1) + seq![']', '}']) by {
            assert forall|t: int| 0 <= t < s.len() - j3 implies s.skip(j3)[t] == (enc_items(
                keys,
                idx + 1,
            ) + seq![']', '}'])[t] by {
                assert(s.skip(j3)[t] == s[j3 + t]);
                assert(s[j3 + t] == w[(j3 + t) - pos]);
                assert(w[(j3 + t) - pos] == (enc_items(keys, idx + 1) + seq![']', '}'])[t]);
            }
        }
        lemma_parse_enc_items(s, j3, keys, idx + 1);
        assert(parse_items(s, j3, false) == Some((keys.skip(idx + 1), s.len() - 1)));
        assert(seq![k] + keys.skip(idx + 1) =~= keys.skip(idx));
        assert(s[pos] != ']');
    }
}

/// Reading back the document written for a key list yields exactly that
/// list: the codec round-trips.
pub proof fn lemma_codec_round_trip(keys: Seq<Seq<char>>)
    ensures
        parse_doc(enc_doc(keys)) == Some(keys),
{
    let s = enc_doc(keys);
    let head = doc_head();
    assert forall|t: int| 0 <= t < 12 implies s[t] == head[t] by {
        assert(s[t] == (doc_head() + enc_items(keys, 0) + doc_tail())[t]);
    }
    assert(s.len() >= 14);
    assert(skip_ws(s, 0) == 0);
    assert(s[0] == '{');
    assert(skip_ws(s, 1) == 1);
    assert(s.subrange(1, 10) =~= seq!['"', 'h', 'i', 's', 't', 'o', 'r', 'y', '"']);
    assert(skip_ws(s, 10) == 10);
    assert(s[10] == ':');
    assert(skip_ws(s, 11) == 11);
    assert(s[11] == '[');
    assert(s.skip(12) =~= enc_items(keys, 0) + seq![']', '}']);
    lemma_parse_enc_items(s, 12, keys, 0);
    assert(parse_items(s, 12, true) == Some((keys.skip(0), s.len() - 1)));
    assert(s[s.len() - 1] == '}') by {
        assert(s.skip(12)[s.len() - 13] == s[s.len() - 1]);
        assert((enc_items(keys, 0) + seq![']', '}'])[s.len() - 13] == '}');
    }
    assert(skip_ws(s, s.len() - 1) == s.len() - 1);
    assert(skip_ws(s, s.len() as int) == s.len());
    assert(keys.skip(0) =~= keys);
}

/// Writes the history document for the store's keys: reading the result
/// back yields exactly the stored key set.
pub fn encode_history(data: &HistoryStore) -> (r: String)
    ensures
        parse_doc(r@) matches Some(ks) && key_set(ks) == data@,
{
    let ks = data.keys();
    let out = encode_keys(ks);
    proof {
        lemma_codec_round_trip(seq_views(ks@));
        assert forall|k: Seq<char>| key_set(seq_views(ks@)).contains(k) <==> data@.contains(k) by {
            if key_set(seq_views(ks@)).contains(k) {
                let x = choose|x: int|
                    0 <= x < seq_views(ks@).len() && #[trigger] seq_views(ks@)[x] == k;
                assert(ks@[x]@ == k);
            }
            if data@.contains(k) {
                let x = choose|x: int| 0 <= x < ks@.len() && #[trigger] ks@[x]@ == k;
                assert(seq_views(ks@)[x] == k);
            }
        }
        assert(key_set(seq_views(ks@)) =~= data@);
    }
    out
}

} // verus!