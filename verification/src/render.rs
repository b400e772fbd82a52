//! The renderer: a pure function from navigation state and terminal size to
//! the sequence of draw operations that paint one full frame — border,
//! title bar, scrollable entry list with selection marker and colors, and
//! the optional help panel.
//!
//! Drawing is position-addressed; an operation whose position cannot be
//! addressed (a negative coordinate, or one beyond the 16-bit range of the
//! terminal) is silently dropped rather than failing the frame.

use crate::listing::EntryV;
use crate::nav::NavState;
use crate::seq_views;
use vstd::prelude::*;
use vstd::string::*;

verus! {

/// The colors a frame uses.
#[derive(Clone, Copy, Debug, PartialEq, Eq, Structural)]
pub enum Color {
    Red,
    Cyan,
    Green,
    White,
}

/// One drawing operation: clear the screen, paint one cell with a glyph,
/// or print a piece of text at a position.
pub enum DrawOp {
    Clear,
    Cell { x: u16, y: u16, glyph: char, color: Color },
    Text { x: u16, y: u16, text: String, color: Color },
}

/// The view of a drawing operation.
#[verifier::ext_equal]
pub enum DrawOpV {
    Clear,
    Cell { x: u16, y: u16, glyph: char, color: Color },
    Text { x: u16, y: u16, text: Seq<char>, color: Color },
}

impl View for DrawOp {
    type V = DrawOpV;

    open spec fn view(&self) -> DrawOpV {
        match self {
            DrawOp::Clear => DrawOpV::Clear,
            DrawOp::Cell { x, y, glyph, color } => DrawOpV::Cell {
                x: *x,
                y: *y,
                glyph: *glyph,
                color: *color,
            },
            DrawOp::Text { x, y, text, color } => DrawOpV::Text {
                x: *x,
                y: *y,
                text: text@,
                color: *color,
            },
        }
    }
}

/// The smaller of two values.
pub open spec fn min_i(a: int, b: int) -> int {
    if a <= b {
        a
    } else {
        b
    }
}

/// The effective frame width for a terminal `tw` columns wide: capped at
/// 400.
pub open spec fn eff_w(tw: int) -> int {
    min_i(tw, 400)
}

/// The effective frame height for a terminal `th` rows tall: capped at 20.
pub open spec fn eff_h(th: int) -> int {
    min_i(th, 20)
}

/// Text truncated to a width budget: no budget leaves it whole; text over
/// a budget wider than three ends in an ellipsis; a narrower budget cuts
/// hard.
pub open spec fn trunc_spec(t: Seq<char>, length: int) -> Seq<char> {
    if length <= 0 {
        t
    } else if t.len() > length && length > 3 {
        t.take(length - 3) + seq!['.', '.', '.']
    } else if t.len() > length {
        t.take(length)
    } else {
        t
    }
}

/// The operations one text draw adds: one `Text` operation, or none when
/// the position cannot be addressed.
pub open spec fn text_ops(x: int, y: int, t: Seq<char>, length: int, color: Color) -> Seq<
    DrawOpV,
> {
    if 0 <= x && x <= 0xffff && 0 <= y && y <= 0xffff {
        seq![DrawOpV::Text { x: x as u16, y: y as u16, text: trunc_spec(t, length), color }]
    } else {
        Seq::empty()
    }
}

/// Whether `(x, y)` lies on the border of the rectangle.
pub open spec fn on_border(x: int, y: int, x1: int, y1: int, x2: int, y2: int) -> bool {
    x == x1 || x == x2 || y == y1 || y == y2
}

/// The border glyph at `(x, y)`: a corner, a vertical edge or a horizontal
/// edge.
pub open spec fn border_glyph(x: int, y: int, x1: int, y1: int, x2: int, y2: int) -> char {
    if x == x1 && y == y1 {
        '\u{250c}'
    } else if x == x1 && y == y2 {
        '\u{2514}'
    } else if x == x2 && y == y1 {
        '\u{2510}'
    } else if x == x2 && y == y2 {
        '\u{2518}'
    } else if x == x1 || x == x2 {
        '\u{2502}'
    } else {
        '\u{2500}'
    }
}

/// The border cells of one column of a rectangle, from `y` down to `y2`.
pub open spec fn rect_col_ops(
    x: int,
    y: int,
    x1: int,
    y1: int,
    x2: int,
    y2: int,
    color: Color,
) -> Seq<DrawOpV>
    decreases y2 - y + 1,
{
    if y > y2 {
        Seq::empty()
    } else {
        let rest = rect_col_ops(x, y + 1, x1, y1, x2, y2, color);
        if on_border(x, y, x1, y1, x2, y2) {
            seq![
                DrawOpV::Cell {
                    x: x as u16,
                    y: y as u16,
                    glyph: border_glyph(x, y, x1, y1, x2, y2),
                    color,
                },
            ] + rest
        } else {
            rest
        }
    }
}

/// The border cells of the columns from `x` to `x2`.
pub open spec fn rect_cols_ops(
    x: int,
    x1: int,
    y1: int,
    x2: int,
    y2: int,
    color: Color,
) -> Seq<DrawOpV>
    decreases x2 - x + 1,
{
    if x > x2 {
        Seq::empty()
    } else {
        rect_col_ops(x, y1, x1, y1, x2, y2, color) + rect_cols_ops(x + 1, x1, y1, x2, y2, color)
    }
}

/// The operations one rectangle draw adds: its border cells, column by
/// column, or none for a degenerate rectangle.
pub open spec fn rect_ops(x1: int, y1: int, x2: int, y2: int, color: Color) -> Seq<DrawOpV> {
    if x1 < 0 || y1 < 0 || x1 > x2 || y1 > y2 {
        Seq::empty()
    } else {
        rect_cols_ops(x1, x1, y1, x2, y2, color)
    }
}

/// One filled column, from `y` down to `y2`.
pub open spec fn fill_col_ops(x: int, y: int, y2: int, c: char, color: Color) -> Seq<DrawOpV>
    decreases y2 - y + 1,
{
    if y > y2 {
        Seq::empty()
    } else {
        seq![DrawOpV::Cell { x: x as u16, y: y as u16, glyph: c, color }] + fill_col_ops(
            x,
            y + 1,
            y2,
            c,
            color,
        )
    }
}

/// The filled columns from `x` to `x2`.
pub open spec fn fill_cols_ops(x: int, y1: int, x2: int, y2: int, c: char, color: Color) -> Seq<
    DrawOpV,
>
    decreases x2 - x + 1,
{
    if x > x2 {
        Seq::empty()
    } else {
        fill_col_ops(x, y1, y2, c, color) + fill_cols_ops(x + 1, y1, x2, y2, c, color)
    }
}

/// The operations one fill adds: every cell of the rectangle painted with
/// `c`, or none for a degenerate rectangle.
pub open spec fn fill_ops(x1: int, y1: int, x2: int, y2: int, c: char, color: Color) -> Seq<
    DrawOpV,
> {
    if x1 < 0 || y1 < 0 || x1 > x2 || y1 > y2 {
        Seq::empty()
    } else {
        fill_cols_ops(x1, y1, x2, y2, c, color)
    }
}

/// Appends one text draw.
fn draw_text(ops: &mut Vec<DrawOp>, x: i64, y: i64, text: &str, length: i64, color: Color)
    ensures
        seq_views(final(ops)@) == seq_views(old(ops)@) + text_ops(
            x as int,
            y as int,
            text@,
            length as int,
            color,
        ),
{
    if x < 0 || y < 0 || x > 0xffff || y > 0xffff {
        proof {
            assert(seq_views(ops@) =~= seq_views(old(ops)@) + text_ops(
                x as int,
                y as int,
                text@,
                length as int,
                color,
            ));
        }
        return ;
    }
    let t = truncate_text(text, length);
    let ghost before = ops@;
    ops.push(DrawOp::Text { x: x as u16, y: y as u16, text: t, color });
    proof {
        assert(seq_views(ops@) =~= seq_views(before) + text_ops(
            x as int,
            y as int,
            text@,
            length as int,
            color,
        ));
    }
}

/// Truncates text to a width budget, as `trunc_spec` describes.
fn truncate_text(text: &str, length: i64) -> (r: String)
    ensures
        r@ == trunc_spec(text@, length as int),
{
    let n = text.unicode_len();
    if length <= 0 {
        return String::from_str(text);
    }
    if (n as u64) > (length as u64) {
        if length > 3 {
            let keep = (length - 3) as usize;
            let mut r = String::from_str(text.substring_char(0, keep));
            r.append("...");
            proof {
                reveal_strlit("...");
                assert("..."@ =~= seq!['.', '.', '.']);
                assert(r@ =~= trunc_spec(text@, length as int));
            }
            r
        } else {
            let keep = length as usize;
            String::from_str(text.substring_char(0, keep))
        }
    } else {
        String::from_str(text)
    }
}

/// Appends one rectangle border draw.
fn draw_rect(ops: &mut Vec<DrawOp>, x1: i64, y1: i64, x2: i64, y2: i64, color: Color)
    requires
        x2 <= 0xffff,
        y2 <= 0xffff,
    ensures
        seq_views(final(ops)@) == seq_views(old(ops)@) + rect_ops(
            x1 as int,
            y1 as int,
            x2 as int,
            y2 as int,
            color,
        ),
{
    if x1 < 0 || y1 < 0 || x1 > x2 || y1 > y2 {
        proof {
            assert(seq_views(ops@) =~= seq_views(old(ops)@) + rect_ops(
                x1 as int,
                y1 as int,
                x2 as int,
                y2 as int,
                color,
            ));
        }
        return ;
    }
    let ghost base = seq_views(old(ops)@);
    let mut x = x1;
    while x <= x2
        invariant
            x1 <= x <= x2 + 1,
            seq_views(ops@) + rect_cols_ops(x as int, x1 as int, y1 as int, x2 as int, y2 as int, color)
                == base + rect_cols_ops(x1 as int, x1 as int, y1 as int, x2 as int, y2 as int, color),
        decreases x2 - x + 1,
    {
        let ghost col_base = seq_views(ops@);
        let mut y = y1;
        while y <= y2
            invariant
                y1 <= y <= y2 + 1,
                x1 <= x <= x2,
                seq_views(ops@) + rect_col_ops(x as int, y as int, x1 as int, y1 as int, x2 as int, y2 as int, color)
                    == col_base + rect_col_ops(x as int, y1 as int, x1 as int, y1 as int, x2 as int, y2 as int, color),
            decreases y2 - y + 1,
        {
            if x == x1 || x == x2 || y == y1 || y == y2 {
                let glyph = border_glyph_exec(x, y, x1, y1, x2, y2);
                let ghost before = ops@;
                ops.push(DrawOp::Cell { x: x as u16, y: y as u16, glyph, color });
                proof {
                    assert(seq_views(ops@) =~= seq_views(before) + seq![
                        DrawOpV::Cell {
                            x: x as u16,
                            y: y as u16,
                            glyph: border_glyph(
                                x as int,
                                y as int,
                                x1 as int,
                                y1 as int,
                                x2 as int,
                                y2 as int,
                            ),
                            color,
                        },
                    ]);
                    assert(seq_views(before) + rect_col_ops(x as int, y as int, x1 as int, y1 as int, x2 as int, y2 as int, color)
                        =~= seq_views(ops@) + rect_col_ops(x as int, y as int + 1, x1 as int, y1 as int, x2 as int, y2 as int, color));
                }
            }
            y = y + 1;
        }
        x = x + 1;
    }
    proof {
        assert(seq_views(ops@) =~= base + rect_ops(x1 as int, y1 as int, x2 as int, y2 as int, color));
    }
}

/// The border glyph at `(x, y)`, as `border_glyph` describes.
fn border_glyph_exec(x: i64, y: i64, x1: i64, y1: i64, x2: i64, y2: i64) -> (c: char)
    ensures
        c == border_glyph(x as int, y as int, x1 as int, y1 as int, x2 as int, y2 as int),
{
    if x == x1 && y == y1 {
        '\u{250c}'
    } else if x == x1 && y == y2 {
        '\u{2514}'
    } else if x == x2 && y == y1 {
        '\u{2510}'
    } else if x == x2 && y == y2 {
        '\u{2518}'
    } else if x == x1 || x == x2 {
        '\u{2502}'
    } else {
        '\u{2500}'
    }
}

/// Appends one fill draw.
fn draw_fill(ops: &mut Vec<DrawOp>, x1: i64, y1: i64, x2: i64, y2: i64, c: char, color: Color)
    requires
        x2 <= 0xffff,
        y2 <= 0xffff,
    ensures
        seq_views(final(ops)@) == seq_views(old(ops)@) + fill_ops(
            x1 as int,
            y1 as int,
            x2 as int,
            y2 as int,
            c,
            color,
        ),
{
    if x1 < 0 || y1 < 0 || x1 > x2 || y1 > y2 {
        proof {
            assert(seq_views(ops@) =~= seq_views(old(ops)@) + fill_ops(
                x1 as int,
                y1 as int,
                x2 as int,
                y2 as int,
                c,
                color,
            ));
        }
        return ;
    }
    let ghost base = seq_views(old(ops)@);
    let mut x = x1;
    while x <= x2
        invariant
            x1 <= x <= x2 + 1,
            seq_views(ops@) + fill_cols_ops(x as int, y1 as int, x2 as int, y2 as int, c, color)
                == base + fill_cols_ops(x1 as int, y1 as int, x2 as int, y2 as int, c, color),
        decreases x2 - x + 1,
    {
        let ghost col_base = seq_views(ops@);
        let mut y = y1;
        while y <= y2
            invariant
                y1 <= y <= y2 + 1,
                x1 <= x <= x2,
                seq_views(ops@) + fill_col_ops(x as int, y as int, y2 as int, c, color)
                    == col_base + fill_col_ops(x as int, y1 as int, y2 as int, c, color),
            decreases y2 - y + 1,
        {
            let ghost before = ops@;
            ops.push(DrawOp::Cell { x: x as u16, y: y as u16, glyph: c, color });
            proof {
                assert(seq_views(ops@) =~= seq_views(before) + seq![
                    DrawOpV::Cell { x: x as u16, y: y as u16, glyph: c, color },
                ]);
                assert(seq_views(before) + fill_col_ops(x as int, y as int, y2 as int, c, color)
                    =~= seq_views(ops@) + fill_col_ops(x as int, y as int + 1, y2 as int, c, color));
            }
            y = y + 1;
        }
        x = x + 1;
    }
    proof {
        assert(seq_views(ops@) =~= base + fill_ops(x1 as int, y1 as int, x2 as int, y2 as int, c, color));
    }
}

/// Concatenation of draw operations is associative.
proof fn lemma_assoc(a: Seq<DrawOpV>, b: Seq<DrawOpV>, c: Seq<DrawOpV>)
    ensures
        (a + b) + c == a + (b + c),
{
    assert((a + b) + c =~= a + (b + c));
}

/// The smaller of two values.
fn min64(a: i64, b: i64) -> (r: i64)
    ensures
        r == min_i(a as int, b as int),
{
    if a <= b {
        a
    } else {
        b
    }
}

/// The color an entry is shown in: directories, watched files and
/// unwatched files each get their own.
pub open spec fn entry_color(e: EntryV) -> Color {
    if !e.is_file {
        Color::Cyan
    } else if e.is_watched {
        Color::Green
    } else {
        Color::White
    }
}

/// The text an entry row shows: the display name, with a trailing slash on
/// directories.
pub open spec fn entry_text(e: EntryV) -> Seq<char> {
    if e.is_file {
        e.display_name
    } else {
        e.display_name + "/"@
    }
}

/// The vertical shift that keeps the selected row visible: rows start one
/// below the top border, and a selection past the bottom band pins itself
/// to the last visible row.
pub open spec fn scroll_offset(selected: int, h: int) -> int {
    if selected >= h - 2 {
        h - selected - 2
    } else {
        1
    }
}

/// The operations one entry row adds: inside the visible band, a selection
/// marker when the row is selected, then the entry text with its color;
/// outside the band, nothing.
pub open spec fn row_ops(
    e: EntryV,
    i: int,
    selected: int,
    offset: int,
    w: int,
    h: int,
    show_help: bool,
) -> Seq<DrawOpV> {
    let y = i + offset;
    let max_len = w - (if show_help {
        46int
    } else {
        6int
    });
    if 0 < y && y < h - 1 {
        (if selected == i {
            text_ops(2, y, ">"@, 0, Color::White)
        } else {
            Seq::empty()
        }) + text_ops(4, y, entry_text(e), max_len, entry_color(e))
    } else {
        Seq::empty()
    }
}

/// The operations of the entry rows from `i` on, in list order.
pub open spec fn rows_ops(
    entries: Seq<EntryV>,
    i: int,
    selected: int,
    offset: int,
    w: int,
    h: int,
    show_help: bool,
) -> Seq<DrawOpV>
    decreases entries.len() - i,
{
    if 0 <= i < entries.len() {
        row_ops(entries[i], i, selected, offset, w, h, show_help) + rows_ops(
            entries,
            i + 1,
            selected,
            offset,
            w,
            h,
            show_help,
        )
    } else {
        Seq::empty()
    }
}

/// The title bar text: the current path between spaces, with a trailing
/// separator unless the path is the root.
pub open spec fn title_text(path: Seq<char>) -> Seq<char> {
    " "@ + path + (if path == "/"@ {
        Seq::<char>::empty()
    } else {
        "/"@
    }) + " "@
}

/// The operations of the help panel: a filled, bordered box in the
/// top-right region listing the keybindings, clipped to the frame.
pub open spec fn help_ops(w: int, h: int) -> Seq<DrawOpV> {
    fill_ops(w - 41, 1, w - 3, h - 2, ' ', Color::Cyan) + rect_ops(
        w - 41,
        1,
        w - 3,
        h - 2,
        Color::Cyan,
    ) + text_ops(w - 40, 1, " help "@, 0, Color::Cyan) + text_ops(
        w - 39,
        min_i(2, h - 3),
        "[wasd/arrows]            navigation"@,
        0,
        Color::Cyan,
    ) + text_ops(w - 39, min_i(3, h - 3), "[e/enter]                 play file"@, 0, Color::Cyan)
        + text_ops(w - 39, min_i(4, h - 3), "[q]                            quit"@, 0, Color::Cyan)
        + text_ops(w - 39, min_i(5, h - 3), "[f]                  toggle watched"@, 0, Color::Cyan)
        + text_ops(w - 39, min_i(6, h - 3), "[g]                   toggle filter"@, 0, Color::Cyan)
        + text_ops(w - 39, min_i(7, h - 3), "[h]                     toggle help"@, 0, Color::Cyan)
        + text_ops(w - 39, h - 3, "[*]                     mlib v0.1.0"@, 0, Color::Cyan)
}

/// One full frame: clear, border, title bar, help hint, the entry rows,
/// and the help panel when it is open.
pub open spec fn frame_ops(
    path: Seq<char>,
    entries: Seq<EntryV>,
    selected: int,
    show_help: bool,
    w: int,
    h: int,
) -> Seq<DrawOpV> {
    seq![DrawOpV::Clear] + rect_ops(0, 0, w - 1, h - 1, Color::Red) + text_ops(
        1,
        0,
        title_text(path),
        w - 2,
        Color::Cyan,
    ) + text_ops(w - 9, h - 1, " [h]elp "@, 0, Color::Cyan) + rows_ops(
        entries,
        0,
        selected,
        scroll_offset(selected, h),
        w,
        h,
        show_help,
    ) + (if show_help {
        help_ops(w, h)
    } else {
        Seq::empty()
    })
}

/// Appends the help panel.
fn draw_help(ops: &mut Vec<DrawOp>, w: i64, h: i64)
    requires
        0 <= w <= 0xffff,
        0 <= h <= 0xffff,
    ensures
        seq_views(final(ops)@) == seq_views(old(ops)@) + help_ops(w as int, h as int),
{
    let ghost base = seq_views(old(ops)@);
    let ghost p1 = fill_ops(w - 41, 1, w - 3, h - 2, ' ', Color::Cyan);
    let ghost p2 = rect_ops(w - 41, 1, w - 3, h - 2, Color::Cyan);
    let ghost p3 = text_ops(w - 40, 1, " help "@, 0, Color::Cyan);
    let ghost p4 = text_ops(
        w - 39,
        min_i(2, h - 3),
        "[wasd/arrows]            navigation"@,
        0,
        Color::Cyan,
    );
    let ghost p5 = text_ops(
        w - 39,
        min_i(3, h - 3),
        "[e/enter]                 play file"@,
        0,
        Color::Cyan,
    );
    let ghost p6 = text_ops(
        w - 39,
        min_i(4, h - 3),
        "[q]                            quit"@,
        0,
        Color::Cyan,
    );
    let ghost p7 = text_ops(
        w - 39,
        min_i(5, h - 3),
        "[f]                  toggle watched"@,
        0,
        Color::Cyan,
    );
    let ghost p8 = text_ops(
        w - 39,
        min_i(6, h - 3),
        "[g]                   toggle filter"@,
        0,
        Color::Cyan,
    );
    let ghost p9 = text_ops(
        w - 39,
        min_i(7, h - 3),
        "[h]                     toggle help"@,
        0,
        Color::Cyan,
    );
    let ghost p10 = text_ops(w - 39, h - 3, "[*]                     mlib v0.1.0"@, 0, Color::Cyan);
    draw_fill(ops, w - 41, 1, w - 3, h - 2, ' ', Color::Cyan);
    draw_rect(ops, w - 41, 1, w - 3, h - 2, Color::Cyan);
    proof {
        lemma_assoc(base, p1, p2);
    }
    draw_text(ops, w - 40, 1, " help ", 0, Color::Cyan);
    proof {
        lemma_assoc(base, p1 + p2, p3);
    }
    draw_text(ops, w - 39, min64(2, h - 3), "[wasd/arrows]            navigation", 0, Color::Cyan);
    proof {
        lemma_assoc(base, p1 + p2 + p3, p4);
    }
    draw_text(ops, w - 39, min64(3, h - 3), "[e/enter]                 play file", 0, Color::Cyan);
    proof {
        lemma_assoc(base, p1 + p2 + p3 + p4, p5);
    }
    draw_text(ops, w - 39, min64(4, h - 3), "[q]                            quit", 0, Color::Cyan);
    proof {
        lemma_assoc(base, p1 + p2 + p3 + p4 + p5, p6);
    }
    draw_text(ops, w - 39, min64(5, h - 3), "[f]                  toggle watched", 0, Color::Cyan);
    proof {
        lemma_assoc(base, p1 + p2 + p3 + p4 + p5 + p6, p7);
    }
    draw_text(ops, w - 39, min64(6, h - 3), "[g]                   toggle filter", 0, Color::Cyan);
    proof {
        lemma_assoc(base, p1 + p2 + p3 + p4 + p5 + p6 + p7, p8);
    }
    draw_text(ops, w - 39, min64(7, h - 3), "[h]                     toggle help", 0, Color::Cyan);
    proof {
        lemma_assoc(base, p1 + p2 + p3 + p4 + p5 + p6 + p7 + p8, p9);
    }
    draw_text(ops, w - 39, h - 3, "[*]                     mlib v0.1.0", 0, Color::Cyan);
    proof {
        lemma_assoc(base, p1 + p2 + p3 + p4 + p5 + p6 + p7 + p8 + p9, p10);
    }
}

/// Renders one full frame of the interface for a terminal of `tw` columns
/// by `th` rows. The same state always yields the same operations.
pub fn render(state: &NavState, tw: u16, th: u16) -> (ops: Vec<DrawOp>)
    requires
        state.wf(),
    ensures
        seq_views(ops@) == frame_ops(
            state.current_path@,
            seq_views(state.entries@),
            state.selected as int,
            state.show_help,
            eff_w(tw as int),
            eff_h(th as int),
        ),
{
    let w: i64 = if (tw as i64) <= 400 {
        tw as i64
    } else {
        400
    };
    let h: i64 = if (th as i64) <= 20 {
        th as i64
    } else {
        20
    };
    let mut ops: Vec<DrawOp> = Vec::new();
    ops.push(DrawOp::Clear);
    proof {
        assert(seq_views(ops@) =~= seq![DrawOpV::Clear]);
    }
    draw_rect(&mut ops, 0, 0, w - 1, h - 1, Color::Red);

    let mut title = String::from_str(" ");
    title.append(state.current_path.as_str());
    let root = String::from_str("/");
    let at_root = state.current_path == root;
    if !at_root {
        title.append("/");
    }
    title.append(" ");
    proof {
        assert(title@ =~= title_text(state.current_path@));
    }
    draw_text(&mut ops, 1, 0, title.as_str(), w - 2, Color::Cyan);
    draw_text(&mut ops, w - 9, h - 1, " [h]elp ", 0, Color::Cyan);

    let sel: i64 = state.selected as i64;
    let offset: i64 = if sel >= h - 2 {
        h - sel - 2
    } else {
        1
    };
    let max_len: i64 = w - (if state.show_help {
        46
    } else {
        6
    });
    let ghost ev = seq_views(state.entries@);
    let ghost rows_base = seq_views(ops@);
    let n = state.entries.len();
    let mut i: usize = 0;
    while i < n
        invariant
            i <= n,
            seq_views(ops@) + rows_ops(ev, i as int, sel as int, offset as int, w as int, h as int, state.show_help)
                == rows_base + rows_ops(ev, 0, sel as int, offset as int, w as int, h as int, state.show_help),
        decreases n - i,
    {
        let ghost before_row = seq_views(ops@);
        let ghost rest = rows_ops(
            ev,
            i + 1,
            sel as int,
            offset as int,
            w as int,
            h as int,
            state.show_help,
        );
        let y: i64 = i as i64 + offset;
        if y > 0 && y < h - 1 {
            let ghost marker = if sel as int == i as int {
                text_ops(2, y as int, ">"@, 0, Color::White)
            } else {
                Seq::<DrawOpV>::empty()
            };
            if sel == i as i64 {
                draw_text(&mut ops, 2, y, ">", 0, Color::White);
            }
            let e = &state.entries[i];
            let shown = if e.is_file {
                e.display_name.clone()
            } else {
                e.display_name.clone().concat("/")
            };
            let color = if !e.is_file {
                Color::Cyan
            } else if e.is_watched {
                Color::Green
            } else {
                Color::White
            };
            draw_text(&mut ops, 4, y, shown.as_str(), max_len, color);
            proof {
                assert(shown@ == entry_text(ev[i as int]));
                assert(color == entry_color(ev[i as int]));
                let body = text_ops(
                    4,
                    y as int,
                    entry_text(ev[i as int]),
                    max_len as int,
                    entry_color(ev[i as int]),
                );
                assert(seq_views(ops@) == before_row + marker + body);
                assert(row_ops(ev[i as int], i as int, sel as int, offset as int, w as int, h as int, state.show_help)
                    == marker + body);
                lemma_assoc(before_row, marker, body);
                lemma_assoc(before_row, marker + body, rest);
            }
        } else {
            proof {
                assert(row_ops(ev[i as int], i as int, sel as int, offset as int, w as int, h as int, state.show_help)
                    =~= Seq::<DrawOpV>::empty());
                assert(seq_views(ops@) + (Seq::<DrawOpV>::empty() + rest) =~= seq_views(ops@) + rest);
            }
        }
        i = i + 1;
    }
    proof {
        assert(seq_views(ops@) + rows_ops(ev, n as int, sel as int, offset as int, w as int, h as int, state.show_help)
            =~= seq_views(ops@));
        assert(offset as int == scroll_offset(sel as int, h as int));
    }

    if state.show_help {
        draw_help(&mut ops, w, h);
    } else {
        proof {
            assert(seq_views(ops@) + Seq::<DrawOpV>::empty() =~= seq_views(ops@));
        }
    }
    ops
}

} // verus!
