//! Layout rules of the main screen.
use vstd::prelude::*;

use crate::text::{chars_of, dec_seq, display_width, push_str, repeat_seq, repeat_str, str_width, usize_string};

verus! {

/// Narrowest the side tree can be dragged to.
pub const TREE_MIN_WIDTH: u16 = 12;

/// Below this many columns the side tree hides itself.
pub const NARROW_THRESHOLD: u16 = 80;

/// Widest the side tree can be dragged to: never past half the screen (the text
/// is what matters), but never below the minimum either.
pub fn tree_max_width(total: u16) -> (r: u16)
    ensures
        r == vstd::math::max((total / 2) as int, TREE_MIN_WIDTH as int),
{
    let half = total / 2;
    if half > TREE_MIN_WIDTH { half } else { TREE_MIN_WIDTH }
}

/// Whether the terminal is too narrow for the side tree.
pub fn is_narrow(width: u16) -> (r: bool)
    ensures
        r == (width < NARROW_THRESHOLD),
{
    width < NARROW_THRESHOLD
}

/// Default width of the side tree.
pub const TREE_WIDTH: u16 = 24;

/// The row of the side tree shown on top: the highlight kept in the middle of the
/// `area_height - 2` inner rows (the border takes two), without scrolling past the end.
pub fn tree_scroll_top(area_height: u16, rows: usize, cursor: usize) -> (r: usize)
    ensures
        ({
            let inner: int = if area_height >= 2 { area_height - 2 } else { 0 };
            let up: int = if cursor >= inner / 2 { cursor - inner / 2 } else { 0 };
            let most: int = if rows >= inner { rows - inner } else { 0 };
            r == vstd::math::min(up, most)
        }),
{
    let inner: usize = if area_height >= 2 { (area_height - 2) as usize } else { 0 };
    let up = if cursor >= inner / 2 { cursor - inner / 2 } else { 0 };
    let most = if rows >= inner { rows - inner } else { 0 };
    if up < most { up } else { most }
}

/// The side tree's width while its border is dragged to column `col`: from its
/// left edge at `area_x` to the column, held between the minimum and half of
/// the `total` width of tree and text.
pub fn dragged_tree_width(col: u16, area_x: u16, total: u16) -> (r: u16)
    requires
        col < area_x + u16::MAX,
    ensures
        ({
            let w: int = if col >= area_x { col - area_x + 1 } else { 1 };
            let hi = vstd::math::max((total / 2) as int, TREE_MIN_WIDTH as int);
            r == vstd::math::min(vstd::math::max(w, TREE_MIN_WIDTH as int), hi)
        }),
{
    let w: u16 = if col >= area_x { col - area_x + 1 } else { 1 };
    let hi = tree_max_width(total);
    if w < TREE_MIN_WIDTH {
        TREE_MIN_WIDTH
    } else if w > hi {
        hi
    } else {
        w
    }
}

/// How the text column is laid out: its width in full-width characters (0 fills
/// the width), the blank columns on either side, the blank lines between
/// paragraphs, and whether line numbers show.
#[derive(Debug, Clone, Copy, PartialEq, Eq, Structural)]
pub struct EditorLayout {
    pub column_width: u16,
    pub margin: u16,
    pub paragraph_spacing: u16,
    pub line_number: bool,
}

impl EditorLayout {
    /// The layout from the appearance settings; focus mode uses its own column
    /// width and hides line numbers (they are the opposite of focus).
    pub fn for_mode(
        column_width: u16,
        focus_column_width: u16,
        margin: u16,
        paragraph_spacing: u16,
        line_number: bool,
        focus_mode: bool,
    ) -> (r: Self)
        ensures
            r == (EditorLayout {
                column_width: if focus_mode { focus_column_width } else { column_width },
                margin,
                paragraph_spacing,
                line_number: line_number && !focus_mode,
            }),
    {
        EditorLayout {
            column_width: if focus_mode { focus_column_width } else { column_width },
            margin,
            paragraph_spacing,
            line_number: line_number && !focus_mode,
        }
    }

    /// Where the text goes within an area at column `area_x`, `area_width` wide:
    /// its first column and its width. The margins come off first (at most a
    /// quarter of the width each), then the column narrows to its width (two
    /// columns per full-width character) and is centred. Never below one column.
    pub fn text_span(&self, area_x: u16, area_width: u16) -> (r: (u16, u16))
        requires
            area_x + area_width <= u16::MAX,
        ensures
            ({
                let margin: int = vstd::math::min(self.margin as int, (area_width / 4) as int);
                let avail: int = vstd::math::max(if area_width >= 2 * margin { area_width - 2 * margin } else { 0 }, 1);
                let want: int = if self.column_width == 0 {
                    avail
                } else {
                    vstd::math::min(vstd::math::min(2 * self.column_width, u16::MAX as int), avail)
                };
                &&& r.0 == area_x + margin + (avail - want) / 2
                &&& r.1 == vstd::math::max(want, 1)
            }),
    {
        let margin = if self.margin < area_width / 4 { self.margin } else { area_width / 4 };
        let twice = margin * 2;
        let avail0 = if area_width >= twice { area_width - twice } else { 0 };
        let avail = if avail0 >= 1 { avail0 } else { 1 };
        let want = if self.column_width == 0 {
            avail
        } else {
            let doubled = if self.column_width <= u16::MAX / 2 { self.column_width * 2 } else { u16::MAX };
            if doubled < avail { doubled } else { avail }
        };
        let x = area_x + margin + (avail - want) / 2;
        (x, if want >= 1 { want } else { 1 })
    }
}


/// A rectangle of the screen.
#[derive(Debug, Clone, Copy, PartialEq, Eq, Structural)]
pub struct Area {
    pub x: u16,
    pub y: u16,
    pub width: u16,
    pub height: u16,
}

/// The cell (`col`, `row`) lies in the area.
pub open spec fn spec_within(a: Area, col: u16, row: u16) -> bool {
    col >= a.x && col < a.x + a.width && row >= a.y && row < a.y + a.height
}

/// The area stays within the screen's coordinates.
pub open spec fn area_fits(a: Area) -> bool {
    a.x + a.width <= u16::MAX && a.y + a.height <= u16::MAX
}

pub fn within(a: Area, col: u16, row: u16) -> (r: bool)
    requires
        area_fits(a),
    ensures
        r == spec_within(a, col, row),
{
    col >= a.x && col < a.x + a.width && row >= a.y && row < a.y + a.height
}

/// What a mouse click lands on.
#[derive(Debug, Clone, Copy, PartialEq, Eq, Structural)]
pub enum Click {
    /// Nothing to do: an overlay is open, or the click is on no row or outside.
    Ignored,
    /// The side tree's right border, which drags.
    Divider,
    /// A row of the side tree.
    TreeRow(usize),
    /// The text.
    Editor,
}

/// Where a click lands. With an overlay open clicks are ignored (under an
/// overlay the coordinates cannot be told apart, and a wrong click is worse
/// than none). The tree's right border is tested before its rows, since that
/// column is inside the tree too; a row is counted from the line under the
/// tree's top border, `top` being the first row shown.
pub open spec fn spec_click(overlays_open: bool, tree: Option<(Area, usize)>, tree_rows: usize, editor: Area, col: u16, row: u16) -> Click {
    if overlays_open {
        Click::Ignored
    } else {
        match tree {
            Some((a, top)) if col == a.x + (if a.width >= 1 { a.width - 1 } else { 0 }) => Click::Divider,
            Some((a, top)) if spec_within(a, col, row) => {
                if row < a.y + 1 || top + (row - (a.y + 1)) >= tree_rows {
                    Click::Ignored
                } else {
                    Click::TreeRow((top + (row - (a.y + 1))) as usize)
                }
            },
            _ => if spec_within(editor, col, row) { Click::Editor } else { Click::Ignored },
        }
    }
}

pub fn click_target(overlays_open: bool, tree: Option<(Area, usize)>, tree_rows: usize, editor: Area, col: u16, row: u16) -> (r: Click)
    requires
        tree matches Some((a, _)) ==> area_fits(a),
        area_fits(editor),
    ensures
        r == spec_click(overlays_open, tree, tree_rows, editor, col, row),
{
    if overlays_open {
        return Click::Ignored;
    }
    match tree {
        Some((a, top)) => {
            let right = a.x + if a.width >= 1 { a.width - 1 } else { 0 };
            if col == right {
                return Click::Divider;
            }
            if within(a, col, row) {
                if row < a.y + 1 {
                    return Click::Ignored;
                }
                let offset = (row - (a.y + 1)) as usize;
                if top >= tree_rows || offset >= tree_rows - top {
                    return Click::Ignored;
                }
                return Click::TreeRow(top + offset);
            }
        },
        None => {},
    }
    if within(editor, col, row) {
        Click::Editor
    } else {
        Click::Ignored
    }
}


/// Candidates the completion popup lists at most.
pub const POPUP_ROWS: usize = 6;

/// The widest of the first `k` names, in columns.
pub open spec fn widest(names: Seq<Seq<char>>, k: int) -> nat
    decreases k,
{
    if k <= 0 {
        0
    } else {
        vstd::math::max(widest(names, k - 1) as int, str_width(names[k - 1]) as int) as nat
    }
}

/// Where the completion popup goes: under the cursor cell (`col`, `row`) of
/// the text area `inner`, as wide as the widest listed name (between 4 and 24
/// columns) plus its border, as tall as the names listed (at most six) plus
/// its border; moved left rather than past the right edge, and above the
/// cursor when there is no room below; never larger than the pane `area`.
/// No popup without names.
pub open spec fn spec_popup(area: Area, inner: Area, col: u16, row: u16, names: Seq<Seq<char>>) -> Option<Area> {
    if names.len() == 0 {
        None
    } else {
        let shown = vstd::math::min(names.len() as int, POPUP_ROWS as int);
        let w = vstd::math::min(vstd::math::max(widest(names, shown) as int, 4), 24) + 2;
        let h = shown + 2;
        let right = inner.x + if inner.width >= w { inner.width - w } else { 0 };
        let x = vstd::math::min(inner.x + col, right);
        let below = inner.y + row + 1;
        let y = if below + h <= inner.y + inner.height {
            below
        } else if inner.y + row >= h {
            inner.y + row - h
        } else {
            0
        };
        Some(
            Area {
                x: x as u16,
                y: y as u16,
                width: vstd::math::min(w, area.width as int) as u16,
                height: vstd::math::min(h, area.height as int) as u16,
            },
        )
    }
}

/// The completion popup's rectangle for the candidates `names`.
pub fn completion_popup(area: Area, inner: Area, col: u16, row: u16, names: &Vec<&str>) -> (r: Option<Area>)
    requires
        area_fits(inner),
        inner.x + col <= u16::MAX,
        inner.y + row + POPUP_ROWS + 3 <= u16::MAX,
    ensures
        r == spec_popup(area, inner, col, row, names@.map_values(|s: &str| s@)),
{
    let ghost ns = names@.map_values(|s: &str| s@);
    if names.len() == 0 {
        return None;
    }
    let shown = if names.len() < POPUP_ROWS { names.len() } else { POPUP_ROWS };
    let mut widest_cols: usize = 0;
    let mut i: usize = 0;
    while i < shown
        invariant
            i <= shown <= names@.len(),
            ns == names@.map_values(|s: &str| s@),
            widest_cols == widest(ns, i as int),
        decreases shown - i,
    {
        let w = display_width(names[i]);
        proof {
            assert(ns[i as int] == names@[i as int]@);
        }
        if w > widest_cols {
            widest_cols = w;
        }
        i = i + 1;
    }
    let w: u16 = if widest_cols < 4 {
        6
    } else if widest_cols > 24 {
        26
    } else {
        widest_cols as u16 + 2
    };
    let h: u16 = shown as u16 + 2;
    let right = inner.x + if inner.width >= w { inner.width - w } else { 0 };
    let x = if inner.x + col < right { inner.x + col } else { right };
    let below = inner.y + row + 1;
    let y = if below as u32 + h as u32 <= inner.y as u32 + inner.height as u32 {
        below
    } else if inner.y + row >= h {
        inner.y + row - h
    } else {
        0
    };
    Some(Area {
        x,
        y,
        width: if w < area.width { w } else { area.width },
        height: if h < area.height { h } else { area.height },
    })
}


/// Where the command palette goes in `area`: six tenths of the width, held
/// between 40 columns (or the whole width when narrower) and 70; one row per
/// match, between 1 and 12, plus four (border, query line, rule), never taller
/// than the area; centred across and a third of the way down.
pub open spec fn spec_palette_area(area: Area, matches: nat) -> Area {
    let lo = vstd::math::min(40, area.width as int);
    let w0 = (area.width * 6 / 10) as int;
    let w = vstd::math::min(vstd::math::min(vstd::math::max(w0, lo), 70), area.width as int);
    let rows = vstd::math::min(vstd::math::max(matches as int, 1), 12);
    let h = vstd::math::min(rows + 4, area.height as int);
    Area {
        x: (area.x + (area.width - w) / 2) as u16,
        y: (area.y + (area.height - h) / 3) as u16,
        width: w as u16,
        height: h as u16,
    }
}

pub fn palette_area(area: Area, matches: usize) -> (r: Area)
    requires
        area_fits(area),
        area.width * 6 <= u16::MAX,
    ensures
        r == spec_palette_area(area, matches as nat),
{
    let lo: u16 = if area.width < 40 { area.width } else { 40 };
    let w0: u16 = area.width * 6 / 10;
    let w1: u16 = if w0 < lo { lo } else if w0 > 70 { 70 } else { w0 };
    let w: u16 = if w1 < area.width { w1 } else { area.width };
    let rows: u16 = if matches < 1 { 1 } else if matches > 12 { 12 } else { matches as u16 };
    let h: u16 = if rows + 4 < area.height { rows + 4 } else { area.height };
    Area { x: area.x + (area.width - w) / 2, y: area.y + (area.height - h) / 3, width: w, height: h }
}

/// Columns of the line-number gutter: the digits of the line count (at least
/// one line) and a space; none when line numbers are off.
pub open spec fn spec_gutter_width(lines: nat, line_number: bool) -> nat {
    if line_number {
        dec_seq(if lines >= 1 { lines } else { 1 }).len() + 1
    } else {
        0
    }
}

/// A number has no more digits than its value (and fewer from two on).
proof fn lemma_dec_len(n: nat)
    requires
        n >= 1,
    ensures
        dec_seq(n).len() <= n,
        n >= 2 ==> dec_seq(n).len() < n,
    decreases n,
{
    if n >= 10 {
        lemma_dec_len(n / 10);
    }
}

pub fn gutter_width(lines: usize, line_number: bool) -> (r: usize)
    ensures
        r == spec_gutter_width(lines as nat, line_number),
{
    if line_number {
        let n = if lines >= 1 { lines } else { 1 };
        let digits = chars_of(usize_string(n).as_str());
        proof {
            lemma_dec_len(n as nat);
        }
        digits.len() + 1
    } else {
        0
    }
}

/// The gutter text of a display line: on a paragraph's first line its number
/// (from 1) right-aligned to the gutter less one column, then a space; on a
/// continuation line only spaces, since a number there would read as a new
/// paragraph.
pub open spec fn spec_gutter_label(logical_line: nat, paragraph_start: bool, gutter: nat) -> Seq<char> {
    if paragraph_start {
        let n = dec_seq(logical_line + 1);
        let pad = if gutter >= 1 + n.len() { (gutter - 1 - n.len()) as nat } else { 0 };
        repeat_seq(" "@, pad) + n + " "@
    } else {
        repeat_seq(" "@, gutter)
    }
}

pub fn gutter_label(logical_line: usize, paragraph_start: bool, gutter: usize) -> (r: String)
    requires
        logical_line < usize::MAX,
    ensures
        r@ == spec_gutter_label(logical_line as nat, paragraph_start, gutter as nat),
{
    if paragraph_start {
        let n = usize_string(logical_line + 1);
        let len = chars_of(n.as_str()).len();
        let pad = if gutter >= 1 && gutter - 1 >= len { gutter - 1 - len } else { 0 };
        let mut out = repeat_str(" ", pad);
        push_str(&mut out, n.as_str());
        push_str(&mut out, " ");
        out
    } else {
        repeat_str(" ", gutter)
    }
}

} // verus!
