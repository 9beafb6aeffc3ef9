//! What a window decides: how large its grid and its buffers are, when it
//! draws, what it is called, and how its tabs are numbered.

use crate::palette::Rgb;
use crate::text::{chars_of, decimal, push_decimal, spells, string_of};
use vstd::prelude::*;
use vstd::utf8::encode_utf8;

verus! {

/// Fewest rows of a grid, however short the window is: a prompt of a few lines
/// stays in it.
pub const MIN_GRID_ROWS: usize = 4;

/// Most rows that a slide of new output moves the grid by.
pub const SCROLL_ON_OUTPUT_MAX_ROWS: usize = 16;

/// Bytes of a vertex: eighteen numbers of four bytes each.
pub const VERTEX_BYTES: usize = 72;

/// Rows of the widest band that is drawn: the grid, two rows and a whole slide
/// above and below it, and the rows behind the tab bar.
pub open spec fn band_rows(rows: int, top_inset_rows: int) -> int {
    rows + 2 * (2 + SCROLL_ON_OUTPUT_MAX_ROWS) + top_inset_rows
}

/// Quads that the grid's buffers hold: two for every cell of the band, and ten
/// more for the cursor and what lies over the grid.
pub open spec fn grid_quads(cols: int, rows: int, top_inset_rows: int) -> int {
    2 * cols * band_rows(rows, top_inset_rows) + 10
}

/// Bytes of the grid's vertex and index buffers.
pub fn grid_buffer_byte_sizes(cols: usize, rows: usize, top_inset_rows: usize) -> (bytes: (
    usize,
    usize,
))
    requires
        grid_quads(cols as int, rows as int, top_inset_rows as int) * VERTEX_BYTES * 4
            <= usize::MAX,
    ensures
        bytes.0 == grid_quads(cols as int, rows as int, top_inset_rows as int) * VERTEX_BYTES * 4,
        bytes.1 == grid_quads(cols as int, rows as int, top_inset_rows as int) * 4 * 6,
{
    proof {
        let c = cols as int;
        let r = rows as int;
        let t = top_inset_rows as int;
        assert(2 * c * (r + 36 + t) == 2 * (c * r) + 2 * (36 * c) + 2 * (t * c))
            by (nonlinear_arith);
        assert(c * r >= 0) by (nonlinear_arith)
            requires
                c >= 0,
                r >= 0,
        ;
        assert(t * c >= 0) by (nonlinear_arith)
            requires
                c >= 0,
                t >= 0,
        ;
        assert(t * 2 * c == 2 * (t * c)) by (nonlinear_arith);
        if t > 0 && c == 0 {
            assert(t * c == 0) by (nonlinear_arith)
                requires
                    c == 0,
            ;
        }
        if c > 0 {
            assert(t <= t * c) by (nonlinear_arith)
                requires
                    t >= 0,
                    c >= 1,
            ;
        }
    }
    if cols == 0 {
        return (10 * VERTEX_BYTES * 4, 10 * 4 * 6);
    }
    let area: usize = cols * rows;
    let phantom_rows_per_side: usize = 2 + SCROLL_ON_OUTPUT_MAX_ROWS;
    let extra_quads: usize = phantom_rows_per_side * 2 * cols + 5;
    let top_inset_quads: usize = top_inset_rows * 2 * cols;
    let quads: usize = 2 * area + 2 * extra_quads + top_inset_quads;
    (quads * VERTEX_BYTES * 4, quads * 4 * 6)
}

/// The size of a grid in characters.
#[derive(Clone, Copy, Debug, PartialEq, Eq, Structural)]
pub struct ViewportSize {
    pub char_width: usize,
    pub char_height: usize,
}

/// The grid that fits a number of pixels, with at least one column and
/// [`MIN_GRID_ROWS`] rows.
pub fn get_viewport_size(
    inner_width: usize,
    inner_height: usize,
    advance_x: usize,
    line_height: usize,
) -> (size: ViewportSize)
    requires
        advance_x > 0,
        line_height > 0,
    ensures
        size.char_width == if inner_width < advance_x {
            1
        } else {
            inner_width as int / advance_x as int
        },
        size.char_height == if inner_height as int / (line_height as int) < MIN_GRID_ROWS {
            MIN_GRID_ROWS as int
        } else {
            inner_height as int / line_height as int
        },
        size.char_width >= 1,
        size.char_height >= MIN_GRID_ROWS,
{
    let cols: usize = inner_width / advance_x;
    let rows: usize = inner_height / line_height;
    proof {
        let q = inner_width as int / advance_x as int;
        vstd::arithmetic::div_mod::lemma_fundamental_div_mod(
            inner_width as int,
            advance_x as int,
        );
        if inner_width < advance_x {
            vstd::arithmetic::div_mod::lemma_basic_div(inner_width as int, advance_x as int);
        } else {
            vstd::arithmetic::div_mod::lemma_div_non_zero(inner_width as int, advance_x as int);
        }
    }
    ViewportSize {
        char_width: if cols < 1 {
            1
        } else {
            cols
        },
        char_height: if rows < MIN_GRID_ROWS {
            MIN_GRID_ROWS
        } else {
            rows
        },
    }
}

/// The size that the programs in a pty are told.
#[derive(Clone, Copy, Debug, PartialEq, Eq, Structural)]
pub struct PtySize {
    pub rows: u16,
    pub cols: u16,
    pub xpixel: u16,
    pub ypixel: u16,
}

/// A length in pixels, by cells of a size, as far as 16 bits hold it.
pub open spec fn pixels_told(cells: int, cell: int) -> int {
    let n = cells % 0x1_0000_0000 * cell;
    if n > u16::MAX {
        u16::MAX as int
    } else {
        n
    }
}

fn told(cells: usize, cell: u32) -> (n: u16)
    ensures
        n == pixels_told(cells as int, cell as int),
{
    let count: u64 = cells as u64 % 0x1_0000_0000;
    proof {
        let c = cells as int % 0x1_0000_0000;
        assert(0 <= c * cell <= 0xffff_ffff * 0xffff_ffff) by (nonlinear_arith)
            requires
                0 <= c <= 0xffff_ffff,
                0 <= cell <= 0xffff_ffff,
        ;
    }
    let n: u64 = count * (cell as u64);
    if n > 65535 {
        65535
    } else {
        n as u16
    }
}

/// The size that the programs in a pty are told. The pixels let them find out
/// how large a cell is.
pub fn notify_pty_size(cols: usize, rows: usize, cell_w: u32, line_h: u32) -> (size: PtySize)
    ensures
        size.rows == rows as int % 0x1_0000,
        size.cols == cols as int % 0x1_0000,
        size.xpixel == pixels_told(cols as int, cell_w as int),
        size.ypixel == pixels_told(rows as int, line_h as int),
{
    PtySize {
        rows: (rows % 0x1_0000) as u16,
        cols: (cols % 0x1_0000) as u16,
        xpixel: told(cols, cell_w),
        ypixel: told(rows, line_h),
    }
}

/// What a new window size calls for.
#[derive(Clone, Copy, Debug, PartialEq, Eq, Structural)]
pub struct ResizePlan {
    /// The surface and everything of its size is made anew.
    pub reconfigure: bool,
    /// The programs in the pty are told.
    pub notify: bool,
}

/// What a new window size calls for. A window without area keeps its surface.
/// Programs are only told when the grid changes: a drag changes the pixels all
/// the time, and shells repaint their prompt whenever they are told.
pub fn resize(width: u32, height: u32, grid: ViewportSize, cols: usize, rows: usize) -> (plan:
    ResizePlan)
    ensures
        plan.reconfigure == (width > 0 && height > 0),
        plan.notify == (grid.char_width != cols || grid.char_height != rows),
{
    ResizePlan {
        reconfigure: width > 0 && height > 0,
        notify: grid.char_width != cols || grid.char_height != rows,
    }
}

/// What of a window is out of date.
#[derive(Clone, Copy, Debug, PartialEq, Eq, Structural)]
pub struct Redraw {
    /// The vertices do not show the contents any more.
    pub vertices_dirty: bool,
    /// Only the scroll offset changed.
    pub scroll_only_dirty: bool,
    /// A frame was put off and is drawn when it is due.
    pub render_pending: bool,
}

/// How a frame is brought up to date.
#[derive(Clone, Copy, Debug, PartialEq, Eq, Structural)]
pub enum Flush {
    /// The vertices are built anew.
    Rebuild,
    /// The vertices are moved.
    Slide,
    /// Nothing.
    Keep,
}

/// What is out of date after the contents changed.
pub open spec fn content_changed(r: Redraw) -> Redraw {
    Redraw { vertices_dirty: true, ..r }
}

/// What is out of date after the scroll offset changed. Overlays that stay in
/// place are part of the vertices, so with one open everything is; and a change
/// of the contents that is due stays due.
pub open spec fn scroll_changed(r: Redraw, overlay_open: bool) -> Redraw {
    if overlay_open {
        Redraw { vertices_dirty: true, ..r }
    } else if !r.vertices_dirty {
        Redraw { scroll_only_dirty: true, ..r }
    } else {
        r
    }
}

/// How a frame is brought up to date.
pub open spec fn flush_for(r: Redraw) -> Flush {
    if r.vertices_dirty {
        Flush::Rebuild
    } else if r.scroll_only_dirty {
        Flush::Slide
    } else {
        Flush::Keep
    }
}

/// What is out of date after a frame was brought up to date.
pub open spec fn flushed(r: Redraw) -> Redraw {
    Redraw { vertices_dirty: false, scroll_only_dirty: false, ..r }
}

impl Redraw {
    /// A window that has drawn nothing.
    pub fn new() -> (redraw: Redraw)
        ensures
            redraw == (Redraw {
                vertices_dirty: true,
                scroll_only_dirty: false,
                render_pending: false,
            }),
    {
        Redraw { vertices_dirty: true, scroll_only_dirty: false, render_pending: false }
    }

    /// The contents changed. Says whether a redraw is to be requested: not
    /// while a frame that was put off will pick the change up.
    pub fn invalidate(&mut self) -> (request: bool)
        ensures
            *final(self) == content_changed(*old(self)),
            request == !old(self).render_pending,
    {
        self.vertices_dirty = true;
        !self.render_pending
    }

    /// Only the scroll offset changed.
    pub fn invalidate_scroll(&mut self, overlay_open: bool)
        ensures
            *final(self) == scroll_changed(*old(self), overlay_open),
    {
        if overlay_open {
            self.vertices_dirty = true;
        } else if !self.vertices_dirty {
            self.scroll_only_dirty = true;
        }
    }

    /// How the frame is brought up to date; afterwards nothing is out of date.
    pub fn flush_vertices(&mut self) -> (flush: Flush)
        ensures
            flush == flush_for(*old(self)),
            *final(self) == flushed(*old(self)),
    {
        if self.vertices_dirty {
            self.vertices_dirty = false;
            self.scroll_only_dirty = false;
            Flush::Rebuild
        } else if self.scroll_only_dirty {
            self.scroll_only_dirty = false;
            Flush::Slide
        } else {
            Flush::Keep
        }
    }

    /// Whether a frame is drawn right now: only with a target to draw into.
    pub fn render_now(&mut self, target_available: bool) -> (draw: bool)
        ensures
            draw == target_available,
            *final(self) == if target_available {
                Redraw { render_pending: false, ..*old(self) }
            } else {
                *old(self)
            },
    {
        if target_available {
            self.render_pending = false;
        }
        target_available
    }
}

/// Whether a window needs no drawing. A focused window is visible, whatever a
/// late report of its occlusion says.
pub fn hidden(occluded: bool, focused: bool) -> (b: bool)
    ensures
        b == (occluded && !focused),
{
    occluded && !focused
}

/// What the cells of a frame are measured in.
#[derive(Copy, Clone, Debug, PartialEq, Eq, Structural)]
pub struct ViewportKey {
    pub rows: usize,
    pub cols: usize,
    pub view_offset: usize,
    pub on_alt_screen: bool,
}

/// What the cached vertices of a row rest on.
#[derive(Copy, Clone, Debug, PartialEq, Eq, Structural)]
pub struct RowCacheKey {
    pub viewport: ViewportKey,
    pub anim_active: bool,
    pub epoch: u64,
}

/// The number after another; the last one is followed by zero.
pub open spec fn following(n: u64) -> u64 {
    if n == u64::MAX {
        0
    } else {
        (n + 1) as u64
    }
}

/// The number after another.
fn follow(n: u64) -> (next: u64)
    ensures
        next == following(n),
{
    if n == u64::MAX {
        0
    } else {
        n + 1
    }
}

/// The epoch after every cached row became stale.
pub fn invalidate_row_cache(epoch: u64) -> (next: u64)
    ensures
        next == following(epoch),
        next != epoch,
{
    follow(epoch)
}

/// The tab for a digit. The digits up to 8 count from the first one, and 9 is
/// the last one.
pub fn tab_index_for_digit(d: char, num_tabs: usize) -> (index: Option<usize>)
    requires
        '1' <= d,
    ensures
        index == if d == '9' {
            Some(
                if num_tabs > 0 {
                    (num_tabs - 1) as usize
                } else {
                    0
                },
            )
        } else if d as int - ('1' as int) < num_tabs {
            Some((d as int - '1' as int) as usize)
        } else {
            None
        },
{
    if d == '9' {
        return Some(
            if num_tabs > 0 {
                num_tabs - 1
            } else {
                0
            },
        );
    }
    let idx: usize = d as usize - '1' as usize;
    if idx < num_tabs {
        Some(idx)
    } else {
        None
    }
}

/// Hands out ids that differ.
pub struct Ids {
    pub next: u64,
}

impl Ids {
    /// The next id. None is handed out again before all of them were.
    pub fn next_tab_id(&mut self) -> (id: u64)
        ensures
            id == old(self).next,
            final(self).next == following(old(self).next),
    {
        let id: u64 = self.next;
        self.next = follow(id);
        id
    }

    /// The name of the next tab group.
    pub fn next_tab_group_id(&mut self) -> (name: String)
        ensures
            name@ == "yutani-tabgroup-"@ + decimal(old(self).next as nat),
            final(self).next == following(old(self).next),
    {
        let mut name: String = "yutani-tabgroup-".to_owned();
        push_decimal(&mut name, self.next_tab_id());
        name
    }
}

/// Whether a program other than the shell is in the foreground. No group, as
/// after the shell's end, is none.
pub fn fg_is_foreign_command(fg_pgrp: i32, shell_pid: i32) -> (b: bool)
    ensures
        b == (fg_pgrp > 0 && fg_pgrp != shell_pid),
{
    fg_pgrp > 0 && fg_pgrp != shell_pid
}

/// A directory with the home in it written as `~`.
pub open spec fn shortened(cwd: Seq<char>, home: Option<Seq<char>>) -> Seq<char> {
    match home {
        Some(h) => if cwd == h {
            "~"@
        } else if h.push('/').is_prefix_of(cwd) {
            "~/"@ + cwd.skip(h.len() as int + 1)
        } else {
            cwd
        },
        None => cwd,
    }
}

/// The title for a directory: its path, and for an empty path or the root the
/// name of the program.
pub open spec fn title_of(cwd: Seq<char>, home: Option<Seq<char>>) -> Seq<char> {
    let display = shortened(cwd, home);
    if display.len() == 0 || display == "/"@ {
        "Yutani"@
    } else {
        display
    }
}

/// An optional text as characters.
pub open spec fn text_view(text: Option<&str>) -> Option<Seq<char>> {
    match text {
        Some(t) => Some(t@),
        None => None,
    }
}

/// Whether a text starts with another and a slash.
fn is_inside(path: &Vec<char>, home: &Vec<char>) -> (b: bool)
    ensures
        b == home@.push('/').is_prefix_of(path@),
{
    let ghost prefix = home@.push('/');
    if path.len() <= home.len() || path[home.len()] != '/' {
        proof {
            if prefix.is_prefix_of(path@) {
                assert(prefix[home@.len() as int] == path@[home@.len() as int]);
            }
        }
        return false;
    }
    let mut i: usize = 0;
    while i < home.len()
        invariant
            i <= home@.len() < path@.len(),
            prefix == home@.push('/'),
            forall|j: int| 0 <= j < i ==> home@[j] == path@[j],
        decreases home@.len() - i,
    {
        if home[i] != path[i] {
            proof {
                assert(prefix[i as int] == home@[i as int]);
                if prefix.is_prefix_of(path@) {
                    assert(path@.subrange(0, prefix.len() as int)[i as int] == path@[i as int]);
                }
            }
            return false;
        }
        i = i + 1;
    }
    assert(prefix =~= path@.subrange(0, prefix.len() as int));
    true
}

/// The title for a directory: its path, with the home as `~`. An empty path or
/// the root gives the name of the program.
pub fn title_for_cwd(cwd: &str, home: Option<&str>) -> (title: String)
    ensures
        title@ == title_of(cwd@, text_view(home)),
        title@.len() > 0,
{
    proof {
        reveal_strlit("~");
        reveal_strlit("~/");
        reveal_strlit("/");
        reveal_strlit("Yutani");
    }
    let chars: Vec<char> = chars_of(cwd);
    if let Some(h) = home {
        let base: Vec<char> = chars_of(h);
        if spells(&chars, h) {
            assert("~"@[0] != "/"@[0]);
            return "~".to_owned();
        }
        if is_inside(&chars, &base) {
            let at: usize = base.len();
            assert(at < chars.len());
            let mut head: Vec<char> = chars;
            let rest: Vec<char> = head.split_off(at + 1);
            let mut title: String = "~/".to_owned();
            title.append(string_of(&rest).as_str());
            assert(title@ =~= "~/"@ + cwd@.skip(base@.len() as int + 1));
            assert(title@.len() != "/"@.len());
            return title;
        }
    }
    if chars.len() == 0 || spells(&chars, "/") {
        "Yutani".to_owned()
    } else {
        string_of(&chars)
    }
}

/// The title of a window: the one that a program set, or that of the
/// directory.
pub fn effective_title(manual: Option<&str>, cwd: Option<&str>, home: Option<&str>) -> (title:
    String)
    ensures
        title@ == match manual {
            Some(t) => t@,
            None => match cwd {
                Some(c) => title_of(c@, text_view(home)),
                None => "Yutani"@,
            },
        },
{
    match manual {
        Some(t) => t.to_owned(),
        None => match cwd {
            Some(c) => title_for_cwd(c, home),
            None => "Yutani".to_owned(),
        },
    }
}

/// What a double click on the title bar does.
#[derive(Debug, PartialEq, Eq, Clone, Copy, Structural)]
pub enum TitlebarDoubleClickAction {
    Zoom,
    Minimize,
    Nothing,
}

/// What a double click on the title bar does, by the system's setting. Without
/// one, and with one that is not known, the window zooms.
pub fn titlebar_double_click_action(setting: Option<&str>) -> (action: TitlebarDoubleClickAction)
    ensures
        action == match setting {
            Some(s) => if s@ == "Minimize"@ {
                TitlebarDoubleClickAction::Minimize
            } else if s@ == "None"@ {
                TitlebarDoubleClickAction::Nothing
            } else {
                TitlebarDoubleClickAction::Zoom
            },
            None => TitlebarDoubleClickAction::Zoom,
        },
{
    match setting {
        None => TitlebarDoubleClickAction::Zoom,
        Some(s) => {
            let chars: Vec<char> = chars_of(s);
            if spells(&chars, "Minimize") {
                TitlebarDoubleClickAction::Minimize
            } else if spells(&chars, "None") {
                TitlebarDoubleClickAction::Nothing
            } else {
                TitlebarDoubleClickAction::Zoom
            }
        },
    }
}

/// A hexadecimal digit.
pub open spec fn hex_digit(d: int) -> char {
    if d < 10 {
        (48 + d) as char
    } else {
        (87 + d) as char
    }
}

/// A byte as two hexadecimal digits.
pub open spec fn hex_byte(b: u8) -> Seq<char> {
    seq![hex_digit(b as int / 16), hex_digit(b as int % 16)]
}

/// A colour as `0xRRGGBB`.
pub open spec fn hex_color(c: Rgb) -> Seq<char> {
    "0x"@ + hex_byte(c.r) + hex_byte(c.g) + hex_byte(c.b)
}

fn push_hex(out: &mut String, b: u8)
    ensures
        final(out)@ == old(out)@ + hex_byte(b),
{
    let high: u8 = b / 16;
    let low: u8 = b % 16;
    let h: char = (if high < 10 {
        48 + high
    } else {
        87 + high
    }) as char;
    let l: char = (if low < 10 {
        48 + low
    } else {
        87 + low
    }) as char;
    out.push(h);
    out.push(l);
    assert(out@ =~= old(out)@ + hex_byte(b));
}

/// A colour as `0xRRGGBB`, as it stands in the configuration.
pub fn format_hex_rgb(c: Rgb) -> (text: String)
    ensures
        text@ == hex_color(c),
{
    let mut text: String = "0x".to_owned();
    push_hex(&mut text, c.r);
    push_hex(&mut text, c.g);
    push_hex(&mut text, c.b);
    assert(text@ =~= hex_color(c));
    text
}

/// What a paste writes to the program: the text, between markers where the
/// program asked for them.
pub fn paste_bytes(text: &str, bracketed: bool) -> (bytes: Vec<u8>)
    ensures
        bytes@ == if bracketed {
            seq![0x1bu8, 0x5b, 0x32, 0x30, 0x30, 0x7e] + encode_utf8(text@) + seq![
                0x1bu8,
                0x5b,
                0x32,
                0x30,
                0x31,
                0x7e,
            ]
        } else {
            encode_utf8(text@)
        },
{
    let body: &[u8] = text.as_bytes();
    let mut bytes: Vec<u8> = Vec::new();
    if bracketed {
        let open: Vec<u8> = vec![0x1b, 0x5b, 0x32, 0x30, 0x30, 0x7e];
        bytes.extend_from_slice(open.as_slice());
    }
    bytes.extend_from_slice(body);
    if bracketed {
        let close: Vec<u8> = vec![0x1b, 0x5b, 0x32, 0x30, 0x31, 0x7e];
        bytes.extend_from_slice(close.as_slice());
        assert(bytes@ =~= seq![0x1bu8, 0x5b, 0x32, 0x30, 0x30, 0x7e] + encode_utf8(text@) + seq![
            0x1bu8,
            0x5b,
            0x32,
            0x30,
            0x31,
            0x7e,
        ]);
    } else {
        assert(bytes@ =~= encode_utf8(text@));
    }
    bytes
}

/// The characters of a run of text that have a glyph, each with its column: all
/// but the spaces.
pub open spec fn run_glyphs(text: Seq<char>) -> Seq<(usize, char)>
    decreases text.len(),
{
    if text.len() == 0 {
        Seq::empty()
    } else if text.last() == ' ' {
        run_glyphs(text.drop_last())
    } else {
        run_glyphs(text.drop_last()).push(((text.len() - 1) as usize, text.last()))
    }
}

/// A run of text: its characters that have a glyph, and how many cells it
/// advances by.
#[derive(Debug, PartialEq, Eq)]
pub struct TextRun {
    pub glyphs: Vec<(usize, char)>,
    pub cells: usize,
}

/// A run of text where only the first `fits` characters have room; it stops at
/// the first one that has none.
pub fn emit_text_run(text: &str, fits: usize) -> (run: TextRun)
    ensures
        run.cells == if text@.len() < fits {
            text@.len() as int
        } else {
            fits as int
        },
        run.glyphs@ == run_glyphs(text@.take(run.cells as int)),
{
    let chars: Vec<char> = chars_of(text);
    let mut glyphs: Vec<(usize, char)> = Vec::new();
    let mut i: usize = 0;
    assert(text@.take(0) =~= Seq::<char>::empty());
    while i < chars.len() && i < fits
        invariant
            i <= chars@.len(),
            i <= fits,
            chars@ == text@,
            glyphs@ == run_glyphs(text@.take(i as int)),
        decreases chars@.len() - i,
    {
        proof {
            assert(text@.take(i + 1).drop_last() =~= text@.take(i as int));
            assert(text@.take(i + 1).last() == text@[i as int]);
        }
        if chars[i] != ' ' {
            glyphs.push((i, chars[i]));
        }
        i = i + 1;
    }
    TextRun { glyphs, cells: i }
}

/// Whether a glyph covers anything.
pub open spec fn covers(area: (u32, u32)) -> bool {
    area.0 > 0 && area.1 > 0
}

/// The glyphs that are drawn: those whose box in the atlas, a width and a
/// height for each, is not empty.
pub open spec fn drawn_glyphs(glyphs: Seq<(usize, char)>, boxes: Seq<(u32, u32)>) -> Seq<
    (usize, char),
>
    decreases glyphs.len(),
{
    if glyphs.len() == 0 {
        Seq::empty()
    } else if covers(boxes[glyphs.len() - 1]) {
        drawn_glyphs(glyphs.drop_last(), boxes).push(glyphs.last())
    } else {
        drawn_glyphs(glyphs.drop_last(), boxes)
    }
}

/// The corner of its quad that the `k`-th of six indices names.
pub open spec fn quad_corner(k: int) -> int {
    if k == 0 {
        0
    } else if k == 1 || k == 3 {
        1
    } else if k == 2 || k == 4 {
        2
    } else {
        3
    }
}

/// The indices of `n` quads whose vertices start at `first`: six for each, into
/// its own four vertices.
pub open spec fn run_indices(first: int, n: nat) -> Seq<u32> {
    Seq::new(n * 6, |k: int| (first + k / 6 * 4 + quad_corner(k % 6)) as u32)
}

/// Adds the quads of a run of text: four vertices from `first_vertex` on and six
/// indices for every glyph that is drawn. Returns the drawn glyphs; their
/// vertices follow each other in this order.
pub fn draw_text_run(
    glyphs: &Vec<(usize, char)>,
    boxes: &Vec<(u32, u32)>,
    first_vertex: u32,
    indices: &mut Vec<u32>,
) -> (drawn: Vec<(usize, char)>)
    requires
        boxes@.len() == glyphs@.len(),
        first_vertex + 4 * glyphs@.len() <= u32::MAX,
    ensures
        drawn@ == drawn_glyphs(glyphs@, boxes@),
        drawn@.len() <= glyphs@.len(),
        final(indices)@ == old(indices)@ + run_indices(first_vertex as int, drawn@.len()),
{
    let mut drawn: Vec<(usize, char)> = Vec::new();
    let mut i: usize = 0;
    assert(glyphs@.take(0) =~= Seq::<(usize, char)>::empty());
    assert(indices@ =~= old(indices)@ + run_indices(first_vertex as int, 0));
    while i < glyphs.len()
        invariant
            i <= glyphs@.len(),
            boxes@.len() == glyphs@.len(),
            first_vertex + 4 * glyphs@.len() <= u32::MAX,
            drawn@ == drawn_glyphs(glyphs@.take(i as int), boxes@),
            drawn@.len() <= i,
            indices@ == old(indices)@ + run_indices(first_vertex as int, drawn@.len()),
        decreases glyphs@.len() - i,
    {
        proof {
            assert(glyphs@.take(i + 1).drop_last() =~= glyphs@.take(i as int));
            assert(glyphs@.take(i + 1).last() == glyphs@[i as int]);
        }
        if boxes[i].0 > 0 && boxes[i].1 > 0 {
            let n: usize = drawn.len();
            let start: u32 = first_vertex + 4 * n as u32;
            push_quad_indices(indices, start);
            drawn.push(glyphs[i]);
            proof {
                one_more_quad(first_vertex as int, n as nat);
                assert(indices@ =~= old(indices)@ + run_indices(first_vertex as int, drawn@.len()));
            }
        }
        i = i + 1;
    }
    assert(glyphs@.take(glyphs@.len() as int) =~= glyphs@);
    drawn
}

/// One more quad adds its six indices.
proof fn one_more_quad(first: int, n: nat)
    requires
        first >= 0,
    ensures
        run_indices(first, n + 1) == run_indices(first, n) + seq![
            (first + 4 * n) as u32,
            (first + 4 * n + 1) as u32,
            (first + 4 * n + 2) as u32,
            (first + 4 * n + 1) as u32,
            (first + 4 * n + 2) as u32,
            (first + 4 * n + 3) as u32,
        ],
{
    let last = seq![
        (first + 4 * n) as u32,
        (first + 4 * n + 1) as u32,
        (first + 4 * n + 2) as u32,
        (first + 4 * n + 1) as u32,
        (first + 4 * n + 2) as u32,
        (first + 4 * n + 3) as u32,
    ];
    let all = run_indices(first, n + 1);
    let sum = run_indices(first, n) + last;
    assert forall|k: int| 0 <= k < all.len() implies all[k] == sum[k] by {
        if k >= n * 6 {
            vstd::arithmetic::div_mod::lemma_fundamental_div_mod_converse(
                k,
                6,
                n as int,
                k - n * 6,
            );
        }
    }
    assert(all =~= sum);
}

/// Each glyph's indices stay within its own four vertices.
pub proof fn run_keeps_to_its_vertices(first: int, n: nat, k: int)
    requires
        first >= 0,
        first + 4 * n <= u32::MAX,
        0 <= k < n * 6,
    ensures
        first + 4 * (k / 6) <= run_indices(first, n)[k] < first + 4 * (k / 6) + 4,
        first <= run_indices(first, n)[k] < first + 4 * n,
{
}

/// Adds the indices of a quad whose corners start at `start`: top left, bottom
/// left, top right; bottom left, top right, bottom right.
pub fn push_quad_indices(indices: &mut Vec<u32>, start: u32)
    requires
        start + 3 <= u32::MAX,
    ensures
        final(indices)@ == old(indices)@ + seq![
            start,
            (start + 1) as u32,
            (start + 2) as u32,
            (start + 1) as u32,
            (start + 2) as u32,
            (start + 3) as u32,
        ],
{
    indices.push(start);
    indices.push(start + 1);
    indices.push(start + 2);
    indices.push(start + 1);
    indices.push(start + 2);
    indices.push(start + 3);
    assert(indices@ =~= old(indices)@ + seq![
        start,
        (start + 1) as u32,
        (start + 2) as u32,
        (start + 1) as u32,
        (start + 2) as u32,
        (start + 3) as u32,
    ]);
}

/// The buffers hold two quads for every cell of the widest band, and room for
/// ten more.
pub proof fn buffers_hold_the_widest_band(cols: int, rows: int, top_inset_rows: int, drawn: int)
    requires
        cols >= 0,
        0 <= drawn <= band_rows(rows, top_inset_rows),
    ensures
        2 * cols * drawn + 10 <= grid_quads(cols, rows, top_inset_rows),
{
    let band = band_rows(rows, top_inset_rows);
    assert(2 * cols * drawn <= 2 * cols * band) by (nonlinear_arith)
        requires
            cols >= 0,
            drawn <= band,
    ;
}

/// A change of the contents is never lost to a scroll: with both due, in either
/// order, the vertices are built anew. A scroll alone moves them, unless an
/// overlay is open, and one flush is enough.
pub proof fn content_outranks_scroll(r: Redraw, overlay_open: bool)
    ensures
        flush_for(scroll_changed(content_changed(r), overlay_open)) == Flush::Rebuild,
        flush_for(content_changed(scroll_changed(r, overlay_open))) == Flush::Rebuild,
        flush_for(scroll_changed(flushed(r), overlay_open)) == if overlay_open {
            Flush::Rebuild
        } else {
            Flush::Slide
        },
        flush_for(flushed(r)) == Flush::Keep,
{
}

/// The value of a hexadecimal digit.
pub open spec fn hex_value(c: char) -> int {
    if c as int <= 57 {
        c as int - 48
    } else {
        c as int - 87
    }
}

/// The number that a run of hexadecimal digits stands for.
pub open spec fn hex_number(digits: Seq<char>) -> int
    decreases digits.len(),
{
    if digits.len() == 0 {
        0
    } else {
        16 * hex_number(digits.drop_last()) + hex_value(digits.last())
    }
}

/// A colour that was written is read back as itself.
pub proof fn written_colour_reads_back(c: Rgb)
    ensures
        hex_number(hex_color(c).skip(2)) == c.r * 0x1_0000 + c.g * 0x100 + c.b,
        crate::palette::rgb_of(hex_number(hex_color(c).skip(2)) as i64) == Ok::<
            Rgb,
            crate::palette::SchemeError,
        >(c),
{
    reveal_strlit("0x");
    let all = hex_color(c).skip(2);
    let d = seq![
        hex_digit(c.r as int / 16),
        hex_digit(c.r as int % 16),
        hex_digit(c.g as int / 16),
        hex_digit(c.g as int % 16),
        hex_digit(c.b as int / 16),
        hex_digit(c.b as int % 16),
    ];
    assert(all =~= d);
    let d5 = d.drop_last();
    let d4 = d5.drop_last();
    let d3 = d4.drop_last();
    let d2 = d3.drop_last();
    let d1 = d2.drop_last();
    reveal_with_fuel(hex_number, 7);
    assert(d1.drop_last() =~= Seq::<char>::empty());
    assert(hex_number(d1) == c.r as int / 16);
    assert(hex_number(d2) == c.r as int);
    assert(hex_number(d4) == c.r * 256 + c.g);
    assert(hex_number(d) == c.r * 0x1_0000 + c.g * 0x100 + c.b);
    crate::palette::hex_colour_round_trips(c.r, c.g, c.b);
}

/// The grid's buffers are sized for two quads in every cell of the rows, of the
/// eighteen rows above them and below, and of the rows behind the tab bar, and for
/// ten quads more. A quad has four vertices of 72 bytes and six indices of four.
pub proof fn buffers_are_sized_by_quads(
    cols: usize,
    rows: usize,
    top_inset_rows: usize,
    bytes: (usize, usize),
)
    requires
        call_ensures(grid_buffer_byte_sizes, (cols, rows, top_inset_rows), bytes),
    ensures
        ({
            let quads = 2 * cols * (18 + rows + 18 + top_inset_rows) + 10;
            &&& bytes.0 == 288 * quads
            &&& bytes.1 == 24 * quads
        }),
{
    let band = band_rows(rows as int, top_inset_rows as int);
    assert(band == 18 + rows + 18 + top_inset_rows);
    assert(2 * cols * band == 2 * cols * (18 + rows + 18 + top_inset_rows)) by (nonlinear_arith)
        requires
            band == 18 + rows + 18 + top_inset_rows,
    ;
}

/// The grid has as many whole columns and rows as the pixels hold, but never less
/// than one column and four rows.
pub proof fn grid_fills_the_pixels(
    inner_width: usize,
    inner_height: usize,
    advance_x: usize,
    line_height: usize,
    size: ViewportSize,
)
    requires
        call_ensures(get_viewport_size, (inner_width, inner_height, advance_x, line_height), size),
        advance_x > 0,
        line_height > 0,
    ensures
        size.char_width >= 1,
        size.char_width * advance_x <= inner_width || size.char_width == 1,
        inner_width < (size.char_width + 1) * advance_x,
        size.char_height >= 4,
        size.char_height * line_height <= inner_height || size.char_height == 4,
        inner_height < (size.char_height + 1) * line_height,
{
    let w = inner_width as int;
    let h = inner_height as int;
    let a = advance_x as int;
    let l = line_height as int;
    vstd::arithmetic::div_mod::lemma_fundamental_div_mod(w, a);
    vstd::arithmetic::div_mod::lemma_fundamental_div_mod(h, l);
    let q = w / a;
    let r = h / l;
    assert(q * a <= w && w < (q + 1) * a) by (nonlinear_arith)
        requires
            w == a * q + w % a,
            0 <= w % a < a,
    ;
    assert(r * l <= h && h < (r + 1) * l) by (nonlinear_arith)
        requires
            h == l * r + h % l,
            0 <= h % l < l,
    ;
    if w < a {
        assert(w < 2 * a);
    }
    if r < 4 {
        assert((r + 1) * l <= 5 * l) by (nonlinear_arith)
            requires
                r < 4,
                l > 0,
        ;
    }
}

/// Programs are told the grid, and its size in pixels as far as 65535 goes.
pub proof fn programs_are_told_the_grid(
    cols: usize,
    rows: usize,
    cell_w: u32,
    line_h: u32,
    size: PtySize,
)
    requires
        call_ensures(notify_pty_size, (cols, rows, cell_w, line_h), size),
        cols <= u16::MAX,
        rows <= u16::MAX,
    ensures
        size.cols == cols && size.rows == rows,
        size.xpixel == if cols * cell_w <= 65535 {
            cols * cell_w
        } else {
            65535
        },
        size.ypixel == if rows * line_h <= 65535 {
            rows * line_h
        } else {
            65535
        },
{
    assert(cols as int % 0x1_0000_0000 == cols);
    assert(rows as int % 0x1_0000_0000 == rows);
}

/// A grid of more columns or rows than 16 bits count is told by what is left of
/// them; its pixels are those of as many cells as 32 bits count.
pub proof fn large_grid_is_told_in_part(
    cols: usize,
    rows: usize,
    cell_w: u32,
    line_h: u32,
    size: PtySize,
    n: int,
    m: int,
)
    requires
        call_ensures(notify_pty_size, (cols, rows, cell_w, line_h), size),
    ensures
        0 <= n && n * 0x1_0000 <= cols && cols < (n + 1) * 0x1_0000 ==> size.cols == cols - n
            * 0x1_0000,
        0 <= n && n * 0x1_0000 <= rows && rows < (n + 1) * 0x1_0000 ==> size.rows == rows - n
            * 0x1_0000,
        0 <= m && m * 0x1_0000_0000 <= cols && cols < (m + 1) * 0x1_0000_0000 ==> size.xpixel == if (
        cols - m * 0x1_0000_0000) * cell_w <= 65535 {
            (cols - m * 0x1_0000_0000) * cell_w
        } else {
            65535
        },
        0 <= m && m * 0x1_0000_0000 <= rows && rows < (m + 1) * 0x1_0000_0000 ==> size.ypixel == if (
        rows - m * 0x1_0000_0000) * line_h <= 65535 {
            (rows - m * 0x1_0000_0000) * line_h
        } else {
            65535
        },
{
    if 0 <= m && m * 0x1_0000_0000 <= cols && cols < (m + 1) * 0x1_0000_0000 {
        assert(cols as int % 0x1_0000_0000 == cols - m * 0x1_0000_0000);
    }
    if 0 <= m && m * 0x1_0000_0000 <= rows && rows < (m + 1) * 0x1_0000_0000 {
        assert(rows as int % 0x1_0000_0000 == rows - m * 0x1_0000_0000);
    }
}

/// A resize makes the surface anew unless the window has no area, and tells the
/// programs exactly when the grid is another one.
pub proof fn resize_tells_of_a_new_grid(
    width: u32,
    height: u32,
    grid: ViewportSize,
    cols: usize,
    rows: usize,
    plan: ResizePlan,
)
    requires
        call_ensures(resize, (width, height, grid, cols, rows), plan),
    ensures
        width * height == 0 <==> !plan.reconfigure,
        !plan.notify <==> grid == (ViewportSize { char_width: cols, char_height: rows }),
{
    if width == 0 {
        assert(width * height == 0) by (nonlinear_arith)
            requires
                width == 0,
        ;
    } else if height > 0 {
        assert(width * height > 0) by (nonlinear_arith)
            requires
                width > 0,
                height > 0,
        ;
    } else {
        assert(width * height == 0) by (nonlinear_arith)
            requires
                height == 0,
        ;
    }
}

/// A frame after a change of the contents is built anew, whatever came before and
/// between; a frame after scrolling alone is moved, unless an overlay is open; and a
/// frame after a frame needs nothing.
pub proof fn frame_follows_what_changed(
    drawn: &mut Redraw,
    touched: &mut Redraw,
    scrolled: &mut Redraw,
    both: &mut Redraw,
    overlay_open: bool,
    flush: Flush,
    request: bool,
    again: &mut Redraw,
    last: &mut Redraw,
    after_touch: Flush,
    after_scroll: Flush,
)
    requires
        call_ensures(Redraw::flush_vertices, (drawn,), flush),
        *old(touched) == *final(drawn),
        *old(scrolled) == *final(drawn),
        call_ensures(Redraw::invalidate, (touched,), request),
        call_ensures(Redraw::invalidate_scroll, (scrolled, overlay_open), ()),
        *old(both) == *final(touched),
        call_ensures(Redraw::invalidate_scroll, (both, overlay_open), ()),
        *old(again) == *final(both),
        call_ensures(Redraw::flush_vertices, (again,), after_touch),
        *old(last) == *final(scrolled),
        call_ensures(Redraw::flush_vertices, (last,), after_scroll),
    ensures
        !final(drawn).vertices_dirty && !final(drawn).scroll_only_dirty,
        final(drawn).render_pending == old(drawn).render_pending,
        flush is Keep <==> !old(drawn).vertices_dirty && !old(drawn).scroll_only_dirty,
        flush is Rebuild <==> old(drawn).vertices_dirty,
        request <==> !old(touched).render_pending,
        final(touched).render_pending == old(touched).render_pending,
        final(touched).vertices_dirty,
        final(touched).scroll_only_dirty == old(touched).scroll_only_dirty,
        final(scrolled).render_pending == old(scrolled).render_pending,
        final(both).render_pending == old(both).render_pending,
        after_touch is Rebuild,
        overlay_open ==> after_scroll is Rebuild,
        !overlay_open ==> after_scroll is Slide,
{
}

/// Drawing takes a target: without one nothing changes, with one a frame that was
/// put off is no longer due.
pub proof fn drawing_takes_a_target(redraw: &mut Redraw, target_available: bool, draw: bool)
    requires
        call_ensures(Redraw::render_now, (redraw, target_available), draw),
    ensures
        draw == target_available,
        final(redraw).vertices_dirty == old(redraw).vertices_dirty,
        final(redraw).scroll_only_dirty == old(redraw).scroll_only_dirty,
        final(redraw).render_pending <==> old(redraw).render_pending && !target_available,
{
}

/// A window is not drawn when it is covered, unless it has the focus.
pub proof fn focus_outranks_occlusion(occluded: bool, focused: bool, b: bool)
    requires
        call_ensures(hidden, (occluded, focused), b),
    ensures
        focused ==> !b,
        !focused ==> b == occluded,
{
}

/// The next epoch is one more; after the largest comes zero. So two epochs that
/// follow each other differ.
pub proof fn epochs_count_up(epoch: u64, next: u64)
    requires
        call_ensures(invalidate_row_cache, (epoch,), next),
    ensures
        next == epoch + 1 || (epoch == u64::MAX && next == 0),
{
}

/// Ids count up from the next one, and after the largest comes zero.
pub proof fn ids_count_up(ids: &mut Ids, id: u64)
    requires
        call_ensures(Ids::next_tab_id, (ids,), id),
    ensures
        id == old(ids).next,
        final(ids).next == id + 1 || (id == u64::MAX && final(ids).next == 0),
{
}

/// A tab group is named by its id in decimal, and takes one id.
pub proof fn groups_are_named_by_their_ids(
    ids: &mut Ids,
    name: String,
    tenth: &mut Ids,
    tenth_name: String,
)
    requires
        call_ensures(Ids::next_tab_group_id, (ids,), name),
        call_ensures(Ids::next_tab_group_id, (tenth,), tenth_name),
        old(tenth).next == old(ids).next / 10,
    ensures
        ({
            let n = old(ids).next;
            let last = (48 + n % 10) as char;
            let next = final(ids).next;
            &&& next == n + 1 || (n == u64::MAX && next == 0)
            &&& n < 10 ==> name@ == "yutani-tabgroup-"@.push(last)
            &&& n >= 10 ==> name@ == tenth_name@.push(last)
        }),
{
    let n = old(ids).next;
    let last = (48 + n % 10) as char;
    reveal_with_fuel(decimal, 2);
    if n < 10 {
        assert(name@ =~= "yutani-tabgroup-"@.push(last));
    } else {
        assert(name@ =~= tenth_name@.push(last));
    }
}

/// The digits from 1 to 8 name the tabs in order, where there are that many; 9
/// names the last one.
pub proof fn digits_name_tabs(n: int, num_tabs: usize, index: Option<usize>, last: Option<usize>)
    requires
        1 <= n <= 8,
        call_ensures(tab_index_for_digit, ((48 + n) as char, num_tabs), index),
        call_ensures(tab_index_for_digit, ('9', num_tabs), last),
    ensures
        n <= num_tabs ==> index == Some((n - 1) as usize),
        n > num_tabs ==> index is None,
        last is Some,
        num_tabs > 0 ==> last->0 + 1 == num_tabs,
        num_tabs == 0 ==> last->0 == 0,
{
}

/// A program other than the shell is in the foreground when there is a group
/// there, and it is not the shell's.
pub proof fn foreign_command_is_not_the_shell(group: i32, shell: i32, b: bool)
    requires
        call_ensures(fg_is_foreign_command, (group, shell), b),
    ensures
        group <= 0 ==> !b,
        group == shell ==> !b,
        group > 0 && group != shell ==> b,
{
}

/// The home is `~`, what lies in it starts with `~/`, other directories are given
/// as they are, and nothing and the root are given by the program's name.
pub proof fn title_is_the_directory(
    cwd: &str,
    home: &str,
    rest: Seq<char>,
    title: String,
    anywhere: String,
)
    requires
        call_ensures(title_for_cwd, (cwd, Some(home)), title),
        call_ensures(title_for_cwd, (cwd, None), anywhere),
    ensures
        cwd@ == home@ ==> title@ == seq!['~'],
        cwd@ == home@.push('/') + rest ==> title@ == seq!['~', '/'] + rest,
        !home@.is_prefix_of(cwd@) || (cwd@.len() > home@.len() && cwd@[home@.len() as int] != '/')
            ==> title@ == anywhere@,
        cwd@.len() == 0 || cwd@ == seq!['/'] ==> anywhere@ == seq![
            'Y',
            'u',
            't',
            'a',
            'n',
            'i',
        ],
        cwd@.len() > 0 && cwd@ != seq!['/'] ==> anywhere@ == cwd@,
{
    reveal_strlit("~");
    reveal_strlit("~/");
    reveal_strlit("/");
    reveal_strlit("Yutani");
    let base = home@.push('/');
    assert("/"@ =~= seq!['/']);
    assert("~"@ =~= seq!['~']);
    assert("~/"@ =~= seq!['~', '/']);
    assert("Yutani"@ =~= seq!['Y', 'u', 't', 'a', 'n', 'i']);
    assert("~"@[0] != "/"@[0]);
    assert("/"@.len() == 1 && "~/"@.len() == 2);
    if cwd@ == base + rest {
        assert(cwd@.len() > home@.len());
        assert(base =~= cwd@.subrange(0, base.len() as int));
        assert(base.is_prefix_of(cwd@));
        assert(cwd@.skip(home@.len() as int + 1) =~= rest);
        assert(title@.len() >= 2);
    }
    if !home@.is_prefix_of(cwd@) || (cwd@.len() > home@.len() && cwd@[home@.len() as int] != '/') {
        if cwd@ == home@ {
            assert(home@ =~= cwd@.subrange(0, home@.len() as int));
            assert(home@.is_prefix_of(cwd@));
        }
        if base.is_prefix_of(cwd@) {
            assert(base[home@.len() as int] == '/');
            assert(home@ =~= cwd@.subrange(0, home@.len() as int)) by {
                assert forall|i: int| 0 <= i < home@.len() implies home@[i] == cwd@[i] by {
                    assert(base[i] == home@[i]);
                }
            }
            assert(home@.is_prefix_of(cwd@));
            assert(cwd@[home@.len() as int] == base[home@.len() as int]);
        }
    }
}

/// A title that a program set goes before the directory's, and the directory's
/// before the name of the program.
pub proof fn set_title_goes_first(
    manual: &str,
    cwd: &str,
    home: Option<&str>,
    set: String,
    named: String,
    of_cwd: String,
    bare: String,
    any: Option<&str>,
)
    requires
        call_ensures(effective_title, (Some(manual), any, home), set),
        call_ensures(effective_title, (None, Some(cwd), home), named),
        call_ensures(title_for_cwd, (cwd, home), of_cwd),
        call_ensures(effective_title, (None, None, home), bare),
    ensures
        set@ == manual@,
        named@ == of_cwd@,
        bare@ == seq!['Y', 'u', 't', 'a', 'n', 'i'],
{
    reveal_strlit("Yutani");
    assert("Yutani"@ =~= seq!['Y', 'u', 't', 'a', 'n', 'i']);
}

/// A double click on the title bar minimizes or does nothing where the setting says
/// so, and zooms otherwise.
pub proof fn double_click_follows_the_setting(
    setting: &str,
    action: TitlebarDoubleClickAction,
    without: TitlebarDoubleClickAction,
)
    requires
        call_ensures(titlebar_double_click_action, (Some(setting),), action),
        call_ensures(titlebar_double_click_action, (None,), without),
    ensures
        action is Minimize <==> setting@ == seq!['M', 'i', 'n', 'i', 'm', 'i', 'z', 'e'],
        action is Nothing <==> setting@ == seq!['N', 'o', 'n', 'e'],
        without is Zoom,
{
    reveal_strlit("Minimize");
    reveal_strlit("None");
    assert("Minimize"@ =~= seq!['M', 'i', 'n', 'i', 'm', 'i', 'z', 'e']);
    assert("None"@ =~= seq!['N', 'o', 'n', 'e']);
    assert("Minimize"@.len() == 8 && "None"@.len() == 4);
}

/// A colour is written as `0x` and two digits each for red, green and blue, the
/// larger digit first; the digits are those of "0123456789abcdef".
pub proof fn colour_is_written_in_hexadecimal(c: Rgb, text: String)
    requires
        call_ensures(format_hex_rgb, (c,), text),
    ensures
        ({
            let digits = "0123456789abcdef"@;
            text@ == seq![
                '0',
                'x',
                digits[c.r as int / 16],
                digits[c.r as int % 16],
                digits[c.g as int / 16],
                digits[c.g as int % 16],
                digits[c.b as int / 16],
                digits[c.b as int % 16],
            ]
        }),
{
    reveal_strlit("0123456789abcdef");
    reveal_strlit("0x");
    let digits = "0123456789abcdef"@;
    assert forall|d: int| 0 <= d < 16 implies #[trigger] hex_digit(d) == digits[d] by {
        assert(d == 0 || d == 1 || d == 2 || d == 3 || d == 4 || d == 5 || d == 6 || d == 7
            || d == 8 || d == 9 || d == 10 || d == 11 || d == 12 || d == 13 || d == 14 || d == 15);
        assert(digits[0] == '0' && digits[1] == '1' && digits[2] == '2' && digits[3] == '3'
            && digits[4] == '4' && digits[5] == '5' && digits[6] == '6' && digits[7] == '7');
        assert(digits[8] == '8' && digits[9] == '9' && digits[10] == 'a' && digits[11] == 'b'
            && digits[12] == 'c' && digits[13] == 'd' && digits[14] == 'e' && digits[15] == 'f');
    }
    assert(text@ =~= seq![
        '0',
        'x',
        digits[c.r as int / 16],
        digits[c.r as int % 16],
        digits[c.g as int / 16],
        digits[c.g as int % 16],
        digits[c.b as int / 16],
        digits[c.b as int % 16],
    ]);
}

/// A paste is the text in UTF-8; a bracketed one stands between the escape
/// sequences `CSI 200 ~` and `CSI 201 ~`.
pub proof fn paste_is_bracketed_on_request(text: &str, plain: Vec<u8>, bracketed: Vec<u8>)
    requires
        call_ensures(paste_bytes, (text, false), plain),
        call_ensures(paste_bytes, (text, true), bracketed),
    ensures
        plain@ == encode_utf8(text@),
        bracketed@ == seq![27u8, 91, 50, 48, 48, 126] + plain@ + seq![27u8, 91, 50, 48, 49, 126],
{
}

proof fn run_glyphs_are_the_marks(text: Seq<char>)
    requires
        text.len() <= usize::MAX,
    ensures
        forall|k: int|
            0 <= k < run_glyphs(text).len() ==> (#[trigger] run_glyphs(text)[k]).0 < text.len()
                && run_glyphs(text)[k].1 == text[run_glyphs(text)[k].0 as int]
                && run_glyphs(text)[k].1 != ' ',
        forall|j: int, k: int|
            0 <= j < k < run_glyphs(text).len() ==> (#[trigger] run_glyphs(text)[j]).0 < (
            #[trigger] run_glyphs(text)[k]).0,
        forall|i: int|
            0 <= i < text.len() && (#[trigger] text[i]) != ' ' ==> run_glyphs(text).contains(
                (i as usize, text[i]),
            ),
    decreases text.len(),
{
    if text.len() > 0 {
        let head = text.drop_last();
        run_glyphs_are_the_marks(head);
        let before = run_glyphs(head);
        let all = run_glyphs(text);
        assert forall|k: int| 0 <= k < all.len() implies (#[trigger] all[k]).0 < text.len()
            && all[k].1 == text[all[k].0 as int] && all[k].1 != ' ' by {
            if k < before.len() {
                assert(all[k] == before[k]);
            }
        }
        assert forall|j: int, k: int| 0 <= j < k < all.len() implies (#[trigger] all[j]).0 < (
        #[trigger] all[k]).0 by {
            assert(all[j] == before[j]);
            if k < before.len() {
                assert(all[k] == before[k]);
            }
        }
        assert forall|i: int| 0 <= i < text.len() && (#[trigger] text[i]) != ' ' implies all.contains(
            (i as usize, text[i]),
        ) by {
            if i < head.len() {
                assert(head[i] == text[i]);
                assert(before.contains((i as usize, head[i])));
                let k = choose|k: int|
                    0 <= k < before.len() && before[k] == (i as usize, head[i]);
                assert(all[k] == before[k]);
            } else {
                assert(all[before.len() as int] == (i as usize, text[i]));
            }
        }
    }
}

/// A run advances by its characters as far as they fit, and has a glyph in the
/// column of each of these that is no space, from left to right.
pub proof fn run_has_a_glyph_for_each_mark(
    text: &str,
    fits: usize,
    run: TextRun,
    j: int,
    k: int,
    i: int,
)
    requires
        call_ensures(emit_text_run, (text, fits), run),
        text@.len() <= usize::MAX,
    ensures
        run.cells == fits || run.cells == text@.len(),
        run.cells <= fits && run.cells <= text@.len(),
        0 <= k < run.glyphs@.len() ==> run.glyphs@[k].0 < run.cells && run.glyphs@[k].1
            == text@[run.glyphs@[k].0 as int] && run.glyphs@[k].1 != ' ',
        0 <= j < k < run.glyphs@.len() ==> run.glyphs@[j].0 < run.glyphs@[k].0,
        0 <= i < run.cells && text@[i] != ' ' ==> run.glyphs@.contains((i as usize, text@[i])),
{
    let part = text@.take(run.cells as int);
    run_glyphs_are_the_marks(part);
    if 0 <= i < run.cells {
        assert(part[i] == text@[i]);
    }
    if 0 <= k < run.glyphs@.len() {
        assert(run_glyphs(part)[k] == run.glyphs@[k]);
        if 0 <= j < k {
            assert(run_glyphs(part)[j] == run.glyphs@[j]);
        }
    }
}

/// One glyph more is drawn behind the others when its box has width and height, and
/// left out otherwise. The drawn glyphs have six indices each, by which its two
/// triangles share the vertices 1 and 2 of its four.
pub proof fn glyphs_are_drawn_one_by_one(
    glyphs: &Vec<(usize, char)>,
    boxes: &Vec<(u32, u32)>,
    more_glyphs: &Vec<(usize, char)>,
    more_boxes: &Vec<(u32, u32)>,
    first_vertex: u32,
    indices: &mut Vec<u32>,
    more_indices: &mut Vec<u32>,
    drawn: Vec<(usize, char)>,
    more_drawn: Vec<(usize, char)>,
    k: int,
)
    requires
        call_ensures(draw_text_run, (glyphs, boxes, first_vertex, indices), drawn),
        call_ensures(
            draw_text_run,
            (more_glyphs, more_boxes, first_vertex, more_indices),
            more_drawn,
        ),
        boxes@.len() == glyphs@.len(),
        more_boxes@.len() == more_glyphs@.len(),
        more_glyphs@.len() == glyphs@.len() + 1,
        more_glyphs@.drop_last() == glyphs@,
        more_boxes@.drop_last() == boxes@,
        first_vertex + 4 * more_glyphs@.len() <= u32::MAX,
    ensures
        glyphs@.len() == 0 ==> drawn@.len() == 0,
        more_boxes@.last().0 > 0 && more_boxes@.last().1 > 0 ==> more_drawn@ == drawn@.push(
            more_glyphs@.last(),
        ),
        more_boxes@.last().0 == 0 || more_boxes@.last().1 == 0 ==> more_drawn@ == drawn@,
        final(indices)@.len() == old(indices)@.len() + 6 * drawn@.len(),
        final(indices)@.take(old(indices)@.len() as int) == old(indices)@,
        0 <= k < drawn@.len() ==> ({
            let at = old(indices)@.len() + 6 * k;
            let v = first_vertex + 4 * k;
            &&& final(indices)@[at] == v
            &&& final(indices)@[at + 1] == v + 1
            &&& final(indices)@[at + 2] == v + 2
            &&& final(indices)@[at + 3] == v + 1
            &&& final(indices)@[at + 4] == v + 2
            &&& final(indices)@[at + 5] == v + 3
        }),
{
    drawn_looks_at_its_own_boxes(glyphs@, boxes@, more_boxes@);
    assert(final(indices)@.take(old(indices)@.len() as int) =~= old(indices)@);
    if 0 <= k < drawn@.len() {
        let first = first_vertex as int;
        let run = run_indices(first, drawn@.len());
        assert forall|j: int| 0 <= j < 6 implies #[trigger] run[6 * k + j] == (first + 4 * k
            + quad_corner(j)) as u32 by {
            vstd::arithmetic::div_mod::lemma_fundamental_div_mod_converse(6 * k + j, 6, k, j);
        }
        assert(final(indices)@[old(indices)@.len() + 6 * k] == run[6 * k + 0]);
        assert(final(indices)@[old(indices)@.len() + 6 * k + 1] == run[6 * k + 1]);
        assert(final(indices)@[old(indices)@.len() + 6 * k + 2] == run[6 * k + 2]);
        assert(final(indices)@[old(indices)@.len() + 6 * k + 3] == run[6 * k + 3]);
        assert(final(indices)@[old(indices)@.len() + 6 * k + 4] == run[6 * k + 4]);
        assert(final(indices)@[old(indices)@.len() + 6 * k + 5] == run[6 * k + 5]);
    }
}

proof fn drawn_looks_at_its_own_boxes(
    glyphs: Seq<(usize, char)>,
    boxes: Seq<(u32, u32)>,
    more: Seq<(u32, u32)>,
)
    requires
        glyphs.len() <= boxes.len() <= more.len(),
        forall|i: int| 0 <= i < boxes.len() ==> boxes[i] == more[i],
    ensures
        drawn_glyphs(glyphs, boxes) == drawn_glyphs(glyphs, more),
    decreases glyphs.len(),
{
    if glyphs.len() > 0 {
        drawn_looks_at_its_own_boxes(glyphs.drop_last(), boxes, more);
    }
}

/// A quad adds two triangles that share an edge: top left, bottom left, top right,
/// and bottom left, top right, bottom right.
pub proof fn quad_is_two_triangles(indices: &mut Vec<u32>, start: u32)
    requires
        call_ensures(push_quad_indices, (indices, start), ()),
        start + 3 <= u32::MAX,
    ensures
        final(indices)@.len() == old(indices)@.len() + 6,
        final(indices)@.take(old(indices)@.len() as int) == old(indices)@,
        ({
            let new = final(indices)@.skip(old(indices)@.len() as int);
            &&& new[0] == start && new[1] == start + 1 && new[2] == start + 2
            &&& new[3] == new[1] && new[4] == new[2] && new[5] == start + 3
        }),
{
    assert(final(indices)@.take(old(indices)@.len() as int) =~= old(indices)@);
}

} // verus!
