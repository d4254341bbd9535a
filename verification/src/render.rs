use vstd::prelude::*;
use crate::config::{bg0, bg1, cursor_color, mouse_hoover, Rgb, LINECOUNTERWIDTH};
use crate::fsnodetypes::{FSnode, ListView};
use crate::modality::{views, Command, CommandView, Mode};

verus! {

/// Height in pixels of one line of the list.
pub open spec fn line_height() -> int {
    20
}

impl FSnode {
    /// Height in pixels of the node's line.
    pub fn get_height(&self) -> (h: i32)
        ensures
            h == line_height(),
    {
        20
    }
}

/// Which line of the list is under the mouse at height `y`, when the list is
/// shown from line `viewpos` in a window `win_h` pixels high (as the window
/// reports it, read as an `i32`); lines that would reach into the last 20
/// pixels are not shown.
pub open spec fn line_under_mouse(len: int, viewpos: int, y: int, win_h: int) -> Option<usize> {
    if y >= 0 && y / 20 < len - viewpos && 20 * (y / 20) + 40 <= win_h {
        Some((viewpos + y / 20) as usize)
    } else {
        None
    }
}

/// The index, in `list_view`, of the line under the mouse at `mousepos`,
/// when the list is shown from line `viewpos` in a window of size `winsize`.
pub fn mouse_pos_as_list_index(
    mousepos: (i32, i32),
    list_view: &ListView,
    viewpos: usize,
    winsize: (u32, u32),
) -> (r: Option<usize>)
    requires
        viewpos <= list_view@.len(),
        !((winsize.1 as i32) >= 2147483640 && list_view@.len() - viewpos > 107374181 && (
        mousepos.1 < 0 || mousepos.1 >= 2147483620)),
    ensures
        r == line_under_mouse(
            list_view@.len() as int,
            viewpos as int,
            mousepos.1 as int,
            (winsize.1 as i32) as int,
        ),
{
    let win_h = #[verifier::truncate] (winsize.1 as i32);
    let y = mousepos.1;
    let count = list_view.len() - viewpos;
    let mut i: usize = 0;
    let mut pos: i64 = 0;
    while i < count
        invariant
            count == list_view@.len() - viewpos,
            list_view@.len() <= usize::MAX,
            win_h == winsize.1 as i32,
            y == mousepos.1,
            viewpos <= list_view@.len(),
            i <= count,
            pos == 20 * i,
            i > 0 ==> 20 * i + 20 <= win_h,
            y < 0 || y >= 20 * i,
        decreases count - i,
    {
        let height: i64 = list_view[viewpos + i].get_height() as i64;
        let nextpos = pos + height;
        if pos + height + 20 > win_h as i64 {
            proof {
                assert(y >= 0 && y / 20 < count && 20 * (y / 20) + 40 <= win_h ==> y / 20 < i) by (nonlinear_arith)
                    requires pos == 20 * i, pos + 40 > win_h;
            }
            return None;
        }
        if pos <= y as i64 && (y as i64) < nextpos {
            proof {
                assert(y / 20 == i) by (nonlinear_arith)
                    requires pos == 20 * i, pos <= y < pos + 20;
            }
            return Some(viewpos + i);
        }
        pos = nextpos;
        i += 1;
    }
    proof {
        if y >= 0 && y / 20 < count {
            let j = y / 20;
            assert(20 * j <= y < 20 * j + 20) by (nonlinear_arith)
                requires j == y / 20, y >= 0;
        }
    }
    None
}


/// One line of the list as drawn.
#[derive(Clone, Copy, PartialEq, Eq, Structural, Debug)]
pub struct Row {
    /// The line's index in the list.
    pub index: usize,
    /// The top of the line, in pixels.
    pub top: i32,
    /// The background of the line.
    pub bg: Rgb,
    /// How many lines away from the cursor the line is (shown beside it).
    pub distance: usize,
    /// Which of the two backgrounds the line number gets.
    pub counter_even: bool,
}

/// What is drawn of the list: its lines, the index just past the last line
/// shown, whether lines were left out for want of room, and the top of the
/// status bar below the lines.
pub struct RowsLayout {
    pub rows: Vec<Row>,
    pub lastvisible: usize,
    pub breaked: bool,
    pub bottom: i32,
}

/// How many lines fit in a window `win_h` pixels high, the last 20 pixels
/// being kept for the status bar.
pub open spec fn rows_fitting(win_h: int) -> int {
    if win_h >= 20 {
        (win_h - 20) / 20
    } else {
        0
    }
}

/// How many lines are drawn: those from `viewpos` on, as many as fit.
pub open spec fn rows_shown(len: int, viewpos: int, win_h: int) -> int {
    if len - viewpos <= rows_fitting(win_h) {
        len - viewpos
    } else {
        rows_fitting(win_h)
    }
}

/// The `k`th line drawn: its index, position, background (the cursor's
/// color, the hover color under the mouse, or the two backgrounds in turn)
/// and distance from the cursor.
pub open spec fn row_spec(k: int, viewpos: int, cursorpos: int, mousepos: int) -> Row {
    let index = viewpos + k;
    Row {
        index: index as usize,
        top: (20 * k) as i32,
        bg: if index == cursorpos {
            crate::config::rgb(0, 0, 140)
        } else if index == mousepos {
            crate::config::rgb(30, 30, 60)
        } else if k % 2 == 1 {
            crate::config::rgb(25, 25, 25)
        } else {
            crate::config::rgb(20, 20, 20)
        },
        distance: (if index >= cursorpos {
            index - cursorpos
        } else {
            cursorpos - index
        }) as usize,
        counter_even: k % 2 == 0,
    }
}

/// Each line drawn is numbered by how many lines it is from the cursor,
/// above the cursor as below it; only the cursor's own line gets 0.
pub proof fn lemma_row_distance(k: int, viewpos: usize, cursorpos: usize, mousepos: usize)
    requires
        0 <= k,
        viewpos + k <= usize::MAX,
    ensures
        ({
            let row = row_spec(k, viewpos as int, cursorpos as int, mousepos as int);
            &&& row.index == viewpos + k
            &&& row.index < cursorpos ==> row.distance == cursorpos - row.index
            &&& row.index >= cursorpos ==> row.distance == row.index - cursorpos
            &&& row.distance == 0 <==> row.index == cursorpos
        }),
{
}

/// Lays out the list shown from line `viewpos` in a window of size
/// `winsize`, with the cursor at `cursorpos` and the mouse over line
/// `mousepos`. When every line left fits, the status bar moves down to the
/// last multiple of 20 pixels that leaves it at least 20 pixels.
pub fn layout_rows(
    list_view: &ListView,
    viewpos: usize,
    cursorpos: usize,
    mousepos: usize,
    winsize: (u32, u32),
) -> (r: RowsLayout)
    requires
        viewpos <= list_view@.len(),
        (winsize.1 as i32) >= i32::MIN + 20,
        list_view@.len() - viewpos <= rows_fitting((winsize.1 as i32) as int) ==> winsize.1 >= 20,
    ensures
        ({
            let len = list_view@.len() as int;
            let win_h = (winsize.1 as i32) as int;
            let k = rows_shown(len, viewpos as int, win_h);
            &&& r.rows@ == Seq::new(
                k as nat,
                |i: int| row_spec(i, viewpos as int, cursorpos as int, mousepos as int),
            )
            &&& forall|j: int|
                0 <= j < r.rows@.len() ==> {
                    let row = #[trigger] r.rows@[j];
                    &&& row.index == viewpos + j
                    &&& row.index < cursorpos ==> row.distance == cursorpos - row.index
                    &&& row.index >= cursorpos ==> row.distance == row.index - cursorpos
                }
            &&& r.lastvisible == viewpos + k
            &&& r.breaked == (len - viewpos > rows_fitting(win_h))
            &&& r.bottom == if r.breaked {
                (20 * k) as i32
            } else {
                (winsize.1 - ((winsize.1 - 20 - 20 * k) % 20 + 20)) as i32
            }
        }),
{
    let win_h = winsize.1 as i32;
    let limit: i64 = win_h as i64 - 20;
    let count = list_view.len() - viewpos;
    let mut rows: Vec<Row> = Vec::new();
    let mut pos: i64 = 0;
    let mut iseven = false;
    let mut i: usize = 0;
    let mut breaked = false;
    while i < count
        invariant_except_break
            count == list_view@.len() - viewpos,
            list_view@.len() <= usize::MAX,
            win_h == winsize.1 as i32,
            limit == win_h - 20,
            i <= count,
            pos == 20 * i,
            i <= rows_fitting(win_h as int),
            iseven == (i % 2 == 1),
            !breaked,
            rows@ =~= Seq::new(
                i as nat,
                |k: int| row_spec(k, viewpos as int, cursorpos as int, mousepos as int),
            ),
        ensures
            i <= count,
            pos == 20 * i,
            breaked ==> i == rows_fitting(win_h as int) && i < count,
            !breaked ==> i == count && i <= rows_fitting(win_h as int),
            rows@ =~= Seq::new(
                i as nat,
                |k: int| row_spec(k, viewpos as int, cursorpos as int, mousepos as int),
            ),
        decreases count - i,
    {
        let index = viewpos + i;
        let height: i64 = list_view[index].get_height() as i64;
        if pos + height > limit {
            proof {
                assert(rows_fitting(win_h as int) <= i) by (nonlinear_arith)
                    requires pos == 20 * i, pos + 20 > limit, limit == win_h - 20;
            }
            breaked = true;
            break;
        }
        proof {
            assert(i + 1 <= rows_fitting(win_h as int)) by (nonlinear_arith)
                requires pos == 20 * i, pos + 20 <= limit, limit == win_h - 20;
        }
        let bg = if index == cursorpos {
            cursor_color()
        } else if index == mousepos {
            mouse_hoover()
        } else if iseven {
            bg0()
        } else {
            bg1()
        };
        iseven = !iseven;
        let distance = if index >= cursorpos {
            index - cursorpos
        } else {
            cursorpos - index
        };
        rows.push(Row { index, top: pos as i32, bg, distance, counter_even: iseven });
        pos = pos + height;
        i += 1;
    }
    let bottom = if !breaked {
        let statusbarpos = winsize.1 - (((winsize.1 - 20 - pos as u32) % 20) + 20);
        statusbarpos as i32
    } else {
        pos as i32
    };
    proof {
        assert forall|j: int| 0 <= j < rows@.len() implies {
            let row = #[trigger] rows@[j];
            &&& row.index == viewpos + j
            &&& row.index < cursorpos ==> row.distance == cursorpos - row.index
            &&& row.index >= cursorpos ==> row.distance == row.index - cursorpos
        } by {
            lemma_row_distance(j, viewpos, cursorpos, mousepos);
        }
    }
    RowsLayout { rows, lastvisible: viewpos + i, breaked, bottom }
}

/// The first line to show after a frame drawn from `viewpos`: one line
/// further when lines were left out and the cursor is not among those
/// shown, then one line back when the view starts past the cursor; and how
/// many of these two steps were taken (each asks for another frame).
pub open spec fn scroll_spec(viewpos: int, cursorpos: int, lastvisible: int, breaked: bool) -> (
    int,
    int,
) {
    let down = breaked && lastvisible < cursorpos + 1;
    let v = if down {
        viewpos + 1
    } else {
        viewpos
    };
    let steps = if down {
        1int
    } else {
        0int
    };
    if v > cursorpos {
        (v - 1, steps + 1)
    } else {
        (v, steps)
    }
}

/// Moves the view towards the cursor (see `scroll_spec`).
pub fn scroll_viewpos(viewpos: usize, cursorpos: usize, lastvisible: usize, breaked: bool) -> (r: (
    usize,
    u8,
))
    requires
        breaked ==> cursorpos < usize::MAX,
        breaked && lastvisible < cursorpos + 1 ==> viewpos < usize::MAX,
    ensures
        (r.0 as int, r.1 as int) == scroll_spec(
            viewpos as int,
            cursorpos as int,
            lastvisible as int,
            breaked,
        ),
{
    let mut v = viewpos;
    let mut bumps: u8 = 0;
    if breaked && lastvisible < cursorpos + 1 {
        v += 1;
        bumps += 1;
    }
    if v > cursorpos {
        v -= 1;
        bumps += 1;
    }
    (v, bumps)
}

/// A view that starts no further than one line past the cursor, and no
/// further than the lines it shows, never starts past the cursor after a
/// step.
pub proof fn lemma_scroll_keeps_cursor_in_view(
    viewpos: int,
    cursorpos: int,
    lastvisible: int,
    breaked: bool,
)
    requires
        0 <= viewpos <= cursorpos + 1,
        viewpos <= lastvisible,
    ensures
        scroll_spec(viewpos, cursorpos, lastvisible, breaked).0 <= cursorpos,
{
}

/// The character of the decimal digit `d`.
pub open spec fn digit_char(d: nat) -> char {
    if d == 0 {
        '0'
    } else if d == 1 {
        '1'
    } else if d == 2 {
        '2'
    } else if d == 3 {
        '3'
    } else if d == 4 {
        '4'
    } else if d == 5 {
        '5'
    } else if d == 6 {
        '6'
    } else if d == 7 {
        '7'
    } else if d == 8 {
        '8'
    } else {
        '9'
    }
}

/// `n` written in decimal, without leading zeros.
pub open spec fn decimal(n: nat) -> Seq<char>
    decreases n,
{
    if n < 10 {
        seq![digit_char(n)]
    } else {
        decimal(n / 10).push(digit_char(n % 10))
    }
}

fn digit_str(d: usize) -> (r: &'static str)
    requires
        d < 10,
    ensures
        r@ == seq![digit_char(d as nat)],
{
    if d == 0 {
        proof { reveal_strlit("0"); }
        "0"
    } else if d == 1 {
        proof { reveal_strlit("1"); }
        "1"
    } else if d == 2 {
        proof { reveal_strlit("2"); }
        "2"
    } else if d == 3 {
        proof { reveal_strlit("3"); }
        "3"
    } else if d == 4 {
        proof { reveal_strlit("4"); }
        "4"
    } else if d == 5 {
        proof { reveal_strlit("5"); }
        "5"
    } else if d == 6 {
        proof { reveal_strlit("6"); }
        "6"
    } else if d == 7 {
        proof { reveal_strlit("7"); }
        "7"
    } else if d == 8 {
        proof { reveal_strlit("8"); }
        "8"
    } else {
        proof { reveal_strlit("9"); }
        "9"
    }
}

/// `n` written in decimal.
pub fn decimal_string(n: usize) -> (r: String)
    ensures
        r@ == decimal(n as nat),
    decreases n,
{
    if n < 10 {
        String::from_str(digit_str(n))
    } else {
        let mut r = decimal_string(n / 10);
        r.append(digit_str(n % 10));
        r
    }
}

/// The text shown in the status bar for a command: its name, or the count
/// in decimal.
pub open spec fn command_label(c: CommandView) -> Seq<char> {
    match c {
        CommandView::Target { name, .. } => name,
        CommandView::Quantifyer(q) => decimal(q as nat),
        CommandView::Manip { name, .. } => name,
        CommandView::Targetless { name, .. } => name,
    }
}

impl Command {
    /// The text shown for the command in the status bar.
    pub fn label(&self) -> (r: String)
        ensures
            r@ == command_label(self@),
    {
        match self {
            Command::Target { name, .. } => name.clone(),
            Command::Quantifyer(q) => decimal_string(*q),
            Command::Manip { name, .. } => name.clone(),
            Command::Targetless { name, .. } => name.clone(),
        }
    }
}

/// The text of the line number of a line `number` lines away from the
/// cursor: none on the cursor's own line, the distance in decimal on the
/// others.
pub fn linecounter_text(number: usize) -> (r: Option<String>)
    ensures
        number == 0 ==> r is None,
        number > 0 ==> (r matches Some(t) && t@ == decimal(number as nat)),
{
    if number == 0 {
        None
    } else {
        Some(decimal_string(number))
    }
}

/// The background of the line number of a line `number` lines away from
/// the cursor: the cursor's own color on the cursor's line, otherwise one
/// of two backgrounds.
pub fn linecounter_color(number: usize, iseven: bool) -> (c: Rgb)
    ensures
        c == if number == 0 {
            crate::config::rgb(30, 30, 100)
        } else if iseven {
            crate::config::rgb(40, 40, 40)
        } else {
            crate::config::rgb(50, 50, 50)
        },
{
    if number == 0 {
        crate::config::cursor_on_linecounter()
    } else if iseven {
        crate::config::linecounter_bg0()
    } else {
        crate::config::linecounter_bg1()
    }
}

/// Where a line number `text_width` pixels wide starts, right-aligned 6
/// pixels from the edge of the column of line numbers.
pub fn linecounter_text_x(text_width: u32) -> (x: u32)
    requires
        text_width <= LINECOUNTERWIDTH - 6,
    ensures
        x == LINECOUNTERWIDTH - text_width - 6,
{
    LINECOUNTERWIDTH - text_width - 6
}


pub open spec fn in_i32(v: int) -> bool {
    i32::MIN <= v <= i32::MAX
}

pub open spec fn in_i16(v: int) -> bool {
    i16::MIN <= v <= i16::MAX
}

/// One bar of the minimap: a line of the list drawn small.
#[derive(Clone, Copy, PartialEq, Eq, Structural, Debug)]
pub struct MinimapBar {
    pub x: i32,
    pub y: i32,
    pub w: u32,
    pub h: u32,
    pub color: Rgb,
}

/// The left edge of a minimap `width` pixels wide at the right of a window
/// `win_w` pixels wide.
pub open spec fn minimap_left(win_w: u32, width: u32) -> int {
    (win_w as i32) - (width as i32)
}

/// The minimap's coordinates fit in an `i32`.
pub open spec fn minimap_fits(s: Seq<FSnode>, left: int) -> bool {
    &&& in_i32(left)
    &&& in_i32(left + 2)
    &&& 2 + 3 * s.len() <= i32::MAX
    &&& forall|k: int|
        0 <= k < s.len() ==> in_i32(#[trigger] s[k].indent_of() * 4) && in_i32(
            left + 2 + s[k].indent_of() * 4,
        )
}

/// The bar of line `k`: indented by its depth, as long as its name has bytes,
/// 3 pixels below the one before, bright when the line is in view.
pub open spec fn minimap_bar(s: Seq<FSnode>, k: int, left: int, viewpos: int, lastvisible: int) -> MinimapBar {
    MinimapBar {
        x: (left + 2 + s[k].indent_of() * 4) as i32,
        y: (2 + 3 * k) as i32,
        w: (s[k].key_bytes().len() as usize) as u32,
        h: 2,
        color: if viewpos <= k < lastvisible {
            crate::config::rgb(255, 255, 255)
        } else {
            crate::config::rgb(200, 200, 200)
        },
    }
}

/// The bars of the minimap of the whole list, `width` pixels wide at the
/// right of a window `win_w` pixels wide, the lines from `viewpos` up to
/// `lastvisible` being those in view.
pub fn minimap_bars(
    list_view: &ListView,
    viewpos: usize,
    lastvisible: usize,
    win_w: u32,
    width: u32,
) -> (r: Vec<MinimapBar>)
    requires
        minimap_fits(list_view@, minimap_left(win_w, width)),
    ensures
        r@ == Seq::new(
            list_view@.len(),
            |k: int|
                minimap_bar(
                    list_view@,
                    k,
                    minimap_left(win_w, width),
                    viewpos as int,
                    lastvisible as int,
                ),
        ),
{
    let xpos: i32 = (win_w as i32) - (width as i32);
    let mut bars: Vec<MinimapBar> = Vec::new();
    let mut pos: i32 = 2;
    let mut i: usize = 0;
    while i < list_view.len()
        invariant
            i <= list_view@.len(),
            xpos == minimap_left(win_w, width),
            minimap_fits(list_view@, xpos as int),
            pos == 2 + 3 * i,
            bars@ =~= Seq::new(
                i as nat,
                |k: int| minimap_bar(list_view@, k, xpos as int, viewpos as int, lastvisible as int),
            ),
        decreases list_view@.len() - i,
    {
        let node = &list_view[i];
        let color = if viewpos <= i && i < lastvisible {
            crate::config::minimap_fg_viewport()
        } else {
            crate::config::minimap_fg()
        };
        let indent = node.get_indent();
        let entrheight: u32 = (node.get_height() as u32) / 10;
        let len = node.get_name().len();
        assert(in_i32(list_view@[i as int].indent_of() * 4));
        bars.push(
            MinimapBar { x: xpos + 2 + (indent * 4), y: pos, w: len as u32, h: entrheight, color },
        );
        pos += entrheight as i32 + 1;
        i += 1;
    }
    bars
}

/// Whether the minimap of `list_view`, `width` pixels wide in a window
/// `win_w` pixels wide, has coordinates that fit in an `i32`.
pub fn minimap_fits_exec(list_view: &ListView, win_w: u32, width: u32) -> (r: bool)
    ensures
        r == minimap_fits(list_view@, minimap_left(win_w, width)),
{
    let left: i64 = (win_w as i32) as i64 - (width as i32) as i64;
    if left < i32::MIN as i64 || left > i32::MAX as i64 || left + 2 > i32::MAX as i64 {
        return false;
    }
    let n = list_view.len();
    if n > (i32::MAX as usize - 2) / 3 {
        return false;
    }
    let mut i: usize = 0;
    while i < n
        invariant
            n == list_view@.len(),
            i <= n,
            left == minimap_left(win_w, width),
            forall|k: int|
                0 <= k < i ==> in_i32(#[trigger] list_view@[k].indent_of() * 4) && in_i32(
                    left + 2 + list_view@[k].indent_of() * 4,
                ),
        decreases n - i,
    {
        let quad: i64 = list_view[i].get_indent() as i64 * 4;
        if quad < i32::MIN as i64 || quad > i32::MAX as i64 || left + 2 + quad < i32::MIN as i64
            || left + 2 + quad > i32::MAX as i64 {
            return false;
        }
        i += 1;
    }
    true
}

/// The minimap's bars, or `None` when its coordinates do not fit in an `i32`.
pub fn minimap_bars_checked(
    list_view: &ListView,
    viewpos: usize,
    lastvisible: usize,
    win_w: u32,
    width: u32,
) -> (r: Option<Vec<MinimapBar>>)
    ensures
        !minimap_fits(list_view@, minimap_left(win_w, width)) ==> r is None,
        minimap_fits(list_view@, minimap_left(win_w, width)) ==> (r matches Some(bars) && bars@
            == Seq::new(
            list_view@.len(),
            |k: int|
                minimap_bar(
                    list_view@,
                    k,
                    minimap_left(win_w, width),
                    viewpos as int,
                    lastvisible as int,
                ),
        )),
{
    if minimap_fits_exec(list_view, win_w, width) {
        Some(minimap_bars(list_view, viewpos, lastvisible, win_w, width))
    } else {
        None
    }
}

/// The color of a command in the status bar.
pub open spec fn command_color(c: CommandView) -> Rgb {
    match c {
        CommandView::Manip { .. } => crate::config::rgb(200, 200, 45),
        CommandView::Target { .. } => crate::config::rgb(125, 125, 200),
        CommandView::Quantifyer(_) => crate::config::rgb(200, 125, 200),
        CommandView::Targetless { .. } => crate::config::rgb(125, 200, 125),
    }
}

impl Command {
    /// The color of the command in the status bar.
    pub fn color(&self) -> (c: Rgb)
        ensures
            c == command_color(self@),
    {
        match self {
            Command::Manip { .. } => crate::config::com_manip_color(),
            Command::Target { .. } => crate::config::com_target_color(),
            Command::Quantifyer(_) => crate::config::com_quantifyer_color(),
            Command::Targetless { .. } => crate::config::com_targetless_color(),
        }
    }
}

/// The commands the status bar shows: those typed so far, or the last
/// sequence run when nothing is typed.
pub open spec fn shown_commands(mode: Mode) -> Seq<CommandView> {
    if mode.commandseq@.len() == 0 {
        views(mode.executedseq@)
    } else {
        views(mode.commandseq@)
    }
}

/// The total width of the first `k` command boxes, each 20 pixels wider
/// than its label.
pub open spec fn boxes_width(ws: Seq<u32>, k: int) -> int
    decreases k,
{
    if k <= 0 {
        0
    } else {
        boxes_width(ws, k - 1) + ws[k - 1] + 20
    }
}

/// One command box of the status bar, with the arrows drawn at its edges
/// while a sequence is being typed.
#[derive(Clone, Copy, PartialEq, Eq, Structural, Debug)]
pub struct StatusSegment {
    pub x: i32,
    pub width: u32,
    pub text_x: i32,
    pub color: Rgb,
    pub arrow_in: Option<Rgb>,
    pub arrow_out: Option<Rgb>,
}

/// The status bar: its height, the top of its text, the width of the mode's
/// box and where the mode's name starts, the count of lines and where it
/// starts, whether it shows the last sequence run (rather than one being
/// typed, marked by an arrow after the mode's box), and the command boxes
/// with their labels.
pub struct StatusLayout {
    pub height: u32,
    pub content_top: i32,
    pub mode_width: u32,
    pub mode_text_x: i32,
    pub total_text: String,
    pub total_x: i32,
    pub executed: bool,
    pub segments: Vec<StatusSegment>,
    pub labels: Vec<String>,
}

/// The labels of the commands the status bar shows, in order.
pub fn shown_labels(mode: &Mode) -> (r: Vec<String>)
    ensures
        r@.len() == shown_commands(*mode).len(),
        forall|k: int| 0 <= k < r@.len() ==> #[trigger] r@[k]@ == command_label(shown_commands(*mode)[k]),
{
    let commandseq = if mode.commandseq.len() == 0 {
        &mode.executedseq
    } else {
        &mode.commandseq
    };
    let ghost shown = views(commandseq@);
    assert(shown == shown_commands(*mode));
    let mut r: Vec<String> = Vec::new();
    let mut i: usize = 0;
    while i < commandseq.len()
        invariant
            i <= commandseq@.len(),
            shown == views(commandseq@),
            r@.len() == i,
            forall|k: int| 0 <= k < i ==> #[trigger] r@[k]@ == command_label(shown[k]),
        decreases commandseq@.len() - i,
    {
        r.push(commandseq[i].label());
        i += 1;
    }
    r
}

/// The count of lines shown in the status bar for a list of `len` lines.
pub fn total_text(len: usize) -> (r: String)
    ensures
        r@ == "total:"@ + decimal(len as nat),
{
    let digits = decimal_string(len);
    String::from_str("total:").concat(digits.as_str())
}

pub open spec fn status_segment(
    shown: Seq<CommandView>,
    ws: Seq<u32>,
    k: int,
    mode_width: int,
    executed: bool,
    mode_color: Rgb,
) -> StatusSegment {
    StatusSegment {
        x: (mode_width + boxes_width(ws, k)) as i32,
        width: (ws[k] + 20) as u32,
        text_x: (mode_width + boxes_width(ws, k) + 10) as i32,
        color: command_color(shown[k]),
        arrow_in: if executed {
            None
        } else if k == 0 {
            Some(mode_color)
        } else {
            Some(command_color(shown[k - 1]))
        },
        arrow_out: if executed {
            None
        } else {
            Some(command_color(shown[k]))
        },
    }
}

/// Lays out the status bar whose top is at `top`, in a window of size
/// `winsize`, for `mode`, whose name is `name_width` pixels wide, the labels
/// of the commands shown (see `shown_labels`) being `label_widths` pixels
/// wide, below the list `list_view`.
pub fn statusbar_layout(
    top: i32,
    winsize: (u32, u32),
    mode: &Mode,
    name_width: u32,
    label_widths: &Vec<u32>,
    list_view: &ListView,
) -> (r: StatusLayout)
    requires
        0 <= top <= winsize.1,
        (winsize.1 as i32) >= i32::MIN + 20,
        winsize.0 >= 100,
        label_widths@.len() == shown_commands(*mode).len(),
        name_width + 60 + boxes_width(label_widths@, label_widths@.len() as int) <= i32::MAX,
    ensures
        r.height == winsize.1 - top,
        r.content_top == (winsize.1 as i32) - 20,
        r.mode_width == name_width + 60,
        r.mode_text_x == 30,
        r.total_text@ == "total:"@ + decimal(list_view@.len()),
        r.total_x == (winsize.0 - 100) as i32,
        r.labels@.len() == shown_commands(*mode).len(),
        forall|k: int|
            0 <= k < r.labels@.len() ==> #[trigger] r.labels@[k]@ == command_label(
                shown_commands(*mode)[k],
            ),
        r.executed == (mode.commandseq@.len() == 0),
        r.segments@ == Seq::new(
            label_widths@.len(),
            |k: int|
                status_segment(
                    shown_commands(*mode),
                    label_widths@,
                    k,
                    name_width + 60,
                    mode.commandseq@.len() == 0,
                    mode.color,
                ),
        ),
{
    proof {
        lemma_boxes_width_monotone(label_widths@, 0, label_widths@.len() as int);
    }
    let height = winsize.1 - top as u32;
    let content_top = (winsize.1 as i32) - 20;
    let mode_width = name_width + 60;
    let total_x = (winsize.0 - 100) as i32;
    let executed = mode.commandseq.len() == 0;
    let commandseq = if executed {
        &mode.executedseq
    } else {
        &mode.commandseq
    };
    let ghost shown = views(commandseq@);
    assert(shown == shown_commands(*mode));
    let mut pos: i64 = mode_width as i64;
    let mut previuscolor = mode.color;
    let mut segments: Vec<StatusSegment> = Vec::new();
    let mut i: usize = 0;
    while i < commandseq.len()
        invariant
            i <= commandseq@.len(),
            commandseq@.len() == label_widths@.len(),
            shown == views(commandseq@),
            mode_width == name_width + 60,
            name_width + 60 + boxes_width(label_widths@, label_widths@.len() as int) <= i32::MAX,
            pos == mode_width + boxes_width(label_widths@, i as int),
            previuscolor == if i == 0 {
                mode.color
            } else {
                command_color(shown[i - 1])
            },
            segments@ =~= Seq::new(
                i as nat,
                |k: int|
                    status_segment(shown, label_widths@, k, mode_width as int, executed, mode.color),
            ),
        decreases commandseq@.len() - i,
    {
        proof {
            lemma_boxes_width_monotone(label_widths@, i + 1, label_widths@.len() as int);
            lemma_boxes_width_monotone(label_widths@, 0, i as int);
        }
        let color = commandseq[i].color();
        let size = label_widths[i] + 20;
        let (arrow_in, arrow_out) = if executed {
            (None, None)
        } else {
            (Some(previuscolor), Some(color))
        };
        segments.push(
            StatusSegment {
                x: pos as i32,
                width: size,
                text_x: (pos + 10) as i32,
                color,
                arrow_in,
                arrow_out,
            },
        );
        pos = pos + size as i64;
        previuscolor = color;
        i += 1;
    }
    let labels = shown_labels(mode);
    let total_text = total_text(list_view.len());
    StatusLayout {
        height,
        content_top,
        mode_width,
        mode_text_x: 30,
        total_text,
        total_x,
        executed,
        segments,
        labels,
    }
}

proof fn lemma_boxes_width_monotone(ws: Seq<u32>, j: int, k: int)
    requires
        0 <= j <= k,
    ensures
        boxes_width(ws, j) <= boxes_width(ws, k),
    decreases k - j,
{
    if j < k {
        lemma_boxes_width_monotone(ws, j, k - 1);
    }
}

/// Where the parts of a line go when its node is drawn at `pos`: the icon,
/// the name, the arrow that shows whether a directory is open, and the top
/// of the next line.
#[derive(Clone, Copy, Debug)]
pub struct NodeLayout {
    pub icon_x: i32,
    pub icon_y: i32,
    pub text_x: i32,
    pub arrow: Option<((i16, i16), (i16, i16), (i16, i16))>,
    pub next_y: i32,
}

/// The arrow of a directory whose corner is at `(gx, gy)`: pointing right
/// when closed, down when open.
pub open spec fn arrow_spec(gx: int, gy: int, opened: bool) -> ((i16, i16), (i16, i16), (i16, i16)) {
    if !opened {
        (
            ((gx + 8) as i16, (gy + 2) as i16),
            ((gx + 14) as i16, (gy + 10) as i16),
            ((gx + 8) as i16, (gy + 18) as i16),
        )
    } else {
        (
            ((gx + 2) as i16, (gy + 8) as i16),
            ((gx + 18) as i16, (gy + 8) as i16),
            ((gx + 10) as i16, (gy + 14) as i16),
        )
    }
}

/// The arrow's corner: the position cut to 16 bits, moved right by the depth.
pub open spec fn arrow_corner(x: i32, y: i32, indent: i32) -> (int, int) {
    ((x as i16) + (indent as i16) * 40, (y as i16) as int)
}

/// The coordinates of a line drawn at `(x, y)` fit in their types.
pub open spec fn node_layout_fits(n: FSnode, x: i32, y: i32) -> bool {
    let ind = n.indent_of() as int;
    &&& in_i32(ind * 40)
    &&& in_i32(ind * 40 + 22)
    &&& in_i32(ind * 40 + 22 + x)
    &&& in_i32(y + 20)
    &&& in_i32(ind * 40 + 40)
    &&& in_i32(ind * 40 + 40 + x)
    &&& in_i32(ind * 40 + x)
    &&& n.is_dir() ==> {
        &&& in_i16((n.indent_of() as i16) * 40)
        &&& in_i16(arrow_corner(x, y, n.indent_of()).0)
        &&& in_i16(arrow_corner(x, y, n.indent_of()).0 + 18)
        &&& in_i16(arrow_corner(x, y, n.indent_of()).1 + 18)
    }
}

fn in_i32_exec(v: i64) -> (r: bool)
    ensures
        r == in_i32(v as int),
{
    i32::MIN as i64 <= v && v <= i32::MAX as i64
}

fn in_i16_exec(v: i64) -> (r: bool)
    ensures
        r == in_i16(v as int),
{
    i16::MIN as i64 <= v && v <= i16::MAX as i64
}

/// Whether the coordinates of node `n` drawn at `(x, y)` fit in their types.
pub fn node_layout_fits_exec(n: &FSnode, x: i32, y: i32) -> (r: bool)
    ensures
        r == node_layout_fits(*n, x, y),
{
    let ind = n.get_indent() as i64;
    let x64 = x as i64;
    let fits32 = in_i32_exec(ind * 40) && in_i32_exec(ind * 40 + 22) && in_i32_exec(
        ind * 40 + 22 + x64,
    ) && in_i32_exec(y as i64 + 20) && in_i32_exec(ind * 40 + 40) && in_i32_exec(
        ind * 40 + 40 + x64,
    ) && in_i32_exec(ind * 40 + x64);
    let is_dir = match n {
        FSnode::DirLike(_) => true,
        FSnode::Leaf(_) => false,
    };
    if !fits32 {
        return false;
    }
    if !is_dir {
        return true;
    }
    let step = (n.get_indent() as i16) as i64 * 40;
    let gx = (x as i16) as i64 + step;
    let gy = (y as i16) as i64;
    in_i16_exec(step) && in_i16_exec(gx) && in_i16_exec(gx + 18) && in_i16_exec(gy + 18)
}

/// Where the parts of node `n` go when it is drawn at `(x, y)`.
pub open spec fn node_layout_spec(n: FSnode, x: i32, y: i32) -> NodeLayout {
    let ind = n.indent_of() as int;
    NodeLayout {
        icon_x: (ind * 40 + 22 + x) as i32,
        icon_y: (y + 2) as i32,
        text_x: (ind * 40 + 40 + x) as i32,
        arrow: match n {
            FSnode::DirLike(d) => Some(
                arrow_spec(
                    arrow_corner(x, y, n.indent_of()).0,
                    arrow_corner(x, y, n.indent_of()).1,
                    d.opened,
                ),
            ),
            FSnode::Leaf(_) => None,
        },
        next_y: (y + 20) as i32,
    }
}

impl FSnode {
    /// Where the parts of this node go when it is drawn at `pos`, or `None`
    /// when the coordinates do not fit in their types.
    pub fn draw_layout_checked(&self, pos: (i32, i32)) -> (r: Option<NodeLayout>)
        ensures
            !node_layout_fits(*self, pos.0, pos.1) ==> r is None,
            node_layout_fits(*self, pos.0, pos.1) ==> (r matches Some(l) && l == node_layout_spec(
                *self,
                pos.0,
                pos.1,
            )),
    {
        if node_layout_fits_exec(self, pos.0, pos.1) {
            Some(self.draw_layout(pos))
        } else {
            None
        }
    }

    /// Where the parts of this node go when it is drawn at `pos`: the
    /// 16-pixel icon 22 pixels right of the depth's indentation, the name 40
    /// pixels right of it, and for a directory its arrow.
    pub fn draw_layout(&self, pos: (i32, i32)) -> (r: NodeLayout)
        requires
            node_layout_fits(*self, pos.0, pos.1),
        ensures
            r == node_layout_spec(*self, pos.0, pos.1),
    {
        match self {
            FSnode::DirLike(d) => {
                let gpos: (i16, i16) = ((pos.0 as i16) + (d.indent as i16 * 40), pos.1 as i16);
                let arrow = if !d.opened {
                    (
                        (gpos.0 + 8, gpos.1 + 2),
                        (gpos.0 + 14, gpos.1 + 10),
                        (gpos.0 + 8, gpos.1 + 18),
                    )
                } else {
                    (
                        (gpos.0 + 2, gpos.1 + 8),
                        (gpos.0 + 18, gpos.1 + 8),
                        (gpos.0 + 10, gpos.1 + 14),
                    )
                };
                NodeLayout {
                    icon_x: d.indent * 40 + 22 + pos.0,
                    icon_y: pos.1 + 2,
                    text_x: d.indent * 40 + pos.0 + 40,
                    arrow: Some(arrow),
                    next_y: pos.1 + 20,
                }
            },
            FSnode::Leaf(f) => NodeLayout {
                icon_x: f.indent * 40 + 22 + pos.0,
                icon_y: pos.1 + 2,
                text_x: f.indent * 40 + 40 + pos.0,
                arrow: None,
                next_y: pos.1 + 20,
            },
        }
    }
}

} // verus!
