//! The status screen that the GUI task draws: coloured panels, the banner,
//! the uptime in ticks and the number of files on the ramdisk.
use vstd::prelude::*;
use vstd::string::StringExecFns;
use crate::drivers::{Color, DrawCommand, GuiDriver, gui_gate};
use crate::ts::TsContext;

verus! {

pub const COLOR_BLACK: u8 = 0;
pub const COLOR_BLUE: u8 = 1;
pub const COLOR_GREEN: u8 = 2;
pub const COLOR_RED: u8 = 4;
pub const COLOR_YELLOW: u8 = 14;
pub const COLOR_WHITE: u8 = 15;

/// A drawing command as the contracts see it: text as its characters.
pub enum DrawView {
    Clear { color: u8 },
    Rect { x: u32, y: u32, w: u32, h: u32, color: u8 },
    Text { x: u32, y: u32, text: Seq<char>, color: u8 },
}

pub open spec fn draw_view(c: DrawCommand) -> DrawView {
    match c {
        DrawCommand::Clear { color } => DrawView::Clear { color: color.0 },
        DrawCommand::Rect { x, y, w, h, color } => DrawView::Rect { x, y, w, h, color: color.0 },
        DrawCommand::Text { x, y, text, color } => DrawView::Text { x, y, text: text@, color: color.0 },
    }
}

pub open spec fn draw_views(s: Seq<DrawCommand>) -> Seq<DrawView> {
    s.map_values(|c: DrawCommand| draw_view(c))
}

/// The character of decimal digit `d`.
pub open spec fn digit_char(d: nat) -> char {
    if d == 0 {
        '0'
    } else if d == 1 {
        '1'
    } else if d == 2 {
        '2'
    } else if d == 3 {
        '3'
    } else if d == 4 {
        '4'
    } else if d == 5 {
        '5'
    } else if d == 6 {
        '6'
    } else if d == 7 {
        '7'
    } else if d == 8 {
        '8'
    } else {
        '9'
    }
}

/// `n` written in decimal, without leading zeros.
pub open spec fn decimal_text(n: nat) -> Seq<char>
    decreases n,
{
    if n < 10 {
        seq![digit_char(n)]
    } else {
        decimal_text(n / 10).push(digit_char(n % 10))
    }
}

fn digit_str(d: u64) -> (r: &'static str)
    requires
        d < 10,
    ensures
        r@ == seq![digit_char(d as nat)],
{
    proof {
        reveal_strlit("0");
        reveal_strlit("1");
        reveal_strlit("2");
        reveal_strlit("3");
        reveal_strlit("4");
        reveal_strlit("5");
        reveal_strlit("6");
        reveal_strlit("7");
        reveal_strlit("8");
        reveal_strlit("9");
    }
    if d == 0 {
        "0"
    } else if d == 1 {
        "1"
    } else if d == 2 {
        "2"
    } else if d == 3 {
        "3"
    } else if d == 4 {
        "4"
    } else if d == 5 {
        "5"
    } else if d == 6 {
        "6"
    } else if d == 7 {
        "7"
    } else if d == 8 {
        "8"
    } else {
        "9"
    }
}

/// `n` written in decimal.
pub fn decimal(n: u64) -> (s: String)
    ensures
        s@ == decimal_text(n as nat),
    decreases n,
{
    let mut s = if n >= 10 {
        decimal(n / 10)
    } else {
        String::new()
    };
    s.append(digit_str(n % 10));
    s
}

pub open spec fn uptime_line(ticks: u64) -> Seq<char> {
    "Uptime: "@ + decimal_text(ticks as nat) + " ticks"@
}

pub open spec fn files_line(files: usize) -> Seq<char> {
    "Files in ramdisk: "@ + decimal_text(files as nat)
}

/// The status screen: a black screen, blue, green and red panels, a yellow
/// bar with the banner, the system name, the hierarchy line, the uptime and
/// the number of files.
pub open spec fn status_screen(ticks: u64, files: usize) -> Seq<DrawView> {
    seq![
        DrawView::Clear { color: COLOR_BLACK },
        DrawView::Rect { x: 10, y: 10, w: 80, h: 40, color: COLOR_BLUE },
        DrawView::Rect { x: 100, y: 10, w: 80, h: 40, color: COLOR_GREEN },
        DrawView::Rect { x: 190, y: 10, w: 80, h: 40, color: COLOR_RED },
        DrawView::Rect { x: 10, y: 60, w: 300, h: 30, color: COLOR_YELLOW },
        DrawView::Text { x: 20, y: 70, text: "BoggersTheOS - kernel is alpha leader"@, color: COLOR_BLACK },
        DrawView::Text { x: 20, y: 90, text: "BoggersTheOS Beta"@, color: COLOR_WHITE },
        DrawView::Text { x: 20, y: 100, text: "TS Hierarchy Active – kernel weight 1.0"@, color: COLOR_WHITE },
        DrawView::Text { x: 20, y: 110, text: uptime_line(ticks), color: COLOR_WHITE },
        DrawView::Text { x: 20, y: 120, text: files_line(files), color: COLOR_WHITE },
    ]
}

proof fn lemma_views_push(before: Seq<DrawCommand>, after: Seq<DrawCommand>)
    requires
        after.len() == before.len() + 1,
        after.drop_last() == before,
    ensures
        draw_views(after) == draw_views(before).push(draw_view(after.last())),
{
    assert(after =~= before.push(after.last()));
    assert(draw_views(after) =~= draw_views(before).push(draw_view(after.last())));
}

/// Draws the status screen for `ticks` of uptime and `files` files on the
/// ramdisk. It fails without a framebuffer, and is refused (once) to a
/// context lighter than the drawing minimum; either way nothing is drawn.
pub fn draw_status_screen(ctx: &mut TsContext, gui: &mut GuiDriver, ticks: u64, files: usize) -> (r: Result<(), ()>)
    ensures
        gui_gate(*old(gui), *old(ctx), *final(ctx), r),
        final(gui).framebuffer() == old(gui).framebuffer(),
        r is Ok ==> draw_views(final(gui).pending()) == draw_views(old(gui).pending()) + status_screen(ticks, files),
        r is Err ==> final(gui).pending() == old(gui).pending(),
{
    let ghost p0 = draw_views(gui.pending());
    let ghost want = status_screen(ticks, files);
    if gui.clear_screen(ctx, Color(COLOR_BLACK)).is_err() {
        return Err(());
    }
    let ghost c0 = *ctx;
    assert(draw_views(gui.pending()) =~= p0 + want.take(1));
    let uptime = decimal(ticks);
    let mut up_line = String::from_str("Uptime: ");
    up_line.append(uptime.as_str());
    up_line.append(" ticks");
    let count = decimal(files as u64);
    let mut files_line_s = String::from_str("Files in ramdisk: ");
    files_line_s.append(count.as_str());
    assert(up_line@ == uptime_line(ticks));
    assert(files_line_s@ == files_line(files));
    if gui.draw_rect(ctx, 10, 10, 80, 40, Color(COLOR_BLUE)).is_err() {
        return Err(());
    }
    assert(draw_views(gui.pending()) =~= p0 + want.take(2));
    if gui.draw_rect(ctx, 100, 10, 80, 40, Color(COLOR_GREEN)).is_err() {
        return Err(());
    }
    assert(draw_views(gui.pending()) =~= p0 + want.take(3));
    if gui.draw_rect(ctx, 190, 10, 80, 40, Color(COLOR_RED)).is_err() {
        return Err(());
    }
    assert(draw_views(gui.pending()) =~= p0 + want.take(4));
    if gui.draw_rect(ctx, 10, 60, 300, 30, Color(COLOR_YELLOW)).is_err() {
        return Err(());
    }
    assert(draw_views(gui.pending()) =~= p0 + want.take(5));
    let ghost pb = gui.pending();
    if gui.draw_text(ctx, 20, 70, "BoggersTheOS - kernel is alpha leader", Color(COLOR_BLACK)).is_err() {
        return Err(());
    }
    proof {
        lemma_views_push(pb, gui.pending());
    }
    assert(draw_views(gui.pending()) =~= p0 + want.take(6));
    let ghost pb = gui.pending();
    if gui.draw_text(ctx, 20, 90, "BoggersTheOS Beta", Color(COLOR_WHITE)).is_err() {
        return Err(());
    }
    proof {
        lemma_views_push(pb, gui.pending());
    }
    assert(draw_views(gui.pending()) =~= p0 + want.take(7));
    let ghost pb = gui.pending();
    if gui.draw_text(ctx, 20, 100, "TS Hierarchy Active – kernel weight 1.0", Color(COLOR_WHITE)).is_err() {
        return Err(());
    }
    proof {
        lemma_views_push(pb, gui.pending());
    }
    assert(draw_views(gui.pending()) =~= p0 + want.take(8));
    let ghost pb = gui.pending();
    if gui.draw_text(ctx, 20, 110, up_line.as_str(), Color(COLOR_WHITE)).is_err() {
        return Err(());
    }
    proof {
        lemma_views_push(pb, gui.pending());
    }
    assert(draw_views(gui.pending()) =~= p0 + want.take(9));
    let ghost pb = gui.pending();
    if gui.draw_text(ctx, 20, 120, files_line_s.as_str(), Color(COLOR_WHITE)).is_err() {
        return Err(());
    }
    proof {
        lemma_views_push(pb, gui.pending());
    }
    assert(draw_views(gui.pending()) =~= p0 + want);
    Ok(())
}

} // verus!
