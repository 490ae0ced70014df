//! The custom title bar that keeps the native Windows frame: what each message of
//! the window procedure comes to.
//!
//! The client area extends over the caption, and the hit test gives the parts of
//! it back their native meaning: resize borders, a band that drags the window,
//! and the three caption buttons, which is what earns the Snap Layouts flyout.
use crate::text;
use vstd::prelude::*;
use vstd::string::*;

verus! {

// Hit testing

/// The system's numbers for the parts of a window.
pub const HTCLIENT: i32 = 1;

pub const HTCAPTION: i32 = 2;

pub const HTMINBUTTON: i32 = 8;

pub const HTMAXBUTTON: i32 = 9;

pub const HTLEFT: i32 = 10;

pub const HTRIGHT: i32 = 11;

pub const HTTOP: i32 = 12;

pub const HTTOPLEFT: i32 = 13;

pub const HTTOPRIGHT: i32 = 14;

pub const HTBOTTOM: i32 = 15;

pub const HTBOTTOMLEFT: i32 = 16;

pub const HTBOTTOMRIGHT: i32 = 17;

pub const HTCLOSE: i32 = 20;

/// A point of the screen, in pixels.
#[derive(Clone, Copy, PartialEq, Eq, Structural, Debug)]
pub struct Point {
    pub x: i32,
    pub y: i32,
}

/// A rectangle of the screen, in pixels.
#[derive(Clone, Copy, PartialEq, Eq, Structural, Debug)]
pub struct Rect {
    pub left: i32,
    pub top: i32,
    pub right: i32,
    pub bottom: i32,
}

/// The two controls the client draws in the title bar: where the tunnel chip
/// starts and ends, from the left, and how wide the profile button is. The chip is
/// as wide as its label, so no constant could describe it.
#[derive(Clone, Copy, PartialEq, Eq, Structural, Debug)]
pub struct Controls {
    pub chip_start: i32,
    pub chip_end: i32,
    pub profile: i32,
}

/// The title bar, in pixels.
#[derive(Clone, Copy, PartialEq, Eq, Structural, Debug)]
pub struct Bar {
    /// Where the client area starts, and how wide it is.
    pub origin: Point,
    pub width: i32,
    pub height: i32,
    /// How wide one of the three caption buttons is.
    pub button: i32,
    /// The client's own controls, as far as they are known.
    pub controls: Option<Controls>,
}

/// The sixteen bits at the bottom of a number, with a sign.
pub open spec fn signed_short(bits: int) -> int {
    let low = bits % 0x1_0000;
    if low >= 0x8000 {
        low - 0x1_0000
    } else {
        low
    }
}

/// The point in a message's parameter: its two lowest sixteen bits, the abscissa
/// first.
pub fn point_of(bits: u64) -> (r: Point)
    ensures
        r.x == signed_short(bits as int),
        r.y == signed_short(bits as int / 0x1_0000),
{
    let x: i32 = (bits % 0x1_0000) as i32;
    let y: i32 = ((bits / 0x1_0000) % 0x1_0000) as i32;
    Point {
        x: if x >= 0x8000 {
            x - 0x1_0000
        } else {
            x
        },
        y: if y >= 0x8000 {
            y - 0x1_0000
        } else {
            y
        },
    }
}

/// The border a point is on, when the window can be resized: the corners before
/// the sides.
pub open spec fn border_at(point: Point, window: Rect, border: Point) -> Option<i32> {
    let left = point.x < window.left + border.x;
    let right = point.x >= window.right - border.x;
    let top = point.y < window.top + border.y;
    let bottom = point.y >= window.bottom - border.y;
    if top && left {
        Some(HTTOPLEFT)
    } else if top && right {
        Some(HTTOPRIGHT)
    } else if bottom && left {
        Some(HTBOTTOMLEFT)
    } else if bottom && right {
        Some(HTBOTTOMRIGHT)
    } else if left {
        Some(HTLEFT)
    } else if right {
        Some(HTRIGHT)
    } else if top {
        Some(HTTOP)
    } else if bottom {
        Some(HTBOTTOM)
    } else {
        None
    }
}

/// The part of the title bar a point is on: one of the three buttons at its right
/// end, one of the two controls the client draws itself, or the band that drags
/// the window.
pub open spec fn bar_part(point: Point, bar: Bar) -> i32 {
    let from_left = point.x - bar.origin.x;
    let from_right = bar.origin.x + bar.width - point.x;
    if 0 <= from_right < bar.button {
        HTCLOSE
    } else if 0 <= from_right < bar.button * 2 {
        HTMAXBUTTON
    } else if 0 <= from_right < bar.button * 3 {
        HTMINBUTTON
    } else {
        match bar.controls {
            Some(own) => if own.chip_start <= from_left < own.chip_end {
                HTCLIENT
            } else if bar.button * 3 <= from_right < bar.button * 3 + own.profile {
                HTCLIENT
            } else {
                HTCAPTION
            },
            None => HTCAPTION,
        }
    }
}

/// The part of the window a point is on. `border` is how thick the resize border
/// is, nothing when the window is maximised.
pub open spec fn part_at(point: Point, window: Rect, border: Option<Point>, bar: Bar) -> i32 {
    match (border, border_at(point, window, border->0)) {
        (Some(_), Some(part)) => part,
        _ => if bar.origin.y <= point.y < bar.origin.y + bar.height {
            bar_part(point, bar)
        } else {
            HTCLIENT
        },
    }
}

fn border_hit(point: Point, window: Rect, border: Point) -> (r: Option<i32>)
    ensures
        r == border_at(point, window, border),
{
    let left = (point.x as i64) < window.left as i64 + border.x as i64;
    let right = point.x as i64 >= window.right as i64 - border.x as i64;
    let top = (point.y as i64) < window.top as i64 + border.y as i64;
    let bottom = point.y as i64 >= window.bottom as i64 - border.y as i64;
    if top && left {
        Some(HTTOPLEFT)
    } else if top && right {
        Some(HTTOPRIGHT)
    } else if bottom && left {
        Some(HTBOTTOMLEFT)
    } else if bottom && right {
        Some(HTBOTTOMRIGHT)
    } else if left {
        Some(HTLEFT)
    } else if right {
        Some(HTRIGHT)
    } else if top {
        Some(HTTOP)
    } else if bottom {
        Some(HTBOTTOM)
    } else {
        None
    }
}

fn bar_hit(point: Point, bar: Bar) -> (r: i32)
    requires
        bar.button >= 0,
    ensures
        r == bar_part(point, bar),
{
    let from_left: i64 = point.x as i64 - bar.origin.x as i64;
    let from_right: i64 = bar.origin.x as i64 + bar.width as i64 - point.x as i64;
    let button: i64 = bar.button as i64;
    if 0 <= from_right && from_right < button * 3 {
        return if from_right < button {
            HTCLOSE
        } else if from_right < button * 2 {
            HTMAXBUTTON
        } else {
            HTMINBUTTON
        };
    }
    match bar.controls {
        Some(own) => {
            if own.chip_end > own.chip_start && from_left >= own.chip_start as i64 && from_left
                < own.chip_end as i64 {
                return HTCLIENT;
            }
            if own.profile > 0 && from_right >= button * 3 && from_right < button * 3
                + own.profile as i64 {
                return HTCLIENT;
            }
            HTCAPTION
        },
        None => HTCAPTION,
    }
}

/// The part of the window a point is on.
pub fn hit_test(point: Point, window: Rect, border: Option<Point>, bar: Bar) -> (r: i32)
    requires
        bar.button >= 0,
    ensures
        r == part_at(point, window, border, bar),
{
    if let Some(border) = border {
        if let Some(part) = border_hit(point, window, border) {
            return part;
        }
    }
    if point.y >= bar.origin.y && (point.y as i64) < bar.origin.y as i64 + bar.height as i64 {
        return bar_hit(point, bar);
    }
    HTCLIENT
}

/// The buttons are where they are drawn: from the right end of the bar inwards
/// close, maximise and minimise, each as wide as a button, wherever the resize
/// border is not.
pub proof fn lemma_buttons_are_hit(point: Point, window: Rect, border: Option<Point>, bar: Bar, n: int)
    requires
        border is None || border_at(point, window, border->0) is None,
        bar.origin.y <= point.y < bar.origin.y + bar.height,
        bar.button > 0,
        0 <= n < 3,
        bar.button * n <= bar.origin.x + bar.width - point.x < bar.button * (n + 1),
    ensures
        part_at(point, window, border, bar) == (if n == 0 {
            HTCLOSE
        } else if n == 1 {
            HTMAXBUTTON
        } else {
            HTMINBUTTON
        }),
{
    assert(n == 0 ==> bar.button * n == 0 && bar.button * (n + 1) == bar.button) by (nonlinear_arith);
    assert(n == 1 ==> bar.button * n == bar.button && bar.button * (n + 1) == bar.button * 2)
        by (nonlinear_arith);
    assert(n == 2 ==> bar.button * n == bar.button * 2 && bar.button * (n + 1) == bar.button * 3)
        by (nonlinear_arith);
}

// The caption buttons

/// Whether a part is one of the three caption buttons.
pub open spec fn is_button(part: i32) -> bool {
    part == HTMINBUTTON || part == HTMAXBUTTON || part == HTCLOSE
}

/// The button that lights up when the pointer is over a part, by its number, and
/// nothing over any other.
pub open spec fn hover_of(part: i32) -> i32 {
    if part == HTMINBUTTON {
        1
    } else if part == HTMAXBUTTON {
        2
    } else if part == HTCLOSE {
        3
    } else {
        0
    }
}

/// The button that lights up when the pointer is over a part, and whether to start
/// following the pointer: it is followed off a button once.
pub fn hover(part: i32, tracking: bool) -> (r: (i32, bool))
    ensures
        r.0 == hover_of(part),
        r.1 == (is_button(part) && !tracking),
{
    let n: i32 = if part == HTMINBUTTON {
        1
    } else if part == HTMAXBUTTON {
        2
    } else if part == HTCLOSE {
        3
    } else {
        0
    };
    (n, n != 0 && !tracking)
}

/// Whether a press on a part is kept from the system, which would draw a button of
/// its own.
pub fn swallows(part: i32) -> (r: bool)
    ensures
        r == is_button(part),
{
    part == HTMINBUTTON || part == HTMAXBUTTON || part == HTCLOSE
}

/// What a click on a part does.
#[derive(Clone, Copy, PartialEq, Eq, Structural, Debug)]
pub enum Click {
    Minimise,
    Maximise,
    Restore,
    Close,
    /// Whatever the system makes of it.
    Default,
}

/// What a click on a part does.
pub fn click(part: i32, maximised: bool) -> (r: Click)
    ensures
        r == (if part == HTMINBUTTON {
            Click::Minimise
        } else if part == HTMAXBUTTON {
            if maximised {
                Click::Restore
            } else {
                Click::Maximise
            }
        } else if part == HTCLOSE {
            Click::Close
        } else {
            Click::Default
        }),
{
    if part == HTMINBUTTON {
        Click::Minimise
    } else if part == HTMAXBUTTON {
        if maximised {
            Click::Restore
        } else {
            Click::Maximise
        }
    } else if part == HTCLOSE {
        Click::Close
    } else {
        Click::Default
    }
}

// Placement

/// Where a maximised window goes and how large it is: over the work area of its
/// monitor, so it never covers the taskbar.
pub fn maximised(work: Rect, monitor: Rect) -> (r: (Point, Point))
    requires
        i32::MIN <= work.left - monitor.left <= i32::MAX,
        i32::MIN <= work.top - monitor.top <= i32::MAX,
        i32::MIN <= work.right - work.left <= i32::MAX,
        i32::MIN <= work.bottom - work.top <= i32::MAX,
    ensures
        r.0.x == work.left - monitor.left,
        r.0.y == work.top - monitor.top,
        r.1.x == work.right - work.left,
        r.1.y == work.bottom - work.top,
{
    (
        Point { x: work.left - monitor.left, y: work.top - monitor.top },
        Point { x: work.right - work.left, y: work.bottom - work.top },
    )
}

/// The system's bits for the parts of a frame.
pub const WS_CAPTION: u32 = 0x00c0_0000;

pub const WS_SYSMENU: u32 = 0x0008_0000;

pub const WS_THICKFRAME: u32 = 0x0004_0000;

pub const WS_MINIMIZEBOX: u32 = 0x0002_0000;

pub const WS_MAXIMIZEBOX: u32 = 0x0001_0000;

/// The style a window of the client has whatever style it is given: a sizing
/// frame, a maximise box, a minimise box and a system menu, and never the caption.
pub open spec fn locked(style: u32) -> u32 {
    (style | WS_THICKFRAME | WS_MAXIMIZEBOX | WS_MINIMIZEBOX | WS_SYSMENU) & !WS_CAPTION
}

/// The style a window of the client has whatever style it is given. The backend
/// reapplies its own on every maximise, restore and resize.
pub fn lock_style(style: u32) -> (r: u32)
    ensures
        r == locked(style),
{
    (style | WS_THICKFRAME | WS_MAXIMIZEBOX | WS_MINIMIZEBOX | WS_SYSMENU) & !WS_CAPTION
}

/// Locking a style twice is locking it once, and the caption never comes back.
pub proof fn lemma_the_lock_holds(style: u32)
    ensures
        locked(locked(style)) == locked(style),
        locked(style) & WS_CAPTION == 0,
        locked(style) & WS_THICKFRAME == WS_THICKFRAME,
{
    assert(({
        let once = (style | 0x0004_0000u32 | 0x0001_0000u32 | 0x0002_0000u32 | 0x0008_0000u32)
            & !0x00c0_0000u32;
        let twice = (once | 0x0004_0000u32 | 0x0001_0000u32 | 0x0002_0000u32 | 0x0008_0000u32)
            & !0x00c0_0000u32;
        once == twice && once & 0x00c0_0000u32 == 0 && once & 0x0004_0000u32 == 0x0004_0000u32
    })) by (bit_vector);
}

/// The system's bits for a change of place that leaves the size alone, and for
/// one that copies nothing.
pub const SWP_NOSIZE: u32 = 0x0001;

pub const SWP_NOCOPYBITS: u32 = 0x0100;

/// Whether a change of place changes the size.
pub open spec fn resizes(flags: u32) -> bool {
    flags & SWP_NOSIZE == 0
}

/// The flags a change of place gets: while it is resized the window copies none of
/// its stale bits.
pub fn placing(flags: u32) -> (r: u32)
    ensures
        r == (if resizes(flags) {
            flags | SWP_NOCOPYBITS
        } else {
            flags
        }),
{
    if flags & SWP_NOSIZE == 0 {
        flags | SWP_NOCOPYBITS
    } else {
        flags
    }
}

/// What the window remembers between messages.
pub struct Memory {
    acrylic: bool,
    width: i32,
    height: i32,
    /// Whether the window has still to be opened out to fill the screen.
    unopened: bool,
}

impl Memory {
    /// Whether there is a backdrop to keep up with the window.
    pub closed spec fn acrylic(self) -> bool {
        self.acrylic
    }

    /// The size the backdrop was last laid out for.
    pub closed spec fn size(self) -> (i32, i32) {
        (self.width, self.height)
    }

    /// Whether the window has still to be opened out.
    pub closed spec fn unopened(self) -> bool {
        self.unopened
    }

    /// A window that has just been made.
    pub fn new(acrylic: bool) -> (r: Memory)
        ensures
            r.acrylic() == acrylic,
            r.size() == (0i32, 0i32),
            r.unopened(),
    {
        Memory { acrylic, width: 0, height: 0, unopened: true }
    }

    /// Whether the backdrop is to be laid out again, now that the window is this
    /// large.
    pub fn resized(&mut self, width: i32, height: i32) -> (r: bool)
        ensures
            r == (old(self).acrylic() && old(self).size() != (width, height)),
            final(self).acrylic() == old(self).acrylic(),
            final(self).unopened() == old(self).unopened(),
            final(self).size() == (if old(self).acrylic() {
                (width, height)
            } else {
                old(self).size()
            }),
    {
        if !self.acrylic {
            return false;
        }
        if width == self.width && height == self.height {
            return false;
        }
        self.width = width;
        self.height = height;
        true
    }

    /// Whether to open the window out to fill the screen: on the first size it is
    /// given, when it is visible, and never again. Any earlier, and the backend
    /// would apply its own size over the top.
    pub fn placed(&mut self, flags: u32, visible: bool) -> (r: bool)
        ensures
            r == (resizes(flags) && old(self).unopened() && visible),
            final(self).unopened() == (old(self).unopened() && !resizes(flags)),
            final(self).acrylic() == old(self).acrylic(),
            final(self).size() == old(self).size(),
    {
        if flags & SWP_NOSIZE != 0 {
            return false;
        }
        let r = self.unopened && visible;
        self.unopened = false;
        r
    }
}

// Messages

/// The system's numbers for the messages a window gets.
pub const WM_NCCALCSIZE: u32 = 0x0083;

pub const WM_NCHITTEST: u32 = 0x0084;

pub const WM_NCMOUSEMOVE: u32 = 0x00a0;

pub const WM_NCMOUSELEAVE: u32 = 0x02a2;

pub const WM_NCLBUTTONDOWN: u32 = 0x00a1;

pub const WM_NCLBUTTONUP: u32 = 0x00a2;

pub const WM_SIZE: u32 = 0x0005;

pub const WM_GETMINMAXINFO: u32 = 0x0024;

pub const WM_STYLECHANGING: u32 = 0x007c;

pub const WM_NCACTIVATE: u32 = 0x0086;

pub const WM_NCUAHDRAWCAPTION: u32 = 0x00ae;

pub const WM_NCUAHDRAWFRAME: u32 = 0x00af;

pub const WM_WINDOWPOSCHANGING: u32 = 0x0046;

pub const WM_WINDOWPOSCHANGED: u32 = 0x0047;

pub const WM_CLOSE: u32 = 0x0010;

pub const WM_QUERYENDSESSION: u32 = 0x0011;

pub const WM_ENDSESSION: u32 = 0x0016;

pub const WM_COMMAND: u32 = 0x0111;

pub const WM_NCDESTROY: u32 = 0x0082;

/// What the tray icon sends. Anything from 0x8000 up is the client's to define.
pub const WM_TRAY: u32 = 0x8001;

/// Asks a running client to shut down properly, tunnel and all.
pub const WM_QUIT_REQUEST: u32 = 0x8002;

/// The thirty-two bits at the bottom of a parameter that stand for the style.
pub const GWL_STYLE: u64 = 0xffff_fff0;

/// What a message asks of the window.
#[derive(Clone, Copy, PartialEq, Eq, Structural, Debug)]
pub enum Message {
    /// Extend the client area over the caption; over the work area of the monitor
    /// when the window is maximised.
    CoverCaption,
    HitTest,
    Hover,
    Leave,
    Press,
    Click,
    /// Mirror whether the window is maximised, and lay the backdrop out again.
    Resized,
    Limits,
    Style,
    /// Let the system have it, but draw no caption.
    Activate,
    /// Nothing: it would draw a caption or a frame.
    Swallow,
    Placing,
    Placed,
    /// The close button hides the window; it does not end the program and it does
    /// not touch the tunnel.
    Hide,
    /// The session may end.
    MayEnd,
    /// The session ends: take the icon away, the tunnel down, and end the event
    /// loop. There is no guarantee of getting back to the exit path.
    Ends,
    /// The session was to end and does not.
    StaysUp,
    /// Take the icon away and end the event loop.
    Quit,
    Tray,
    /// Every tray icon has gone: register the client's again.
    TrayGone,
    Menu,
    /// The window is gone: take the icon away and let go of everything.
    Destroyed,
    /// Whatever the system makes of it.
    Default,
}

/// What a message asks of the window. `taskbar` is the number of the message that
/// tells that the tray has been made anew.
pub open spec fn message_of(number: u32, wparam: u64, taskbar: u32) -> Message {
    if number == WM_NCCALCSIZE && wparam != 0 {
        Message::CoverCaption
    } else if number == WM_NCHITTEST {
        Message::HitTest
    } else if number == WM_NCMOUSEMOVE {
        Message::Hover
    } else if number == WM_NCMOUSELEAVE {
        Message::Leave
    } else if number == WM_NCLBUTTONDOWN {
        Message::Press
    } else if number == WM_NCLBUTTONUP {
        Message::Click
    } else if number == WM_SIZE {
        Message::Resized
    } else if number == WM_GETMINMAXINFO {
        Message::Limits
    } else if number == WM_STYLECHANGING && wparam % 0x1_0000_0000 == GWL_STYLE {
        Message::Style
    } else if number == WM_NCACTIVATE {
        Message::Activate
    } else if number == WM_NCUAHDRAWCAPTION || number == WM_NCUAHDRAWFRAME {
        Message::Swallow
    } else if number == WM_WINDOWPOSCHANGING {
        Message::Placing
    } else if number == WM_WINDOWPOSCHANGED {
        Message::Placed
    } else if number == WM_CLOSE {
        Message::Hide
    } else if number == WM_QUERYENDSESSION {
        Message::MayEnd
    } else if number == WM_ENDSESSION {
        if wparam != 0 {
            Message::Ends
        } else {
            Message::StaysUp
        }
    } else if number == WM_QUIT_REQUEST {
        Message::Quit
    } else if number == WM_TRAY {
        Message::Tray
    } else if number != 0 && number == taskbar {
        Message::TrayGone
    } else if number == WM_COMMAND {
        Message::Menu
    } else if number == WM_NCDESTROY {
        Message::Destroyed
    } else {
        Message::Default
    }
}

/// What a message asks of the window.
pub fn message(number: u32, wparam: u64, taskbar: u32) -> (r: Message)
    ensures
        r == message_of(number, wparam, taskbar),
{
    if number == WM_NCCALCSIZE && wparam != 0 {
        Message::CoverCaption
    } else if number == WM_NCHITTEST {
        Message::HitTest
    } else if number == WM_NCMOUSEMOVE {
        Message::Hover
    } else if number == WM_NCMOUSELEAVE {
        Message::Leave
    } else if number == WM_NCLBUTTONDOWN {
        Message::Press
    } else if number == WM_NCLBUTTONUP {
        Message::Click
    } else if number == WM_SIZE {
        Message::Resized
    } else if number == WM_GETMINMAXINFO {
        Message::Limits
    } else if number == WM_STYLECHANGING && wparam % 0x1_0000_0000 == GWL_STYLE {
        Message::Style
    } else if number == WM_NCACTIVATE {
        Message::Activate
    } else if number == WM_NCUAHDRAWCAPTION || number == WM_NCUAHDRAWFRAME {
        Message::Swallow
    } else if number == WM_WINDOWPOSCHANGING {
        Message::Placing
    } else if number == WM_WINDOWPOSCHANGED {
        Message::Placed
    } else if number == WM_CLOSE {
        Message::Hide
    } else if number == WM_QUERYENDSESSION {
        Message::MayEnd
    } else if number == WM_ENDSESSION {
        if wparam != 0 {
            Message::Ends
        } else {
            Message::StaysUp
        }
    } else if number == WM_QUIT_REQUEST {
        Message::Quit
    } else if number == WM_TRAY {
        Message::Tray
    } else if number != 0 && number == taskbar {
        Message::TrayGone
    } else if number == WM_COMMAND {
        Message::Menu
    } else if number == WM_NCDESTROY {
        Message::Destroyed
    } else {
        Message::Default
    }
}

/// The window is only ever hidden by its close button: of all messages, those that
/// end the client are the end of the session and the request to quit.
pub proof fn lemma_closing_only_hides(number: u32, wparam: u64, taskbar: u32)
    ensures
        number == WM_CLOSE ==> message_of(number, wparam, taskbar) == Message::Hide,
        message_of(number, wparam, taskbar) == Message::Ends ==> number == WM_ENDSESSION && wparam
            != 0,
        message_of(number, wparam, taskbar) == Message::Quit ==> number == WM_QUIT_REQUEST,
{
}

// The tray

/// The numbers of the tray menu's entries.
pub const MENU_OPEN: usize = 1;

pub const MENU_QUIT: usize = 2;

/// What a click on the tray icon or its menu does.
#[derive(Clone, Copy, PartialEq, Eq, Structural, Debug)]
pub enum Tray {
    /// Shows the window.
    Reveal,
    /// Shows the menu.
    Menu,
    /// Takes the icon away and ends the event loop; the tunnel comes down on the
    /// way out.
    Quit,
    Nothing,
}

/// The system's numbers for what the pointer does.
pub const WM_LBUTTONUP: u32 = 0x0202;

pub const WM_RBUTTONUP: u32 = 0x0205;

pub const WM_CONTEXTMENU: u32 = 0x007b;

/// What the pointer on the tray icon does.
pub fn tray(message: u32) -> (r: Tray)
    ensures
        r == (if message == WM_LBUTTONUP {
            Tray::Reveal
        } else if message == WM_RBUTTONUP || message == WM_CONTEXTMENU {
            Tray::Menu
        } else {
            Tray::Nothing
        }),
{
    if message == WM_LBUTTONUP {
        Tray::Reveal
    } else if message == WM_RBUTTONUP || message == WM_CONTEXTMENU {
        Tray::Menu
    } else {
        Tray::Nothing
    }
}

/// What an entry of the tray menu does. Its number is in the sixteen bits at the
/// bottom of the message's parameter.
pub fn menu(parameter: usize) -> (r: Tray)
    ensures
        r == (if parameter % 0x1_0000 == MENU_OPEN {
            Tray::Reveal
        } else if parameter % 0x1_0000 == MENU_QUIT {
            Tray::Quit
        } else {
            Tray::Nothing
        }),
{
    let entry: usize = parameter % 0x1_0000;
    if entry == MENU_OPEN {
        Tray::Reveal
    } else if entry == MENU_QUIT {
        Tray::Quit
    } else {
        Tray::Nothing
    }
}

/// A character in UTF-16.
pub open spec fn units_of(c: char) -> Seq<u16> {
    let code = c as u32;
    if code < 0x1_0000 {
        seq![code as u16]
    } else {
        seq![
            (0xd800 + (code - 0x1_0000) / 0x400) as u16,
            (0xdc00 + (code - 0x1_0000) % 0x400) as u16,
        ]
    }
}

/// A text in UTF-16.
pub open spec fn wide(s: Seq<char>) -> Seq<u16>
    decreases s.len(),
{
    if s.len() == 0 {
        Seq::empty()
    } else {
        wide(s.drop_last()) + units_of(s.last())
    }
}

/// How many units of a text fit a tooltip, with the zero that ends it after them.
pub open spec fn fitting(s: Seq<char>) -> int {
    if wide(s).len() < 127 {
        wide(s).len() as int
    } else {
        127
    }
}

fn encode(s: &str) -> (r: Vec<u16>)
    ensures
        r@ == wide(s@),
{
    let chars = text::chars_of(s);
    let mut r: Vec<u16> = Vec::new();
    let mut i: usize = 0;
    assert(s@.take(0) =~= Seq::empty());
    while i < chars.len()
        invariant
            i <= chars@.len(),
            chars@ == s@,
            r@ == wide(s@.take(i as int)),
        decreases chars@.len() - i,
    {
        let code = chars[i] as u32;
        let ghost before = r@;
        assert(s@.take(i as int + 1).drop_last() =~= s@.take(i as int));
        assert(s@.take(i as int + 1).last() == chars@[i as int]);
        if code < 0x1_0000 {
            r.push(code as u16);
        } else {
            let rest: u32 = code - 0x1_0000;
            r.push((0xd800 + rest / 0x400) as u16);
            r.push((0xdc00 + rest % 0x400) as u16);
        }
        assert(r@ =~= before + units_of(chars@[i as int]));
        i += 1;
    }
    assert(s@.take(i as int) =~= s@);
    r
}

/// Fills the fixed-size tooltip buffer the shell expects: as much of the text as
/// fits, in UTF-16, and the zero that ends it.
pub fn tip(said: &str, into: &mut [u16; 128])
    ensures
        forall|i: int| 0 <= i < fitting(said@) ==> #[trigger] final(into)@[i] == wide(said@)[i],
        final(into)@[fitting(said@)] == 0,
        forall|i: int|
            fitting(said@) < i < 128 ==> #[trigger] final(into)@[i] == old(into)@[i],
{
    let units = encode(said);
    let n: usize = if units.len() < 127 {
        units.len()
    } else {
        127
    };
    let mut i: usize = 0;
    while i < n
        invariant
            i <= n <= 127,
            n <= units@.len(),
            forall|j: int| 0 <= j < i ==> #[trigger] into@[j] == units@[j],
            forall|j: int| i <= j < 128 ==> #[trigger] into@[j] == old(into)@[j],
        decreases n - i,
    {
        into[i] = units[i];
        i += 1;
    }
    into[n] = 0;
}

// Which part is where

/// Around the edge of a window that can be resized stand its eight borders: a corner
/// where two edges are near, a side where one is, and none inside.
pub proof fn lemma_where_the_borders_are(point: Point, window: Rect, border: Point)
    requires
        border.x >= 0,
        border.y >= 0,
        window.left + border.x <= window.right - border.x,
        window.top + border.y <= window.bottom - border.y,
    ensures
        ({
            let at = border_at(point, window, border);
            let near_left = point.x - window.left < border.x;
            let near_right = window.right - point.x <= border.x;
            let near_top = point.y - window.top < border.y;
            let near_bottom = window.bottom - point.y <= border.y;
            &&& near_top && near_left ==> at == Some(HTTOPLEFT)
            &&& near_top && near_right ==> at == Some(HTTOPRIGHT)
            &&& near_bottom && near_left ==> at == Some(HTBOTTOMLEFT)
            &&& near_bottom && near_right ==> at == Some(HTBOTTOMRIGHT)
            &&& near_left && !near_top && !near_bottom ==> at == Some(HTLEFT)
            &&& near_right && !near_top && !near_bottom ==> at == Some(HTRIGHT)
            &&& near_top && !near_left && !near_right ==> at == Some(HTTOP)
            &&& near_bottom && !near_left && !near_right ==> at == Some(HTBOTTOM)
            &&& !near_left && !near_right && !near_top && !near_bottom ==> at is None
        }),
{
}

/// A border comes before anything under it, and a maximised window has none.
pub proof fn lemma_borders_come_first(point: Point, window: Rect, border: Point, bar: Bar)
    ensures
        border_at(point, window, border) matches Some(part) ==> part_at(
            point,
            window,
            Some(border),
            bar,
        ) == part,
        border_at(point, window, border) is None ==> part_at(point, window, Some(border), bar)
            == part_at(point, window, None, bar),
{
}

/// Beside the three buttons the title bar drags the window, but for the two controls the
/// client draws itself: the chip, from where it starts up to where it ends, and the
/// profile, right beside the buttons. Above and below the bar all is the client's.
pub proof fn lemma_what_the_bar_holds(point: Point, window: Rect, bar: Bar)
    requires
        bar.button >= 0,
        bar.origin.x + bar.width - point.x >= 3 * bar.button || bar.origin.x + bar.width < point.x,
    ensures
        ({
            let part = part_at(point, window, None, bar);
            let inside = bar.origin.y <= point.y < bar.origin.y + bar.height;
            &&& !inside ==> part == HTCLIENT
            &&& inside && bar.controls is None ==> part == HTCAPTION
            &&& inside && bar.controls is Some ==> {
                let own = bar.controls->0;
                let on_chip = bar.origin.x + own.chip_start <= point.x < bar.origin.x
                    + own.chip_end;
                let left_of_buttons = bar.origin.x + bar.width - 3 * bar.button;
                let on_profile = left_of_buttons - own.profile < point.x <= left_of_buttons;
                &&& part == HTCLIENT <==> on_chip || on_profile
                &&& part == HTCAPTION <==> !on_chip && !on_profile
            }
        }),
{
}

/// Each of the three buttons lights up on its own, in the order they stand in, and
/// nothing else does.
pub proof fn lemma_what_lights_up(part: i32)
    ensures
        hover_of(HTMINBUTTON) == 1,
        hover_of(HTMAXBUTTON) == 2,
        hover_of(HTCLOSE) == 3,
        hover_of(part) == 0 <==> !is_button(part),
        is_button(part) <==> part == HTMINBUTTON || part == HTMAXBUTTON || part == HTCLOSE,
{
}

/// A coordinate is the number between -32768 and 32767 that has those sixteen bits.
pub proof fn lemma_a_coordinate(bits: int)
    requires
        bits >= 0,
    ensures
        -0x8000 <= signed_short(bits) < 0x8000,
        (bits - signed_short(bits)) % 0x1_0000 == 0,
{
}

/// Locking gives a style its sizing frame, its two boxes and its menu, takes its caption
/// away, and leaves every other bit as it was.
pub proof fn lemma_what_the_lock_changes(style: u32)
    ensures
        locked(style) & WS_THICKFRAME == WS_THICKFRAME,
        locked(style) & WS_MAXIMIZEBOX == WS_MAXIMIZEBOX,
        locked(style) & WS_MINIMIZEBOX == WS_MINIMIZEBOX,
        locked(style) & WS_SYSMENU == WS_SYSMENU,
        locked(style) & WS_CAPTION == 0,
        locked(style) & 0xff30_ffffu32 == style & 0xff30_ffffu32,
{
    assert(({
        let l = (style | 0x0004_0000u32 | 0x0001_0000u32 | 0x0002_0000u32 | 0x0008_0000u32)
            & !0x00c0_0000u32;
        &&& l & 0x0004_0000u32 == 0x0004_0000u32
        &&& l & 0x0001_0000u32 == 0x0001_0000u32
        &&& l & 0x0002_0000u32 == 0x0002_0000u32
        &&& l & 0x0008_0000u32 == 0x0008_0000u32
        &&& l & 0x00c0_0000u32 == 0
        &&& l & 0xff30_ffffu32 == style & 0xff30_ffffu32
    })) by (bit_vector);
}

/// Each message asks for its own, whatever comes with it; those that depend on their
/// parameter ask for nothing of the client's without it.
pub proof fn lemma_what_each_message_asks(wparam: u64, taskbar: u32)
    ensures
        message_of(WM_NCCALCSIZE, wparam, taskbar) == Message::CoverCaption <==> wparam != 0,
        message_of(WM_NCHITTEST, wparam, taskbar) == Message::HitTest,
        message_of(WM_NCMOUSEMOVE, wparam, taskbar) == Message::Hover,
        message_of(WM_NCMOUSELEAVE, wparam, taskbar) == Message::Leave,
        message_of(WM_NCLBUTTONDOWN, wparam, taskbar) == Message::Press,
        message_of(WM_NCLBUTTONUP, wparam, taskbar) == Message::Click,
        message_of(WM_SIZE, wparam, taskbar) == Message::Resized,
        message_of(WM_GETMINMAXINFO, wparam, taskbar) == Message::Limits,
        message_of(WM_STYLECHANGING, wparam, taskbar) == Message::Style <==> wparam % 0x1_0000_0000
            == GWL_STYLE,
        message_of(WM_NCACTIVATE, wparam, taskbar) == Message::Activate,
        message_of(WM_NCUAHDRAWCAPTION, wparam, taskbar) == Message::Swallow,
        message_of(WM_NCUAHDRAWFRAME, wparam, taskbar) == Message::Swallow,
        message_of(WM_WINDOWPOSCHANGING, wparam, taskbar) == Message::Placing,
        message_of(WM_WINDOWPOSCHANGED, wparam, taskbar) == Message::Placed,
        message_of(WM_CLOSE, wparam, taskbar) == Message::Hide,
        message_of(WM_QUERYENDSESSION, wparam, taskbar) == Message::MayEnd,
        wparam != 0 ==> message_of(WM_ENDSESSION, wparam, taskbar) == Message::Ends,
        wparam == 0 ==> message_of(WM_ENDSESSION, wparam, taskbar) == Message::StaysUp,
        message_of(WM_QUIT_REQUEST, wparam, taskbar) == Message::Quit,
        message_of(WM_TRAY, wparam, taskbar) == Message::Tray,
        taskbar > WM_QUIT_REQUEST ==> message_of(taskbar, wparam, taskbar) == Message::TrayGone,
        taskbar != WM_COMMAND ==> message_of(WM_COMMAND, wparam, taskbar) == Message::Menu,
        taskbar != WM_NCDESTROY ==> message_of(WM_NCDESTROY, wparam, taskbar) == Message::Destroyed,
        message_of(0, wparam, taskbar) == Message::Default,
{
}

/// A character is one unit of UTF-16 when it fits, and otherwise a high and a low one
/// that it can be put together from again.
pub proof fn lemma_a_character_in_units(c: char)
    ensures
        (c as u32) < 0x1_0000 ==> units_of(c).len() == 1 && units_of(c)[0] == c as u32,
        c as u32 >= 0x1_0000 ==> {
            &&& units_of(c).len() == 2
            &&& 0xd800 <= units_of(c)[0] < 0xdc00
            &&& 0xdc00 <= units_of(c)[1] < 0xe000
            &&& 0x1_0000 + (units_of(c)[0] - 0xd800) * 0x400 + (units_of(c)[1] - 0xdc00) == c as u32
        },
{
}

/// A text in UTF-16 is its characters' units one after the other, from the first on.
pub proof fn lemma_a_text_in_units(a: Seq<char>, b: Seq<char>, c: char)
    ensures
        wide(a + b) == wide(a) + wide(b),
        wide(seq![c]) == units_of(c),
        wide(Seq::empty()).len() == 0,
    decreases b.len(),
{
    if b.len() > 0 {
        let fewer = b.drop_last();
        lemma_a_text_in_units(a, fewer, c);
        assert((a + b).drop_last() =~= a + fewer);
        assert((a + b).last() == b.last());
        assert(wide(a + b) =~= wide(a) + wide(b));
    } else {
        assert(a + b =~= a);
        assert(wide(b).len() == 0);
        assert(wide(a + b) =~= wide(a) + wide(b));
    }
    assert(seq![c].drop_last() =~= Seq::empty());
    assert(wide(Seq::<char>::empty()) =~= Seq::empty());
    assert(wide(seq![c]) =~= units_of(c));
}

/// A change of place changes the size unless its lowest bit says that it does not.
pub proof fn lemma_what_resizes(flags: u32)
    ensures
        resizes(flags) <==> flags % 2 == 0,
{
    assert((flags & 0x0001u32 == 0) <==> (flags % 2 == 0)) by (bit_vector);
}

/// As much of a text fits a tooltip as leaves room for the zero that ends it.
pub proof fn lemma_what_fits_a_tooltip(s: Seq<char>)
    ensures
        0 <= fitting(s) <= 127,
        wide(s).len() <= 127 ==> fitting(s) == wide(s).len(),
        wide(s).len() > 127 ==> fitting(s) == 127,
{
}

} // verus!
