//! The places of the controls in the window and of the button in its caption.

use vstd::prelude::*;

verus! {

/// A control of the window.
#[derive(Clone, Copy, Debug, PartialEq, Eq, Structural)]
pub enum Control {
    Title,
    Hint,
    Path,
    Pick,
    Scan,
    List,
    Notes,
    Backup,
    Acknowledge,
    Fill,
    Summary,
    Status,
    Pin,
    Update,
    Authorize,
    Forget,
    Release,
}

impl Control {
    /// The number of a control.
    pub open spec fn id(self) -> int {
        match self {
            Control::Title => 1,
            Control::Hint => 2,
            Control::Path => 101,
            Control::Pick => 102,
            Control::Scan => 103,
            Control::List => 104,
            Control::Notes => 105,
            Control::Backup => 106,
            Control::Acknowledge => 107,
            Control::Fill => 108,
            Control::Summary => 109,
            Control::Status => 110,
            Control::Pin => 111,
            Control::Update => 112,
            Control::Authorize => 113,
            Control::Forget => 114,
            Control::Release => 115,
        }
    }

    /// The number of a control.
    pub fn number(self) -> (r: i32)
        ensures
            r == self.id(),
    {
        match self {
            Control::Title => 1,
            Control::Hint => 2,
            Control::Path => 101,
            Control::Pick => 102,
            Control::Scan => 103,
            Control::List => 104,
            Control::Notes => 105,
            Control::Backup => 106,
            Control::Acknowledge => 107,
            Control::Fill => 108,
            Control::Summary => 109,
            Control::Status => 110,
            Control::Pin => 111,
            Control::Update => 112,
            Control::Authorize => 113,
            Control::Forget => 114,
            Control::Release => 115,
        }
    }
}

/// A control and its place: left, top, width and height.
#[derive(Clone, Copy, Debug, PartialEq, Eq, Structural)]
pub struct Placed {
    pub control: Control,
    pub left: i32,
    pub top: i32,
    pub width: i32,
    pub height: i32,
}

/// A control at a place.
pub open spec fn placed(control: Control, left: int, top: int, width: int, height: int) -> Placed {
    Placed {
        control,
        left: left as i32,
        top: top as i32,
        width: width as i32,
        height: height as i32,
    }
}

/// The height of the list in a window of height `h`.
pub open spec fn list_height(h: int) -> int {
    if h - 430 > 130 {
        h - 430
    } else {
        130
    }
}

/// The places of the controls in a window of width `w` and height `h`.
pub open spec fn places(w: int, h: int) -> Seq<Placed> {
    seq![
        placed(Control::Title, 24, 18, 260, 34),
        placed(Control::Pin, w - 596, 20, 108, 30),
        placed(Control::Update, w - 480, 18, 108, 34),
        placed(Control::Authorize, w - 364, 18, 94, 34),
        placed(Control::Forget, w - 262, 18, 94, 34),
        placed(Control::Release, w - 160, 18, 136, 34),
        placed(Control::Hint, 24, 59, w - 48, 25),
        placed(Control::Path, 24, 99, w - 240, 32),
        placed(Control::Pick, w - 206, 98, 90, 34),
        placed(Control::Scan, w - 106, 98, 82, 34),
        placed(Control::Summary, 24, 151, w - 48, 26),
        placed(Control::List, 24, 186, w - 48, list_height(h)),
        placed(Control::Notes, 24, 198 + list_height(h), w - 48, 110),
        placed(Control::Acknowledge, 24, h - 83, w - 48, 24),
        placed(Control::Backup, 24, h - 49, 240, 28),
        placed(Control::Fill, w - 280, h - 53, 256, 36),
        placed(Control::Status, 24, h - 117, w - 48, 25),
    ]
}

/// A control at a place.
fn at(control: Control, left: i32, top: i32, width: i32, height: i32) -> (r: Placed)
    ensures
        r == placed(control, left as int, top as int, width as int, height as int),
{
    Placed { control, left, top, width, height }
}

/// The places of the controls in a window of width `w` and height `h`.
pub fn layout(w: i32, h: i32) -> (r: Vec<Placed>)
    requires
        w >= i32::MIN + 596,
        h >= i32::MIN + 430,
    ensures
        r@ == places(w as int, h as int),
{
    let list: i32 = if h - 430 > 130 {
        h - 430
    } else {
        130
    };
    let mut r: Vec<Placed> = Vec::new();
    r.push(at(Control::Title, 24, 18, 260, 34));
    r.push(at(Control::Pin, w - 596, 20, 108, 30));
    r.push(at(Control::Update, w - 480, 18, 108, 34));
    r.push(at(Control::Authorize, w - 364, 18, 94, 34));
    r.push(at(Control::Forget, w - 262, 18, 94, 34));
    r.push(at(Control::Release, w - 160, 18, 136, 34));
    r.push(at(Control::Hint, 24, 59, w - 48, 25));
    r.push(at(Control::Path, 24, 99, w - 240, 32));
    r.push(at(Control::Pick, w - 206, 98, 90, 34));
    r.push(at(Control::Scan, w - 106, 98, 82, 34));
    r.push(at(Control::Summary, 24, 151, w - 48, 26));
    r.push(at(Control::List, 24, 186, w - 48, list));
    r.push(at(Control::Notes, 24, 198 + list, w - 48, 110));
    r.push(at(Control::Acknowledge, 24, h - 83, w - 48, 24));
    r.push(at(Control::Backup, 24, h - 49, 240, 28));
    r.push(at(Control::Fill, w - 280, h - 53, 256, 36));
    r.push(at(Control::Status, 24, h - 117, w - 48, 25));
    assert(r@ =~= places(w as int, h as int));
    r
}

/// The widths of the columns of the list in a window of width `w`.
pub open spec fn widths(w: int) -> Seq<i32> {
    seq![
        112,
        52,
        (if w - 550 > 220 {
            w - 550
        } else {
            220
        }) as i32,
        70,
        80,
        180,
    ]
}

/// The widths of the columns of the list in a window of width `w`.
pub fn column_widths(w: i32) -> (r: Vec<i32>)
    requires
        w >= i32::MIN + 550,
    ensures
        r@ == widths(w as int),
{
    let name: i32 = if w - 550 > 220 {
        w - 550
    } else {
        220
    };
    let mut r: Vec<i32> = Vec::new();
    r.push(112);
    r.push(52);
    r.push(name);
    r.push(70);
    r.push(80);
    r.push(180);
    assert(r@ =~= widths(w as int));
    r
}

/// The buttons at the top stand side by side, and the notes under the list, in every window that is
/// large enough for them.
pub proof fn controls_do_not_overlap(w: int, h: int)
    requires
        960 <= w <= i32::MAX,
        640 <= h <= i32::MAX,
    ensures
        ({
            let p = places(w, h);
            &&& forall|i: int|
                0 <= i < 5 ==> (#[trigger] p[i]).left + p[i].width <= p[i + 1].left
            &&& p[7].left + p[7].width <= p[8].left && p[8].left + p[8].width <= p[9].left
            &&& p[11].top + p[11].height <= p[12].top
            &&& p[12].top + p[12].height <= p[16].top
            &&& p[16].top + p[16].height <= p[13].top
            &&& p[13].top + p[13].height <= p[15].top
        }),
{
    let p = places(w, h);
    assert(p[0].left + p[0].width <= p[1].left);
    assert(p[1].left + p[1].width <= p[2].left);
    assert(p[2].left + p[2].width <= p[3].left);
    assert(p[3].left + p[3].width <= p[4].left);
    assert(p[4].left + p[4].width <= p[5].left);
}

/// A rectangle: its left, top, right and bottom.
#[derive(Clone, Copy, Debug, PartialEq, Eq, Structural)]
pub struct Area {
    pub left: i32,
    pub top: i32,
    pub right: i32,
    pub bottom: i32,
}

/// The width of the button in the caption, at a resolution.
pub open spec fn pin_width(dpi: int) -> int {
    44 * dpi / 96
}

/// Whether the system told where its buttons in the caption are.
pub open spec fn told(bounds: Area) -> bool {
    bounds.left < bounds.right && bounds.top < bounds.bottom
}

/// Where the buttons of the system in the caption are, within the window: as the system told, or
/// else three of them at the right of the caption. Left, top and bottom.
pub open spec fn button_bounds(
    window: Area,
    bounds: Area,
    dpi: int,
    frame: int,
    caption: int,
) -> (int, int, int) {
    if told(bounds) {
        (bounds.left as int, bounds.top as int, bounds.bottom as int)
    } else {
        (
            window.right - window.left - frame - 3 * pin_width(dpi),
            frame,
            frame + caption,
        )
    }
}

/// The place of the button in the caption, on the screen: left, top, width and height.
pub open spec fn pin_place(window: Area, bounds: Area, dpi: int, frame: int, caption: int) -> (
    int,
    int,
    int,
    int,
) {
    let b = button_bounds(window, bounds, dpi, frame, caption);
    (
        window.left + b.0 - pin_width(dpi),
        window.top + b.1,
        pin_width(dpi),
        b.2 - b.1,
    )
}

/// Whether a number fits 32 bits.
pub open spec fn fits(n: int) -> bool {
    i32::MIN <= n <= i32::MAX
}

/// The place of the button in the caption, on the screen, to the left of those of the system:
/// `bounds` is what the system told of where these are in the window, `frame` the thickness of the
/// frame of the window and `caption` the height of its caption.
pub fn pin_position(window: Area, bounds: Area, dpi: u32, frame: i32, caption: i32) -> (r: (
    i32,
    i32,
    i32,
    i32,
))
    requires
        ({
            let p = pin_place(window, bounds, dpi as int, frame as int, caption as int);
            fits(p.0) && fits(p.1) && fits(p.2) && fits(p.3)
        }),
    ensures
        pin_place(window, bounds, dpi as int, frame as int, caption as int) == (
            r.0 as int,
            r.1 as int,
            r.2 as int,
            r.3 as int,
        ),
{
    let width: i64 = 44 * (dpi as i64) / 96;
    let (left, top, bottom): (i64, i64, i64) = if bounds.left < bounds.right && bounds.top
        < bounds.bottom {
        (bounds.left as i64, bounds.top as i64, bounds.bottom as i64)
    } else {
        (
            window.right as i64 - window.left as i64 - frame as i64 - 3 * width,
            frame as i64,
            frame as i64 + caption as i64,
        )
    };
    let x: i64 = window.left as i64 + left - width;
    let y: i64 = window.top as i64 + top;
    (x as i32, y as i32, width as i32, (bottom - top) as i32)
}

/// The button moves with the window: by as much as the window moves, and without changing its size.
pub proof fn the_pin_moves_with_the_window(
    window: Area,
    moved: Area,
    bounds: Area,
    dpi: int,
    frame: int,
    caption: int,
    dx: int,
    dy: int,
)
    requires
        moved.left == window.left + dx,
        moved.right == window.right + dx,
        moved.top == window.top + dy,
        moved.bottom == window.bottom + dy,
    ensures
        ({
            let a = pin_place(window, bounds, dpi, frame, caption);
            let b = pin_place(moved, bounds, dpi, frame, caption);
            b == (a.0 + dx, a.1 + dy, a.2, a.3)
        }),
{
}

/// The place of the button in the caption, on the screen, if it is shown: it is hidden with a window
/// that is not visible or is minimised.
pub open spec fn shown_place(
    visible: bool,
    minimised: bool,
    window: Area,
    bounds: Area,
    dpi: int,
    frame: int,
    caption: int,
) -> Option<(int, int, int, int)> {
    if !visible || minimised {
        None
    } else {
        Some(pin_place(window, bounds, dpi, frame, caption))
    }
}

/// The place of the button in the caption, on the screen, if it is shown.
pub fn pin_shown(
    visible: bool,
    minimised: bool,
    window: Area,
    bounds: Area,
    dpi: u32,
    frame: i32,
    caption: i32,
) -> (r: Option<(i32, i32, i32, i32)>)
    requires
        shown_place(
            visible,
            minimised,
            window,
            bounds,
            dpi as int,
            frame as int,
            caption as int,
        ) matches Some(p) ==> fits(p.0) && fits(p.1) && fits(p.2) && fits(p.3),
    ensures
        shown_place(
            visible,
            minimised,
            window,
            bounds,
            dpi as int,
            frame as int,
            caption as int,
        ) == (match r {
            Some(p) => Some((p.0 as int, p.1 as int, p.2 as int, p.3 as int)),
            None => None,
        }),
{
    if !visible || minimised {
        None
    } else {
        Some(pin_position(window, bounds, dpi, frame, caption))
    }
}

/// What a message to the window means for the button in its caption.
#[derive(Clone, Copy, Debug, PartialEq, Eq, Structural)]
pub enum PinEvent {
    /// Nothing.
    Nothing,
    /// It is to be put in its place.
    Place,
    /// It is to be taken away.
    Remove,
}

/// What the message with the given number to the window means for the button in its caption: it goes
/// with the window, and is put in its place where the window is moved, sized, shown, activated or
/// enabled, or its resolution changes.
pub open spec fn event_of(message: u32) -> PinEvent {
    if message == 0x2 {
        PinEvent::Remove
    } else if message == 0x47 || message == 0x5 || message == 0x18 || message == 0x6 || message
        == 0xa || message == 0x2e0 {
        PinEvent::Place
    } else {
        PinEvent::Nothing
    }
}

/// What the message with the given number to the window means for the button in its caption.
pub fn owner_event(message: u32) -> (r: PinEvent)
    ensures
        r == event_of(message),
{
    if message == 0x2 {
        PinEvent::Remove
    } else if message == 0x47 || message == 0x5 || message == 0x18 || message == 0x6 || message
        == 0xa || message == 0x2e0 {
        PinEvent::Place
    } else {
        PinEvent::Nothing
    }
}

/// The button in the caption: it is not there any more, or it is there, hidden or at a place.
pub enum Button {
    Gone,
    Hidden,
    At(int, int, int, int),
}

/// What is to be known of the window of the button.
pub struct Owner {
    pub visible: bool,
    pub minimised: bool,
    pub window: Area,
    pub bounds: Area,
    pub dpi: int,
    pub frame: int,
    pub caption: int,
}

/// The button in the caption behind a message to its window.
pub open spec fn button_after(button: Button, message: u32, owner: Owner) -> Button {
    match (button, event_of(message)) {
        (Button::Gone, _) => Button::Gone,
        (_, PinEvent::Remove) => Button::Gone,
        (_, PinEvent::Nothing) => button,
        (_, PinEvent::Place) => match shown_place(
            owner.visible,
            owner.minimised,
            owner.window,
            owner.bounds,
            owner.dpi,
            owner.frame,
            owner.caption,
        ) {
            Some((left, top, width, height)) => Button::At(left, top, width, height),
            None => Button::Hidden,
        },
    }
}

/// An area that lies elsewhere by the given distances.
pub open spec fn moved_by(a: Area, b: Area, dx: int, dy: int) -> bool {
    &&& b.left == a.left + dx
    &&& b.right == a.right + dx
    &&& b.top == a.top + dy
    &&& b.bottom == a.bottom + dy
}

/// The button follows its window. Where the window was moved, it moves by as much; with a minimised
/// window it is hidden, and shown again with one that was restored; it lies between the edges of a
/// window that is wide enough; and it goes with the window.
pub proof fn the_pin_follows_the_window(
    button: Button,
    owner: Owner,
    moved: Area,
    dx: int,
    dy: int,
)
    requires
        !(button is Gone),
        owner.visible,
        !owner.minimised,
        moved_by(owner.window, moved, dx, dy),
    ensures
        ({
            let placed = button_after(button, 0x47, owner);
            let then = button_after(placed, 0x47, Owner { window: moved, ..owner });
            let hidden = button_after(placed, 0x5, Owner { minimised: true, ..owner });
            &&& placed matches Button::At(x, y, w, h) && then == Button::At(x + dx, y + dy, w, h)
            &&& hidden == Button::Hidden
            &&& button_after(hidden, 0x5, owner) == placed
            &&& button_after(placed, 0x2, owner) == Button::Gone
        }),
        ({
            let w = owner.window.right - owner.window.left;
            let roomy = if told(owner.bounds) {
                pin_width(owner.dpi) <= owner.bounds.left <= w
            } else {
                owner.frame >= 0 && owner.dpi >= 0 && owner.frame + 4 * pin_width(owner.dpi) <= w
            };
            roomy ==> (button_after(button, 0x5, owner) matches Button::At(x, _, width, _)
                && owner.window.left <= x && x + width <= owner.window.right)
        }),
{
}

/// Whether letting the mouse button go is a click: it was pressed on the button, is let go on it, and
/// the window is enabled.
pub fn is_click(
    captured: bool,
    x: i32,
    y: i32,
    width: i32,
    height: i32,
    enabled: bool,
) -> (r: bool)
    ensures
        r == (captured && 0 <= x < width && 0 <= y < height && enabled),
{
    captured && x >= 0 && y >= 0 && x < width && y < height && enabled
}

/// Whether the window is kept on top once the mouse button was let go, where that is to be changed.
pub open spec fn clicked(click: bool, pinned: bool) -> Option<bool> {
    if click {
        Some(!pinned)
    } else {
        None
    }
}

/// Whether the window is kept on top once the mouse button was let go, where that is to be changed.
pub fn after_click(click: bool, pinned: bool) -> (r: Option<bool>)
    ensures
        r == clicked(click, pinned),
{
    if click {
        Some(!pinned)
    } else {
        None
    }
}

/// A click changes whether the window is kept on top, and a second one changes it back.
pub proof fn two_clicks_change_nothing(pinned: bool)
    ensures
        clicked(true, pinned) matches Some(p) && p != pinned && clicked(true, p) == Some(pinned),
{
}

/// What the button says of itself.
pub fn pin_label(pinned: bool) -> (r: &'static str)
    ensures
        r@ == (if pinned {
            "窗口置顶：已开启"@
        } else {
            "窗口置顶：未开启"@
        }),
{
    if pinned {
        "窗口置顶：已开启"
    } else {
        "窗口置顶：未开启"
    }
}

/// The window holds every control once, each where it belongs. The ones at the right keep their distance
/// from the right edge, the ones at the bottom that from the bottom, and the list takes up the room
/// between.
pub proof fn controls_keep_their_distances(w: int, h: int, dw: int, dh: int)
    requires
        960 <= w,
        640 <= h,
        0 <= dw,
        0 <= dh,
        w + dw <= i32::MAX,
        h + dh <= i32::MAX,
    ensures
        ({
            let p = places(w, h);
            let q = places(w + dw, h + dh);
            &&& p.len() == 17 && q.len() == 17
            &&& forall|i: int| 0 <= i < 17 ==> (#[trigger] p[i]).control == q[i].control
            &&& forall|i: int, j: int|
                0 <= i < j < 17 ==> (#[trigger] p[i]).control != (#[trigger] p[j]).control
            &&& forall|i: int|
                1 <= i < 6 || i == 8 || i == 9 || i == 15 ==> (#[trigger] q[i]).left == p[i].left + dw
                    && q[i].width == p[i].width
            &&& forall|i: int|
                i == 0 || i == 14 ==> (#[trigger] q[i]).left == p[i].left && q[i].width == p[i].width
            &&& forall|i: int|
                i == 6 || i == 7 || 10 <= i < 14 || i == 16 ==> (#[trigger] q[i]).left == p[i].left
                    && q[i].width == p[i].width + dw
            &&& forall|i: int| 0 <= i < 12 ==> (#[trigger] q[i]).top == p[i].top
            &&& forall|i: int| 12 <= i < 17 ==> (#[trigger] q[i]).top == p[i].top + dh
            &&& forall|i: int|
                0 <= i < 17 && i != 11 ==> (#[trigger] q[i]).height == p[i].height
            &&& q[11].height == p[11].height + dh
        }),
{
}

/// The controls of the smallest window: left, top, width and height of each.
pub proof fn controls_of_the_smallest_window()
    ensures
        ({
            let p = places(960, 640);
            &&& p[0] == placed(Control::Title, 24, 18, 260, 34)
            &&& p[1] == placed(Control::Pin, 364, 20, 108, 30)
            &&& p[2] == placed(Control::Update, 480, 18, 108, 34)
            &&& p[3] == placed(Control::Authorize, 596, 18, 94, 34)
            &&& p[4] == placed(Control::Forget, 698, 18, 94, 34)
            &&& p[5] == placed(Control::Release, 800, 18, 136, 34)
            &&& p[6] == placed(Control::Hint, 24, 59, 912, 25)
            &&& p[7] == placed(Control::Path, 24, 99, 720, 32)
            &&& p[8] == placed(Control::Pick, 754, 98, 90, 34)
            &&& p[9] == placed(Control::Scan, 854, 98, 82, 34)
            &&& p[10] == placed(Control::Summary, 24, 151, 912, 26)
            &&& p[11] == placed(Control::List, 24, 186, 912, 210)
            &&& p[12] == placed(Control::Notes, 24, 408, 912, 110)
            &&& p[13] == placed(Control::Acknowledge, 24, 557, 912, 24)
            &&& p[14] == placed(Control::Backup, 24, 591, 240, 28)
            &&& p[15] == placed(Control::Fill, 680, 587, 256, 36)
            &&& p[16] == placed(Control::Status, 24, 523, 912, 25)
        }),
{
}

/// The list is never lower than 130, and its columns have fixed widths but for the name, which takes up
/// what is left and is never narrower than 220.
pub proof fn lists_have_their_size(w: int, h: int)
    requires
        w <= i32::MAX,
    ensures
        h <= 560 ==> list_height(h) == 130,
        h > 560 ==> list_height(h) == h - 430,
        widths(w).len() == 6,
        widths(w)[0] == 112,
        widths(w)[1] == 52,
        w <= 770 ==> widths(w)[2] == 220,
        w > 770 ==> widths(w)[2] == w - 550,
        widths(w)[3] == 70,
        widths(w)[4] == 80,
        widths(w)[5] == 180,
{
}

/// The button stands right before the buttons of the system, at their height. Where the system does not
/// tell where those are, there are three as wide as it at the right end of the caption.
pub proof fn the_pin_stands_before_the_buttons(
    window: Area,
    bounds: Area,
    dpi: int,
    frame: int,
    caption: int,
)
    requires
        dpi >= 0,
    ensures
        ({
            let (x, y, w, h) = pin_place(window, bounds, dpi, frame, caption);
            let known = bounds.left < bounds.right && bounds.top < bounds.bottom;
            &&& 96 * w <= 44 * dpi < 96 * (w + 1)
            &&& known ==> x + w == window.left + bounds.left && y == window.top + bounds.top && h
                == bounds.bottom - bounds.top
            &&& !known ==> x + 4 * w == window.right - frame && y == window.top + frame && h
                == caption
        }),
{
}

/// The button is put in its place where the window is moved, sized, shown, activated or enabled or its
/// resolution changes, and goes with the window; no other message matters to it.
pub proof fn the_pin_hears_of_the_window(message: u32)
    ensures
        event_of(message) == PinEvent::Remove <==> message == 2,
        event_of(message) == PinEvent::Place <==> message == 5 || message == 6 || message == 10
            || message == 24 || message == 71 || message == 736,
{
}

/// The controls have the numbers from 101 on in their order, but for the two that only say something.
pub proof fn controls_have_their_numbers()
    ensures
        Control::Title.id() == 1,
        Control::Hint.id() == 2,
        Control::Path.id() == 101,
        Control::Pick.id() == 102,
        Control::Scan.id() == 103,
        Control::List.id() == 104,
        Control::Notes.id() == 105,
        Control::Backup.id() == 106,
        Control::Acknowledge.id() == 107,
        Control::Fill.id() == 108,
        Control::Summary.id() == 109,
        Control::Status.id() == 110,
        Control::Pin.id() == 111,
        Control::Update.id() == 112,
        Control::Authorize.id() == 113,
        Control::Forget.id() == 114,
        Control::Release.id() == 115,
{
}

/// Letting the mouse button go is a click where it was pressed on the button and is let go on it, in a
/// window that is enabled; the button says whether the window is kept on top.
pub proof fn clicks_are_on_the_button(
    captured: bool,
    x: i32,
    y: i32,
    width: i32,
    height: i32,
    enabled: bool,
)
    ensures
        forall|r: bool| #[trigger]
            call_ensures(is_click, (captured, x, y, width, height, enabled), r) ==> (r <==> captured
                && enabled && 0 <= x && x < width && 0 <= y && y < height),
        forall|pinned: bool, r: &'static str| #[trigger]
            call_ensures(pin_label, (pinned,), r) ==> r@ == (if pinned {
                "窗口置顶：已开启"@
            } else {
                "窗口置顶：未开启"@
            }),
{
}

} // verus!
