//! Notifications of the window server and what they mean.

use vstd::prelude::*;

verus! {

pub const EVENT_WINDOW_CLOSE: u32 = 804;

pub const EVENT_WINDOW_MOVE: u32 = 806;

pub const EVENT_WINDOW_RESIZE: u32 = 807;

pub const EVENT_WINDOW_REORDER: u32 = 808;

pub const EVENT_WINDOW_UNHIDE: u32 = 815;

pub const EVENT_WINDOW_HIDE: u32 = 816;

pub const EVENT_WINDOW_CREATE: u32 = 1325;

pub const EVENT_WINDOW_DESTROY: u32 = 1326;

pub const EVENT_SPACE_CHANGE: u32 = 1401;

pub const EVENT_FRONT_CHANGE: u32 = 1508;

/// Something that happened to the window of that id, or to the whole screen.
#[derive(Clone, Copy, Debug, PartialEq, Eq, Structural)]
pub enum Event {
    Move(u32),
    Resize(u32),
    Close(u32),
    Hide(u32),
    Unhide(u32),
    Create(u32),
    Destroy(u32),
    SpaceChange,
    FrontChange,
}

/// What a notification carries, and with it how it is read.
#[derive(Clone, Copy, Debug, PartialEq, Eq, Structural)]
pub enum Handler {
    /// A window id.
    Window,
    /// A space id and a window id.
    Spawn,
    /// Nothing: the space changed.
    Space,
    /// Nothing: the front process changed.
    Front,
}

/// The notifications to register for, with their handlers.
pub open spec fn registered() -> Seq<(u32, Handler)> {
    seq![
        (EVENT_WINDOW_CLOSE, Handler::Window),
        (EVENT_WINDOW_MOVE, Handler::Window),
        (EVENT_WINDOW_RESIZE, Handler::Window),
        (EVENT_WINDOW_REORDER, Handler::Window),
        (EVENT_WINDOW_HIDE, Handler::Window),
        (EVENT_WINDOW_UNHIDE, Handler::Window),
        (EVENT_WINDOW_CREATE, Handler::Spawn),
        (EVENT_WINDOW_DESTROY, Handler::Spawn),
        (EVENT_SPACE_CHANGE, Handler::Space),
        (EVENT_FRONT_CHANGE, Handler::Front),
    ]
}

/// The notifications to register for, in the order of registration.
pub fn register() -> (r: Vec<(u32, Handler)>)
    ensures
        r@ == registered(),
{
    let mut r: Vec<(u32, Handler)> = Vec::new();
    r.push((EVENT_WINDOW_CLOSE, Handler::Window));
    r.push((EVENT_WINDOW_MOVE, Handler::Window));
    r.push((EVENT_WINDOW_RESIZE, Handler::Window));
    r.push((EVENT_WINDOW_REORDER, Handler::Window));
    r.push((EVENT_WINDOW_HIDE, Handler::Window));
    r.push((EVENT_WINDOW_UNHIDE, Handler::Window));
    r.push((EVENT_WINDOW_CREATE, Handler::Spawn));
    r.push((EVENT_WINDOW_DESTROY, Handler::Spawn));
    r.push((EVENT_SPACE_CHANGE, Handler::Space));
    r.push((EVENT_FRONT_CHANGE, Handler::Front));
    assert(r@ =~= registered());
    r
}

/// The number in the four bytes from `at` on, least byte first.
pub open spec fn number_at(data: Seq<u8>, at: int) -> int {
    data[at] + 0x100 * data[at + 1] + 0x1_0000 * data[at + 2] + 0x100_0000 * data[at + 3]
}

fn read_number(data: &[u8], at: usize) -> (r: u32)
    requires
        at + 4 <= data@.len(),
    ensures
        r == number_at(data@, at as int),
{
    data[at] as u32 + 0x100 * data[at + 1] as u32 + 0x1_0000 * data[at + 2] as u32 + 0x100_0000
        * data[at + 3] as u32
}

/// The window id that a notification of the [`Handler::Window`] kind starts with.
pub fn window_payload(data: &[u8]) -> (wid: u32)
    requires
        data@.len() >= 4,
    ensures
        wid == number_at(data@, 0),
{
    read_number(data, 0)
}

/// The window id that follows the eight bytes of the space id in a notification of
/// the [`Handler::Spawn`] kind.
pub fn spawn_payload(data: &[u8]) -> (wid: u32)
    requires
        data@.len() >= 12,
    ensures
        wid == number_at(data@, 8),
{
    read_number(data, 8)
}

/// The window belongs to this process.
pub fn is_own_window(owner_pid: i32, own_pid: i32) -> (r: bool)
    ensures
        r == (owner_pid == own_pid),
{
    owner_pid == own_pid
}

/// What a window notification means for a window of another process.
pub open spec fn window_events(event: u32, wid: u32) -> Seq<Event> {
    if event == EVENT_WINDOW_MOVE {
        seq![Event::Move(wid)]
    } else if event == EVENT_WINDOW_RESIZE {
        seq![Event::Resize(wid)]
    } else if event == EVENT_WINDOW_CLOSE {
        seq![Event::Close(wid)]
    } else if event == EVENT_WINDOW_REORDER {
        // A reordering may be a change of focus within one application.
        seq![Event::Move(wid), Event::FrontChange]
    } else if event == EVENT_WINDOW_HIDE {
        seq![Event::Hide(wid)]
    } else if event == EVENT_WINDOW_UNHIDE {
        seq![Event::Unhide(wid)]
    } else {
        seq![]
    }
}

/// What a notification about a window's life means for a window of another process.
pub open spec fn spawn_events(event: u32, wid: u32) -> Seq<Event> {
    if event == EVENT_WINDOW_CREATE {
        seq![Event::Create(wid)]
    } else if event == EVENT_WINDOW_DESTROY {
        seq![Event::Destroy(wid)]
    } else {
        seq![]
    }
}

/// The events that a window notification stands for. `owner_pid` is the process
/// that owns the window.
pub fn window_handler(event: u32, wid: u32, owner_pid: i32, own_pid: i32) -> (r: Vec<Event>)
    ensures
        r@ == (if wid == 0 || owner_pid == own_pid {
            seq![]
        } else {
            window_events(event, wid)
        }),
{
    let mut r: Vec<Event> = Vec::new();
    if wid == 0 || is_own_window(owner_pid, own_pid) {
        return r;
    }
    if event == EVENT_WINDOW_MOVE {
        r.push(Event::Move(wid));
    } else if event == EVENT_WINDOW_RESIZE {
        r.push(Event::Resize(wid));
    } else if event == EVENT_WINDOW_CLOSE {
        r.push(Event::Close(wid));
    } else if event == EVENT_WINDOW_REORDER {
        r.push(Event::Move(wid));
        r.push(Event::FrontChange);
    } else if event == EVENT_WINDOW_HIDE {
        r.push(Event::Hide(wid));
    } else if event == EVENT_WINDOW_UNHIDE {
        r.push(Event::Unhide(wid));
    }
    assert(r@ =~= window_events(event, wid));
    r
}

/// The events that a notification about a window's life stands for. `owner_pid` is
/// the process that owns the window.
pub fn spawn_handler(event: u32, wid: u32, owner_pid: i32, own_pid: i32) -> (r: Vec<Event>)
    ensures
        r@ == (if wid == 0 || owner_pid == own_pid {
            seq![]
        } else {
            spawn_events(event, wid)
        }),
{
    let mut r: Vec<Event> = Vec::new();
    if wid == 0 || is_own_window(owner_pid, own_pid) {
        return r;
    }
    if event == EVENT_WINDOW_CREATE {
        r.push(Event::Create(wid));
    } else if event == EVENT_WINDOW_DESTROY {
        r.push(Event::Destroy(wid));
    }
    assert(r@ =~= spawn_events(event, wid));
    r
}

pub fn space_handler() -> (r: Event)
    ensures
        r == Event::SpaceChange,
{
    Event::SpaceChange
}

pub fn front_handler() -> (r: Event)
    ensures
        r == Event::FrontChange,
{
    Event::FrontChange
}

/// No notification that is registered for is lost on a window of another process,
/// and each is registered for once.
pub proof fn law_registered_notifications_mean_something(i: int, wid: u32)
    requires
        0 <= i < registered().len(),
    ensures
        registered()[i].1 == Handler::Window ==> window_events(registered()[i].0, wid).len() > 0,
        registered()[i].1 == Handler::Spawn ==> spawn_events(registered()[i].0, wid).len() > 0,
        forall|j: int|
            0 <= j < registered().len() && j != i ==> (#[trigger] registered()[j]).0
                != registered()[i].0,
{
}

/// What each notification code means for a window of another process.
pub proof fn law_notification_codes(wid: u32)
    ensures
        window_events(804, wid) == seq![Event::Close(wid)],
        window_events(806, wid) == seq![Event::Move(wid)],
        window_events(807, wid) == seq![Event::Resize(wid)],
        window_events(808, wid) == seq![Event::Move(wid), Event::FrontChange],
        window_events(815, wid) == seq![Event::Unhide(wid)],
        window_events(816, wid) == seq![Event::Hide(wid)],
        spawn_events(1325, wid) == seq![Event::Create(wid)],
        spawn_events(1326, wid) == seq![Event::Destroy(wid)],
{
}

/// No other notification means anything.
pub proof fn law_other_codes_mean_nothing(code: u32, wid: u32)
    ensures
        window_events(code, wid).len() > 0 <==> code == 804 || code == 806 || code == 807 || code
            == 808 || code == 815 || code == 816,
        spawn_events(code, wid).len() > 0 <==> code == 1325 || code == 1326,
{
}

/// All codes that mean something are registered for, with the handler that reads what
/// they carry, and so are the changes of the space and of the front process.
pub proof fn law_all_codes_are_registered(code: u32, handler: Handler, wid: u32)
    ensures
        registered().contains((code, handler)) <==> match handler {
            Handler::Window => window_events(code, wid).len() > 0,
            Handler::Spawn => spawn_events(code, wid).len() > 0,
            Handler::Space => code == 1401,
            Handler::Front => code == 1508,
        },
{
    let r = registered();
    assert(r[0] == (804u32, Handler::Window) && r[1] == (806u32, Handler::Window) && r[2] == (
        807u32,
        Handler::Window,
    ) && r[3] == (808u32, Handler::Window) && r[4] == (816u32, Handler::Window) && r[5] == (
        815u32,
        Handler::Window,
    ) && r[6] == (1325u32, Handler::Spawn) && r[7] == (1326u32, Handler::Spawn) && r[8] == (
        1401u32,
        Handler::Space,
    ) && r[9] == (1508u32, Handler::Front));
}

/// The four bytes are the digits of the number to the base 256, least first.
pub proof fn law_numbers_by_their_bytes(data: Seq<u8>, at: int)
    requires
        0 <= at,
        at + 4 <= data.len(),
    ensures
        0 <= number_at(data, at) < 0x1_0000_0000,
        number_at(data, at) % 0x100 == data[at],
        (number_at(data, at) / 0x100) % 0x100 == data[at + 1],
        (number_at(data, at) / 0x1_0000) % 0x100 == data[at + 2],
        number_at(data, at) / 0x100_0000 == data[at + 3],
{
}

}
