//! The keyboard input bridge: device events are normalised to engine key
//! codes and handed to the engine through a first-in, first-out queue.

use crossbeam::queue::SegQueue;
use vstd::prelude::*;

verus! {

/// Engine key codes that the keyboard table produces.
pub const KEY_RIGHTARROW: u8 = 0xae;

pub const KEY_LEFTARROW: u8 = 0xac;

pub const KEY_UPARROW: u8 = 0xad;

pub const KEY_DOWNARROW: u8 = 0xaf;

pub const KEY_STRAFE_L: u8 = 0xa0;

pub const KEY_STRAFE_R: u8 = 0xa1;

pub const KEY_USE: u8 = 0xa2;

pub const KEY_FIRE: u8 = 0xa3;

pub const KEY_ESCAPE: u8 = 27;

pub const KEY_ENTER: u8 = 13;

pub const KEY_TAB: u8 = 9;

pub const KEY_F1: u8 = 0x80 + 0x3b;

pub const KEY_F2: u8 = 0x80 + 0x3c;

pub const KEY_F3: u8 = 0x80 + 0x3d;

pub const KEY_F4: u8 = 0x80 + 0x3e;

pub const KEY_F5: u8 = 0x80 + 0x3f;

pub const KEY_F6: u8 = 0x80 + 0x40;

pub const KEY_F7: u8 = 0x80 + 0x41;

pub const KEY_F8: u8 = 0x80 + 0x42;

pub const KEY_F9: u8 = 0x80 + 0x43;

pub const KEY_F10: u8 = 0x80 + 0x44;

pub const KEY_F11: u8 = 0x80 + 0x57;

pub const KEY_F12: u8 = 0x80 + 0x58;

pub const KEY_BACKSPACE: u8 = 0x7f;

pub const KEY_PAUSE: u8 = 0xff;

pub const KEY_EQUALS: u8 = 0x3d;

pub const KEY_MINUS: u8 = 0x2d;

pub const KEY_RSHIFT: u8 = 0x80 + 0x36;

pub const KEY_RALT: u8 = 0x80 + 0x38;

pub const KEY_CAPSLOCK: u8 = 0x80 + 0x3a;

pub const KEY_HOME: u8 = 0x80 + 0x47;

pub const KEY_END: u8 = 0x80 + 0x4f;

pub const KEY_PGUP: u8 = 0x80 + 0x49;

pub const KEY_PGDN: u8 = 0x80 + 0x51;

pub const KEY_DEL: u8 = 0x80 + 0x53;

/// One decoded line of the keyboard device.
#[derive(Clone, Copy, Debug, PartialEq, Eq)]
pub struct KeyboardEvent {
    /// 0 while the key goes down, anything else when it comes up.
    pub state: u8,
    /// The device's code for the key.
    pub keycode: u8,
    /// The character the key stands for, where the device knows one.
    pub unicode: Option<char>,
}

/// A key event in the engine's vocabulary.
#[derive(Clone, Copy, Debug, PartialEq, Eq, Structural)]
pub struct KeyEvent {
    pub key: u8,
    pub pressed: bool,
}

/// The engine key for a device key code that the table lists.
pub open spec fn table_key(keycode: u8) -> Option<u8> {
    match keycode {
        103 => Some(KEY_RIGHTARROW),
        101 => Some(KEY_LEFTARROW),
        88 => Some(KEY_UPARROW),
        102 => Some(KEY_DOWNARROW),
        84 => Some(KEY_STRAFE_L),
        85 => Some(KEY_STRAFE_R),
        96 => Some(KEY_USE),
        0 => Some(KEY_ESCAPE),
        72 => Some(KEY_ENTER),
        38 => Some(KEY_TAB),
        1 => Some(KEY_F1),
        2 => Some(KEY_F2),
        3 => Some(KEY_F3),
        4 => Some(KEY_F4),
        5 => Some(KEY_F5),
        6 => Some(KEY_F6),
        7 => Some(KEY_F7),
        8 => Some(KEY_F8),
        9 => Some(KEY_F9),
        10 => Some(KEY_F10),
        11 => Some(KEY_F11),
        12 => Some(KEY_F12),
        30 => Some(KEY_BACKSPACE),
        34 => Some(KEY_PAUSE),
        29 => Some(KEY_EQUALS),
        28 => Some(KEY_MINUS),
        76 | 87 => Some(KEY_RSHIFT),
        93 | 100 => Some(KEY_FIRE),
        95 | 97 => Some(KEY_RALT),
        60 => Some(KEY_CAPSLOCK),
        32 => Some(KEY_HOME),
        54 => Some(KEY_END),
        33 => Some(KEY_PGUP),
        55 => Some(KEY_PGDN),
        53 => Some(KEY_DEL),
        _ => if 17 <= keycode <= 26 {
            // the digit row: '0' .. '9'
            Some((0x30 + (keycode - 17)) as u8)
        } else {
            None
        },
    }
}

/// The engine key for a device event: the table's entry where there is one,
/// else the event's character if it is ASCII.
pub open spec fn key_of(keycode: u8, unicode: Option<char>) -> Option<u8> {
    match table_key(keycode) {
        Some(k) => Some(k),
        None => match unicode {
            Some(c) => if (c as u32) < 128 {
                Some(c as u8)
            } else {
                None
            },
            None => None,
        },
    }
}

/// The engine event for a device event, if its key is known.
pub open spec fn event_of(ev: KeyboardEvent) -> Option<KeyEvent> {
    match key_of(ev.keycode, ev.unicode) {
        Some(key) => Some(KeyEvent { key, pressed: ev.state == 0 }),
        None => None,
    }
}

/// The engine event for a line of the device: nothing for a line that did not
/// decode, else what `event_of` gives.
pub open spec fn line_event(parsed: Option<KeyboardEvent>) -> Option<KeyEvent> {
    match parsed {
        Some(ev) => event_of(ev),
        None => None,
    }
}

fn table_lookup(keycode: u8) -> (key: Option<u8>)
    ensures
        key == table_key(keycode),
{
    match keycode {
        103 => Some(KEY_RIGHTARROW),
        101 => Some(KEY_LEFTARROW),
        88 => Some(KEY_UPARROW),
        102 => Some(KEY_DOWNARROW),
        84 => Some(KEY_STRAFE_L),
        85 => Some(KEY_STRAFE_R),
        96 => Some(KEY_USE),
        0 => Some(KEY_ESCAPE),
        72 => Some(KEY_ENTER),
        38 => Some(KEY_TAB),
        1 => Some(KEY_F1),
        2 => Some(KEY_F2),
        3 => Some(KEY_F3),
        4 => Some(KEY_F4),
        5 => Some(KEY_F5),
        6 => Some(KEY_F6),
        7 => Some(KEY_F7),
        8 => Some(KEY_F8),
        9 => Some(KEY_F9),
        10 => Some(KEY_F10),
        11 => Some(KEY_F11),
        12 => Some(KEY_F12),
        17 => Some(0x30),
        18 => Some(0x31),
        19 => Some(0x32),
        20 => Some(0x33),
        21 => Some(0x34),
        22 => Some(0x35),
        23 => Some(0x36),
        24 => Some(0x37),
        25 => Some(0x38),
        26 => Some(0x39),
        30 => Some(KEY_BACKSPACE),
        34 => Some(KEY_PAUSE),
        29 => Some(KEY_EQUALS),
        28 => Some(KEY_MINUS),
        76 | 87 => Some(KEY_RSHIFT),
        93 | 100 => Some(KEY_FIRE),
        95 | 97 => Some(KEY_RALT),
        60 => Some(KEY_CAPSLOCK),
        32 => Some(KEY_HOME),
        54 => Some(KEY_END),
        33 => Some(KEY_PGUP),
        55 => Some(KEY_PGDN),
        53 => Some(KEY_DEL),
        _ => None,
    }
}

/// Maps a device key code to the engine's key code, falling back on the
/// event's character where the table has no entry and the character is ASCII.
pub fn map_key(keycode: u8, unicode: Option<char>) -> (key: Option<u8>)
    ensures
        key == key_of(keycode, unicode),
{
    match table_lookup(keycode) {
        Some(k) => Some(k),
        None => match unicode {
            Some(c) => if (c as u32) < 128 {
                Some(c as u8)
            } else {
                None
            },
            None => None,
        },
    }
}

/// Normalises a device event. A key goes down when `state` is 0.
pub fn normalise(ev: KeyboardEvent) -> (out: Option<KeyEvent>)
    ensures
        out == event_of(ev),
{
    match map_key(ev.keycode, ev.unicode) {
        Some(key) => Some(KeyEvent { key, pressed: ev.state == 0 }),
        None => None,
    }
}

/// `crossbeam::queue::SegQueue`, the unbounded queue between threads, taken
/// as an opaque value: nothing is known of what is inside it but through
/// `queued`.
#[verifier::external_type_specification]
#[verifier::external_body]
#[verifier::reject_recursive_types(T)]
pub struct ExSegQueue<T>(SegQueue<T>);

/// The events that wait in a queue, oldest first. What the queue's methods
/// do to them is said where they are called, and believed.
pub uninterp spec fn queued(q: SegQueue<KeyEvent>) -> Seq<KeyEvent>;

/// `SegQueue::new`: a queue that holds nothing.
#[verifier::external_body]
fn queue_new() -> (q: SegQueue<KeyEvent>)
    ensures
        queued(q) == Seq::<KeyEvent>::empty(),
{
    SegQueue::new()
}

/// `SegQueue::push` on a queue that nobody else holds: the element goes to
/// the tail, behind everything that waits.
#[verifier::external_body]
fn queue_push(q: &mut SegQueue<KeyEvent>, ev: KeyEvent)
    ensures
        queued(*final(q)) == queued(*old(q)).push(ev),
{
    q.push(ev)
}

/// `SegQueue::pop` on a queue that nobody else holds: `None` and no change
/// when it is empty, else the head element, which leaves the queue.
#[verifier::external_body]
fn queue_pop(q: &mut SegQueue<KeyEvent>) -> (r: Option<KeyEvent>)
    ensures
        queued(*old(q)).len() == 0 ==> r is None && queued(*final(q)) == queued(*old(q)),
        queued(*old(q)).len() > 0 ==> r == Some(queued(*old(q)).first()) && queued(*final(q))
            == queued(*old(q)).drop_first(),
{
    q.pop()
}

/// The queue between the keyboard reader and the engine's per-tick poll.
pub struct InputBridge {
    queue: SegQueue<KeyEvent>,
}

impl View for InputBridge {
    type V = Seq<KeyEvent>;

    /// The events that wait for the engine, oldest first.
    closed spec fn view(&self) -> Seq<KeyEvent> {
        queued(self.queue)
    }
}

/// What a poll returns from a queue that holds `q`.
pub open spec fn head_of(q: Seq<KeyEvent>) -> Option<KeyEvent> {
    if q.len() > 0 {
        Some(q.first())
    } else {
        None
    }
}

/// What a queue that held `q` holds after one poll.
pub open spec fn after_poll(q: Seq<KeyEvent>) -> Seq<KeyEvent> {
    if q.len() > 0 {
        q.drop_first()
    } else {
        q
    }
}

/// What a queue that held `q` holds after `n` polls.
pub open spec fn after_polls(q: Seq<KeyEvent>, n: nat) -> Seq<KeyEvent>
    decreases n,
{
    if n == 0 {
        q
    } else {
        after_polls(after_poll(q), (n - 1) as nat)
    }
}

/// What a queue that held `q` holds after the events of `events` were pushed,
/// first to last.
pub open spec fn after_pushes(q: Seq<KeyEvent>, events: Seq<KeyEvent>) -> Seq<KeyEvent>
    decreases events.len(),
{
    if events.len() == 0 {
        q
    } else {
        after_pushes(q.push(events.first()), events.drop_first())
    }
}

proof fn lemma_pushes_append(q: Seq<KeyEvent>, events: Seq<KeyEvent>)
    ensures
        after_pushes(q, events) == q + events,
    decreases events.len(),
{
    if events.len() > 0 {
        lemma_pushes_append(q.push(events.first()), events.drop_first());
        assert(q.push(events.first()) + events.drop_first() =~= q + events);
    } else {
        assert(q + events =~= q);
    }
}

proof fn lemma_polls_skip(q: Seq<KeyEvent>, n: nat)
    requires
        n <= q.len(),
    ensures
        after_polls(q, n) == q.skip(n as int),
    decreases n,
{
    if n == 0 {
        assert(q.skip(0) =~= q);
    } else {
        lemma_polls_skip(after_poll(q), (n - 1) as nat);
        assert(q.drop_first().skip(n - 1) =~= q.skip(n as int));
    }
}

/// First in, first out. Events pushed in some order onto a queue are polled
/// in that same order, behind the events that waited before them, each of
/// them once: poll number `i` returns element `i` of what waited followed by
/// what was pushed, and when all were polled the queue is empty and the next
/// poll returns nothing.
pub proof fn lemma_polled_in_push_order(q: Seq<KeyEvent>, events: Seq<KeyEvent>)
    ensures
        forall|i: nat|
            i < q.len() + events.len() ==> #[trigger] head_of(
                after_polls(after_pushes(q, events), i),
            ) == Some((q + events)[i as int]),
        after_polls(after_pushes(q, events), q.len() + events.len()) == Seq::<KeyEvent>::empty(),
        head_of(after_polls(after_pushes(q, events), q.len() + events.len())) is None,
{
    let all = q + events;
    lemma_pushes_append(q, events);
    assert forall|i: nat| i < q.len() + events.len() implies #[trigger] head_of(
        after_polls(after_pushes(q, events), i),
    ) == Some(all[i as int]) by {
        lemma_polls_skip(all, i);
    }
    lemma_polls_skip(all, all.len());
    assert(all.skip(all.len() as int) =~= Seq::<KeyEvent>::empty());
}

impl InputBridge {
    /// A bridge with no event waiting.
    pub fn new() -> (bridge: Self)
        ensures
            bridge@ == Seq::<KeyEvent>::empty(),
    {
        InputBridge { queue: queue_new() }
    }

    /// Appends an event behind those that wait.
    pub fn push(&mut self, ev: KeyEvent)
        ensures
            final(self)@ == old(self)@.push(ev),
    {
        queue_push(&mut self.queue, ev);
    }

    /// Takes in one line of the keyboard device, given as what it decoded to.
    /// A line that did not decode, or whose key is unknown, is dropped and
    /// the queue stays as it was; any other line appends its event.
    pub fn on_line(&mut self, parsed: Option<KeyboardEvent>) -> (pushed: bool)
        ensures
            pushed == line_event(parsed).is_some(),
            match line_event(parsed) {
                Some(ev) => final(self)@ == old(self)@.push(ev),
                None => final(self)@ == old(self)@,
            },
    {
        match parsed {
            Some(raw) => match normalise(raw) {
                Some(ev) => {
                    self.push(ev);
                    true
                },
                None => false,
            },
            None => false,
        }
    }

    /// The engine's poll: the oldest waiting event, which then leaves the
    /// queue, or `None` at once when nothing waits.
    pub fn poll(&mut self) -> (ev: Option<KeyEvent>)
        ensures
            ev == head_of(old(self)@),
            final(self)@ == after_poll(old(self)@),
    {
        queue_pop(&mut self.queue)
    }
}

} // verus!
