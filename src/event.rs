//! Keys, the two-state input-mode machine, and the debounce rule that the
//! input producer applies before forwarding a key.
use vstd::prelude::*;
use crate::text::{push_char, pop_char};

verus! {

/// Whether keys go to navigation commands or into the search buffer.
#[derive(Debug, Clone, Copy, PartialEq, Eq, Structural)]
pub enum InputMode {
    Normal,
    Search,
}

/// A key as the engine sees it.
#[derive(Debug, Clone, Copy, PartialEq, Eq, Structural)]
pub enum Key {
    Char(char),
    Esc,
    Enter,
    Backspace,
    Up,
    Down,
    PageUp,
    PageDown,
    Home,
    End,
    F(u8),
    Other,
}

/// One event of the stream that the application loop consumes.
#[derive(Debug, Clone, Copy, PartialEq, Eq, Structural)]
pub enum Event {
    Input(Key),
    Tick,
}

/// One step of the mode machine in search mode: the next mode, the next
/// buffer, and whether the key was consumed.
pub open spec fn search_step(buf: Seq<char>, key: Key) -> (InputMode, Seq<char>, bool) {
    match key {
        Key::Esc => (InputMode::Normal, Seq::empty(), true),
        Key::Enter => (InputMode::Normal, buf, true),
        Key::Backspace => (InputMode::Search, if buf.len() == 0 { buf } else { buf.drop_last() }, true),
        Key::Char(c) => (InputMode::Search, buf.push(c), true),
        _ => (InputMode::Search, buf, false),
    }
}

/// One step of the mode machine: normal mode consumes nothing.
pub open spec fn input_step(mode: InputMode, buf: Seq<char>, key: Key) -> (InputMode, Seq<char>, bool) {
    match mode {
        InputMode::Normal => (InputMode::Normal, buf, false),
        InputMode::Search => search_step(buf, key),
    }
}

/// The input mode and the search text typed so far.
pub struct InputState {
    pub mode: InputMode,
    pub search_input: String,
}

impl Default for InputState {
    fn default() -> (r: Self)
        ensures
            r.mode == InputMode::Normal,
            r.search_input@ == Seq::<char>::empty(),
    {
        InputState { mode: InputMode::Normal, search_input: String::new() }
    }
}

impl InputState {
    /// Starts a search session with an empty buffer.
    pub fn enter_search_mode(&mut self)
        ensures
            final(self).mode == InputMode::Search,
            final(self).search_input@ == Seq::<char>::empty(),
    {
        self.mode = InputMode::Search;
        self.search_input = String::new();
    }

    /// Feeds one key to the mode machine; returns whether the key was consumed.
    pub fn handle_input(&mut self, key: Key) -> (consumed: bool)
        ensures
            (final(self).mode, final(self).search_input@, consumed) == input_step(
                old(self).mode,
                old(self).search_input@,
                key,
            ),
    {
        match self.mode {
            InputMode::Normal => false,
            InputMode::Search => match key {
                Key::Esc => {
                    self.mode = InputMode::Normal;
                    self.search_input = String::new();
                    true
                },
                Key::Enter => {
                    self.mode = InputMode::Normal;
                    true
                },
                Key::Backspace => {
                    pop_char(&mut self.search_input);
                    true
                },
                Key::Char(c) => {
                    push_char(&mut self.search_input, c);
                    true
                },
                _ => false,
            },
        }
    }
}

/// Least time between two forwarded keys, in milliseconds.
pub const DEBOUNCE_MS: u64 = 150;

/// Whether a key at `now` is forwarded when the last one was forwarded at `last`.
pub open spec fn forwards(last: u64, interval: u64, now: u64) -> bool {
    now >= last + interval
}

/// The input producer's debounce state: when it last forwarded a key.
pub struct Debouncer {
    pub last_ms: u64,
    pub interval_ms: u64,
}

impl Debouncer {
    /// A debouncer started at `start_ms`, which counts as the last forwarded key.
    pub fn new(start_ms: u64, interval_ms: u64) -> (r: Self)
        ensures
            r.last_ms == start_ms,
            r.interval_ms == interval_ms,
    {
        Debouncer { last_ms: start_ms, interval_ms }
    }

    /// Decides whether a key seen at `now_ms` is forwarded, and records it if so.
    pub fn accept(&mut self, now_ms: u64) -> (r: bool)
        ensures
            r == forwards(old(self).last_ms, old(self).interval_ms, now_ms),
            final(self).interval_ms == old(self).interval_ms,
            final(self).last_ms == (if r { now_ms } else { old(self).last_ms }),
    {
        if now_ms >= self.last_ms && now_ms - self.last_ms >= self.interval_ms {
            self.last_ms = now_ms;
            true
        } else {
            false
        }
    }

    /// Runs keys pressed at the given times through the debouncer and returns
    /// the events that are forwarded, in order.
    pub fn forward_keys(&mut self, keys: &Vec<(u64, Key)>) -> (r: Vec<Event>)
        ensures
            r@ == forwarded(old(self).last_ms, old(self).interval_ms, keys@),
            final(self).interval_ms == old(self).interval_ms,
    {
        let ghost last0 = self.last_ms;
        let mut out: Vec<Event> = Vec::new();
        let mut i: usize = 0;
        assert(keys@.skip(0) =~= keys@);
        while i < keys.len()
            invariant
                i <= keys@.len(),
                self.interval_ms == old(self).interval_ms,
                out@ + forwarded(self.last_ms, self.interval_ms, keys@.skip(i as int))
                    == forwarded(last0, self.interval_ms, keys@),
            decreases keys@.len() - i,
        {
            let (t, k) = keys[i];
            let ghost l = self.last_ms;
            let ghost rest = keys@.skip(i as int);
            let ghost before_out = out@;
            assert(rest[0] == (t, k));
            assert(rest.drop_first() =~= keys@.skip(i + 1));
            match self.on_key(t, k) {
                Some(e) => {
                    out.push(e);
                    assert(before_out + (seq![e] + forwarded(t, self.interval_ms, keys@.skip(i + 1)))
                        =~= out@ + forwarded(t, self.interval_ms, keys@.skip(i + 1)));
                },
                None => {},
            }
            i = i + 1;
        }
        assert(keys@.skip(keys@.len() as int) =~= Seq::<(u64, Key)>::empty());
        assert(out@ + Seq::<Event>::empty() =~= out@);
        out
    }

    /// The event that a key pressed at `now_ms` yields, if it is forwarded.
    pub fn on_key(&mut self, now_ms: u64, key: Key) -> (r: Option<Event>)
        ensures
            r == (if forwards(old(self).last_ms, old(self).interval_ms, now_ms) {
                Some(Event::Input(key))
            } else {
                None::<Event>
            }),
            final(self).interval_ms == old(self).interval_ms,
            final(self).last_ms == (if r is Some { now_ms } else { old(self).last_ms }),
    {
        if self.accept(now_ms) {
            Some(Event::Input(key))
        } else {
            None
        }
    }
}

/// The events that keys pressed at the given times yield, from a debouncer
/// that last forwarded a key at `last`.
pub open spec fn forwarded(last: u64, interval: u64, keys: Seq<(u64, Key)>) -> Seq<Event>
    decreases keys.len(),
{
    if keys.len() == 0 {
        Seq::empty()
    } else if forwards(last, interval, keys[0].0) {
        seq![Event::Input(keys[0].1)] + forwarded(keys[0].0, interval, keys.drop_first())
    } else {
        forwarded(last, interval, keys.drop_first())
    }
}

/// Of two keys `k1` at `t1` and then `k2` at `t2`, where the first is
/// forwarded: less than the interval apart they yield one input event, at
/// least the interval apart they yield both, in order.
pub proof fn lemma_debounce_pair(last: u64, interval: u64, t1: u64, k1: Key, t2: u64, k2: Key)
    requires
        forwards(last, interval, t1),
        t1 <= t2,
    ensures
        t2 - t1 < interval ==> forwarded(last, interval, seq![(t1, k1), (t2, k2)]) == seq![
            Event::Input(k1),
        ],
        t2 - t1 >= interval ==> forwarded(last, interval, seq![(t1, k1), (t2, k2)]) == seq![
            Event::Input(k1),
            Event::Input(k2),
        ],
{
    let keys = seq![(t1, k1), (t2, k2)];
    let rest = keys.drop_first();
    assert(rest =~= seq![(t2, k2)]);
    assert(rest.drop_first() =~= Seq::<(u64, Key)>::empty());
    assert(forwarded(t2, interval, rest.drop_first()) == Seq::<Event>::empty());
    assert(forwarded(t1, interval, rest.drop_first()) == Seq::<Event>::empty());
    if forwards(t1, interval, t2) {
        assert(forwarded(t1, interval, rest) =~= seq![Event::Input(k2)]);
        assert(forwarded(last, interval, keys) =~= seq![Event::Input(k1), Event::Input(k2)]);
    } else {
        assert(forwarded(t1, interval, rest) =~= Seq::<Event>::empty());
        assert(forwarded(last, interval, keys) =~= seq![Event::Input(k1)]);
    }
}

} // verus!
