//! The key history widget: the last few key events, one per row, each with
//! the key's name (or code), the kind of event and its time.

use std::collections::HashMap;
use std::time::SystemTime;
use vstd::prelude::*;
use crate::clock::{millis_since, now};
use crate::text::{
    byte_len, byte_len_upto, cursor_to, dec_chars, is_ascii_seq, lemma_ascii_byte_len,
    lemma_byte_len_append, lemma_dec_ascii, push_chars, push_cursor_to, push_decimal,
    push_spaces, spaces, to_chars, truncate_bytes, truncate_bytes_exec, truncate_ok,
};

verus! {

broadcast use vstd::std_specs::hash::group_hash_axioms;

/// One key event: the key, the kind of event (13 press, 14 release, 15 and
/// 16 the scroll wheel) and its time in milliseconds since the history was
/// made.
#[derive(Clone, Copy, Debug)]
pub struct Event {
    pub key_code: u8,
    pub action_code: u8,
    pub event_time: u128,
}

impl Event {
    /// An event of `key_code` and `action_code` at the present time,
    /// measured from `time`; `None` where the clock has gone back before
    /// `time`.
    pub fn new(key_code: u8, action_code: u8, time: &SystemTime) -> (r: Option<Event>)
        ensures
            r matches Some(e) ==> e.key_code == key_code && e.action_code == action_code,
    {
        match millis_since(time) {
            Some(ms) => Some(Event { key_code, action_code, event_time: ms }),
            None => None,
        }
    }
}

/// What a [`History`] holds, apart from the moment it was made.
pub struct HistoryView {
    /// Number of rows, and of events kept.
    pub length: u8,
    /// Width of a row, in bytes.
    pub width: u8,
    pub loc_x: u8,
    pub loc_y: u8,
    /// The events shown, oldest first.
    pub entries: Seq<Event>,
    /// Names shown in place of key codes.
    pub names: Map<u8, Seq<char>>,
}

/// `pus`, shown for a press.
pub open spec fn press_text() -> Seq<char> {
    seq!['p', 'u', 's']
}

/// `rel`, shown for a release.
pub open spec fn release_text() -> Seq<char> {
    seq!['r', 'e', 'l']
}

/// The text shown for an event kind: `pus` for 13 and 15, `rel` for 14 and
/// 16, else the code.
pub open spec fn action_text(code: u8) -> Seq<char> {
    if code == 13 || code == 15 {
        press_text()
    } else if code == 14 || code == 16 {
        release_text()
    } else {
        dec_chars(code as nat)
    }
}

impl HistoryView {
    /// As many events as rows.
    pub open spec fn wf(self) -> bool {
        self.entries.len() == self.length
    }

    /// The state after `dict_add(code, name)`, and its result: the name is
    /// added and 0 returned, unless the code has a name already, which is
    /// kept and the code returned.
    pub open spec fn name_added(self, code: u8, name: Seq<char>) -> (HistoryView, u8) {
        if self.names.contains_key(code) {
            (self, code)
        } else {
            (HistoryView { names: self.names.insert(code, name), ..self }, 0)
        }
    }

    /// The state after `dict_remove(code)`, and its result: the name is
    /// removed and 0 returned, or, where the code has none, nothing changes
    /// and the code is returned.
    pub open spec fn name_removed(self, code: u8) -> (HistoryView, u8) {
        if self.names.contains_key(code) {
            (HistoryView { names: self.names.remove(code), ..self }, 0)
        } else {
            (self, code)
        }
    }

    /// The state after event `ev`: the last `length` events.
    pub open spec fn recorded(self, ev: Event) -> HistoryView {
        let all = self.entries.push(ev);
        HistoryView { entries: all.subrange(all.len() - self.length, all.len() as int), ..self }
    }

    /// The key column of a row: the key's name, or its code.
    pub open spec fn key_text(self, code: u8) -> Seq<char> {
        if self.names.contains_key(code) {
            self.names[code]
        } else {
            dec_chars(code as nat)
        }
    }

    /// A row before truncation: the key padded to 4 bytes, the event kind,
    /// padding to 8 bytes, and the time.
    pub open spec fn label(self, ev: Event) -> Seq<char> {
        let k = self.key_text(ev.key_code);
        let a = k + spaces(4 - byte_len(k)) + action_text(ev.action_code);
        a + spaces(8 - byte_len(a)) + dec_chars(ev.event_time as nat)
    }

    /// Room left on a terminal `term_width` wide, in bytes.
    pub open spec fn room(self, term_width: int) -> int {
        term_width - self.loc_x + 1
    }

    /// A row: the label cut to the widget's width, then to the room left.
    pub open spec fn row(self, ev: Event, term_width: int) -> Seq<char> {
        truncate_bytes(truncate_bytes(self.label(ev), self.width as int), self.room(term_width))
    }

    /// Whether a row can be drawn: a key column of at most 4 bytes and both
    /// cuts on character boundaries.
    pub open spec fn row_ok(self, ev: Event, term_width: int) -> bool {
        &&& byte_len(self.key_text(ev.key_code)) <= 4
        &&& truncate_ok(self.label(ev), self.width as int)
        &&& truncate_ok(
            truncate_bytes(self.label(ev), self.width as int),
            self.room(term_width),
        )
    }

    /// The inputs on which `get_tui` draws without failing.
    pub open spec fn tui_ok(self, term_width: int) -> bool {
        &&& self.wf()
        &&& self.length > 0 ==> {
            &&& self.loc_x <= term_width
            &&& self.room(term_width) <= u16::MAX
            &&& self.loc_y + self.length - 1 <= u8::MAX
        }
        &&& forall|i: int| 0 <= i < self.length ==> self.row_ok(#[trigger] self.entries[i], term_width)
    }

    /// Line `i`: a cursor move to its row, then the row.
    pub open spec fn line(self, i: int, term_width: int) -> Seq<char> {
        cursor_to(self.loc_y + i, self.loc_x as int) + self.row(self.entries[i], term_width)
    }

    /// The first `n` lines.
    pub open spec fn lines(self, n: int, term_width: int) -> Seq<char>
        decreases n,
    {
        if n <= 0 {
            seq![]
        } else {
            self.lines(n - 1, term_width) + self.line(n - 1, term_width)
        }
    }

    /// The widget's text.
    pub open spec fn tui(self, term_width: int) -> Seq<char> {
        self.lines(self.length as int, term_width)
    }
}

/// The history after events `evs`, one after another.
pub open spec fn recorded_all(v: HistoryView, evs: Seq<Event>) -> HistoryView
    decreases evs.len(),
{
    if evs.len() == 0 {
        v
    } else {
        recorded_all(v, evs.drop_last()).recorded(evs.last())
    }
}

/// The history is a sliding window: after events `evs` it shows the last
/// `length` of its old rows followed by `evs`, and nothing else changes.
pub proof fn law_sliding_window(v: HistoryView, evs: Seq<Event>)
    requires
        v.wf(),
    ensures
        recorded_all(v, evs).wf(),
        recorded_all(v, evs).entries == (v.entries + evs).subrange(
            evs.len() as int,
            evs.len() + v.length,
        ),
        recorded_all(v, evs).names == v.names,
        recorded_all(v, evs).length == v.length,
        recorded_all(v, evs).width == v.width,
        recorded_all(v, evs).loc_x == v.loc_x,
        recorded_all(v, evs).loc_y == v.loc_y,
    decreases evs.len(),
{
    if evs.len() > 0 {
        let prev = evs.drop_last();
        law_sliding_window(v, prev);
        let r = recorded_all(v, prev);
        let all = r.entries.push(evs.last());
        assert(all =~= (v.entries + evs).subrange(prev.len() as int, evs.len() + v.length));
        assert(all.subrange(all.len() - v.length, all.len() as int) =~= (v.entries + evs).subrange(
            evs.len() as int,
            evs.len() + v.length,
        ));
    }
}

/// Naming a key that has no name and then forgetting its name gives back
/// the history as it was; both calls return 0.
pub proof fn law_name_round_trip(v: HistoryView, code: u8, name: Seq<char>)
    requires
        !v.names.contains_key(code),
    ensures
        v.name_added(code, name).1 == 0,
        v.name_added(code, name).0.name_removed(code).1 == 0,
        v.name_added(code, name).0.name_removed(code).0 == v,
{
    let added = v.name_added(code, name).0;
    assert(added.names.remove(code) =~= v.names);
}

/// The event-kind column: `pus` for a press (13) and a scroll or button
/// press (15), `rel` for a release (14) and a scroll or button release
/// (16), and the decimal code for any other kind.
pub proof fn law_kind_column(code: u8)
    ensures
        action_text(13) == seq!['p', 'u', 's'],
        action_text(15) == seq!['p', 'u', 's'],
        action_text(14) == seq!['r', 'e', 'l'],
        action_text(16) == seq!['r', 'e', 'l'],
        !(13 <= code <= 16) ==> action_text(code) == dec_chars(code as nat),
{
}

/// Naming a key that has no name stores the name exactly as given, leaves
/// every other name as it was, returns 0, and the key column then shows
/// that name.
pub proof fn law_name_stored(v: HistoryView, code: u8, name: Seq<char>)
    requires
        !v.names.contains_key(code),
    ensures
        v.name_added(code, name).1 == 0,
        v.name_added(code, name).0.names.contains_key(code),
        v.name_added(code, name).0.names[code] == name,
        forall|c: u8| c != code ==> (#[trigger] v.name_added(code, name).0.names.contains_key(c)
            <==> v.names.contains_key(c)),
        forall|c: u8| c != code && v.names.contains_key(c) ==> #[trigger] v.name_added(
            code,
            name,
        ).0.names[c] == v.names[c],
        v.name_added(code, name).0.key_text(code) == name,
        v.name_added(code, name).0.entries == v.entries,
{
}

/// A key keeps its first name: naming it again changes nothing and returns
/// the key.
pub proof fn law_first_name_kept(v: HistoryView, code: u8, name: Seq<char>)
    requires
        v.names.contains_key(code),
    ensures
        v.name_added(code, name) == (v, code),
{
}

/// The key history widget.
pub struct History {
    length: u8,
    width: u8,
    loc_x: u8,
    loc_y: u8,
    entries: Vec<Event>,
    key_dict: HashMap<u8, String>,
    system_time: SystemTime,
}

/// The names of a name table.
pub open spec fn name_view(m: Map<u8, String>) -> Map<u8, Seq<char>> {
    m.map_values(|s: String| s@)
}

impl View for History {
    type V = HistoryView;

    closed spec fn view(&self) -> HistoryView {
        HistoryView {
            length: self.length,
            width: self.width,
            loc_x: self.loc_x,
            loc_y: self.loc_y,
            entries: self.entries@,
            names: name_view(self.key_dict@),
        }
    }
}

impl History {
    /// The moment the history was made, which event times count from.
    pub closed spec fn start(&self) -> SystemTime {
        self.system_time
    }

    /// A history at `(x, y)` of `length` rows, `width` bytes wide, with no
    /// names; every row holds the same placeholder event of key 0 and kind
    /// 0, timed just after the history was made (at 0 where the clock went
    /// back meanwhile).
    pub fn new(x: u8, y: u8, length: u8, width: u8) -> (h: History)
        ensures
            h@.wf(),
            h@.length == length,
            h@.width == width,
            h@.loc_x == x,
            h@.loc_y == y,
            h@.names == Map::<u8, Seq<char>>::empty(),
            forall|i: int|
                0 <= i < length ==> (#[trigger] h@.entries[i]).key_code == 0
                    && h@.entries[i].action_code == 0 && h@.entries[i] == h@.entries[0],
    {
        let time = now();
        let first = match Event::new(0, 0, &time) {
            Some(e) => e,
            None => Event { key_code: 0, action_code: 0, event_time: 0 },
        };
        let mut entries: Vec<Event> = Vec::new();
        let mut i: u8 = 0;
        while i < length
            invariant
                i <= length,
                entries@.len() == i,
                first.key_code == 0,
                first.action_code == 0,
                forall|j: int| 0 <= j < i ==> #[trigger] entries@[j] == first,
            decreases length - i,
        {
            entries.push(first);
            i = i + 1;
        }
        let key_dict: HashMap<u8, String> = HashMap::new();
        let h = History { length, width, loc_x: x, loc_y: y, entries, key_dict, system_time: time };
        assert(name_view(key_dict@) =~= Map::<u8, Seq<char>>::empty());
        h
    }

    /// Names key `key_code`: returns 0 where it had no name, else leaves the
    /// old name and returns the code.
    pub fn dict_add(&mut self, key_code: u8, key_name: String) -> (r: u8)
        ensures
            (final(self)@, r) == old(self)@.name_added(key_code, key_name@),
            final(self).start() == old(self).start(),
    {
        if !self.key_dict.contains_key(&key_code) {
            let ghost name = key_name@;
            self.key_dict.insert(key_code, key_name);
            assert(name_view(self.key_dict@) =~= old(self)@.names.insert(key_code, name));
            return 0;
        }
        key_code
    }

    /// Forgets the name of key `key_code`: returns 0 where it had one, else
    /// the code.
    pub fn dict_remove(&mut self, key_code: u8) -> (r: u8)
        ensures
            (final(self)@, r) == old(self)@.name_removed(key_code),
            final(self).start() == old(self).start(),
    {
        if self.key_dict.contains_key(&key_code) {
            self.key_dict.remove(&key_code);
            assert(name_view(self.key_dict@) =~= old(self)@.names.remove(key_code));
            return 0;
        }
        key_code
    }

    /// Shows event `ev`, dropping the oldest.
    pub fn record_event(&mut self, ev: Event)
        requires
            old(self)@.wf(),
        ensures
            final(self)@ == old(self)@.recorded(ev),
            final(self)@.wf(),
            final(self).start() == old(self).start(),
    {
        self.entries.push(ev);
        if self.entries.len() > self.length as usize {
            self.entries.remove(0);
        }
        assert(self.entries@ =~= old(self)@.recorded(ev).entries);
    }

    /// Shows an event of `key` and `action` at the present time, dropping
    /// the oldest; where the clock has gone back before the history was
    /// made, nothing changes.
    pub fn add_event(&mut self, key: u8, action: u8)
        requires
            old(self)@.wf(),
        ensures
            final(self)@.wf(),
            final(self).start() == old(self).start(),
            final(self)@ == old(self)@ || exists|t: u128|
                final(self)@ == old(self)@.recorded(
                    Event { key_code: key, action_code: action, event_time: t },
                ),
    {
        match Event::new(key, action, &self.system_time) {
            Some(ev) => {
                self.record_event(ev);
                assert(ev == Event { key_code: key, action_code: action, event_time: ev.event_time });
            },
            None => {},
        }
    }

    /// The widget's text for a terminal `term_width` columns wide.
    pub fn get_tui(&self, term_width: u16) -> (out: String)
        requires
            self@.tui_ok(term_width as int),
        ensures
            out@ == self@.tui(term_width as int),
    {
        let ghost v = self@;
        let mut out = String::new();
        let mut i: u8 = 0;
        while i < self.length
            invariant
                v == self@,
                v.tui_ok(term_width as int),
                i <= self.length,
                out@ == v.lines(i as int, term_width as int),
            decreases self.length - i,
        {
            let ev = self.entries[i as usize];
            assert(v.row_ok(v.entries[i as int], term_width as int));
            let row = self.row_text(ev, term_width);
            let ghost before = out@;
            push_cursor_to(&mut out, (self.loc_y + i) as u128, self.loc_x as u128);
            push_chars(&mut out, &row);
            assert(out@ =~= v.lines(i + 1, term_width as int));
            i = i + 1;
        }
        out
    }

    /// The key column of a row.
    fn key_chars(&self, code: u8) -> (r: Vec<char>)
        ensures
            r@ == self@.key_text(code),
    {
        match self.key_dict.get(&code) {
            Some(name) => to_chars(name.as_str()),
            None => {
                let mut s = String::new();
                push_decimal(&mut s, code as u128);
                to_chars(s.as_str())
            },
        }
    }

    /// One row of the widget.
    fn row_text(&self, ev: Event, term_width: u16) -> (r: Vec<char>)
        requires
            self@.row_ok(ev, term_width as int),
            self@.loc_x <= term_width,
            self@.room(term_width as int) <= u16::MAX,
        ensures
            r@ == self@.row(ev, term_width as int),
    {
        let ghost v = self@;
        let key = self.key_chars(ev.key_code);
        let key_len: usize = match byte_len_upto(&key, 4) {
            Some(n) => n,
            None => {
                assert(false);
                4
            },
        };
        let mut label = String::new();
        push_chars(&mut label, &key);
        push_spaces(&mut label, 4 - key_len);
        let ghost head = label@;
        let action_len: usize;
        if ev.action_code == 13 || ev.action_code == 15 {
            label.append("pus");
            proof {
                reveal_strlit("pus");
            }
            action_len = 3;
        } else if ev.action_code == 14 || ev.action_code == 16 {
            label.append("rel");
            proof {
                reveal_strlit("rel");
            }
            action_len = 3;
        } else {
            let ghost l0 = label@;
            push_decimal(&mut label, ev.action_code as u128);
            proof {
                lemma_dec_ascii(ev.action_code as nat);
            }
            action_len = if ev.action_code < 10 {
                1
            } else if ev.action_code < 100 {
                2
            } else {
                3
            };
            assert(label@ =~= l0 + dec_chars(ev.action_code as nat));
        }
        proof {
            let k = v.key_text(ev.key_code);
            let act = action_text(ev.action_code);
            assert(label@ =~= k + spaces(4 - byte_len(k)) + act);
            assert(is_ascii_seq(spaces(4 - byte_len(k))));
            lemma_ascii_byte_len(spaces(4 - byte_len(k)));
            assert(is_ascii_seq(act)) by {
                reveal_strlit("pus");
                reveal_strlit("rel");
                lemma_dec_ascii(ev.action_code as nat);
            }
            lemma_ascii_byte_len(act);
            lemma_byte_len_append(k, spaces(4 - byte_len(k)));
            lemma_byte_len_append(k + spaces(4 - byte_len(k)), act);
            assert(byte_len(label@) == 4 + action_len);
        }
        push_spaces(&mut label, 8 - (4 + action_len));
        push_decimal(&mut label, ev.event_time);
        assert(label@ =~= v.label(ev));
        let (cut, _) = truncate_bytes_exec(&to_chars(label.as_str()), self.width as usize);
        let room: u16 = term_width - self.loc_x as u16 + 1;
        let (row, _) = truncate_bytes_exec(&cut, room as usize);
        row
    }
}

} // verus!
