//! The actions-per-minute widget: a running average of the time between
//! actions and a count of all actions since the widget was made.

use std::time::SystemTime;
use vstd::prelude::*;
use crate::clock::{millis_since, now};
use crate::text::{
    cursor_to, push_char, push_chars, push_cursor_to, to_chars, truncate_bytes,
    truncate_bytes_exec, truncate_ok,
};

verus! {

/// What an [`Apm`] holds, apart from the moment it was made.
pub struct ApmView {
    pub width: u8,
    pub loc_x: u8,
    pub loc_y: u8,
    /// Average time per action, in milliseconds (0 before the first).
    pub average: u128,
    /// Actions registered so far.
    pub overall: u32,
    /// Time of the last action, in milliseconds since the widget was made.
    pub last_tick: u128,
}

impl ApmView {
    /// Whether an action at `now` milliseconds can be recorded without an
    /// arithmetic overflow or a clock that went backwards.
    pub open spec fn can_tick(self, now: int) -> bool {
        &&& self.overall < u32::MAX
        &&& self.last_tick <= now <= u128::MAX
        &&& self.average != 0 ==> now - self.last_tick + self.average <= u128::MAX
    }

    /// The state after an action at `now` milliseconds: one more action, and
    /// the average replaced by the mean of the old average and the time
    /// since the last action (or by that time, for the first action).
    pub open spec fn ticked(self, now: int) -> ApmView {
        ApmView {
            overall: (self.overall + 1) as u32,
            average: if self.average != 0 {
                ((now - self.last_tick + self.average) / 2) as u128
            } else {
                (now - self.last_tick) as u128
            },
            last_tick: now as u128,
            ..self
        }
    }

    /// The state after a clock reading: an action is recorded where the
    /// reading can tick, and nothing changes otherwise (no reading, a
    /// reading before the last action, or an average that would overflow).
    pub open spec fn tick_step(self, reading: Option<u128>) -> ApmView {
        match reading {
            Some(t) => if self.can_tick(t as int) {
                self.ticked(t as int)
            } else {
                self
            },
            None => self,
        }
    }

    /// Digits shown of each rate: half the width left after the separator,
    /// or of the room left on a terminal `term_width` wide.
    pub open spec fn num_width(self, term_width: int) -> int {
        if self.width <= term_width - self.loc_x {
            (self.width - 1) / 2
        } else {
            (term_width - self.loc_x - 1) / 2
        }
    }

    /// Digits shown of the average rate: one more where the width less the
    /// separator is odd.
    pub open spec fn average_width(self, term_width: int) -> int {
        if (self.width - 1) % 2 == 0 {
            self.num_width(term_width)
        } else {
            self.num_width(term_width) + 1
        }
    }

    /// The inputs on which `get_tui` draws without failing: a width of at
    /// least one, the widget inside the terminal, room for a column where
    /// the width does not fit, and both truncations on character boundaries.
    pub open spec fn tui_ok(self, term_width: int, average: Seq<char>, overall: Seq<char>) -> bool {
        &&& self.width >= 1
        &&& self.loc_x <= term_width
        &&& self.width > term_width - self.loc_x ==> term_width - self.loc_x >= 1
        &&& truncate_ok(average, self.average_width(term_width))
        &&& truncate_ok(overall, self.num_width(term_width))
    }

    /// The widget's text: a cursor move, the average rate, `|`, the overall
    /// rate, each cut to its width in bytes.
    pub open spec fn tui(self, term_width: int, average: Seq<char>, overall: Seq<char>) -> Seq<
        char,
    > {
        cursor_to(self.loc_y as int, self.loc_x as int) + truncate_bytes(
            average,
            self.average_width(term_width),
        ) + seq!['|'] + truncate_bytes(overall, self.num_width(term_width))
    }
}

/// The average stays an average: after the first action it is the time
/// since the widget's last action, and after later ones it lies between the
/// old average and the time since the last action. Each recorded action
/// counts once.
pub proof fn law_average_between(v: ApmView, now: int)
    requires
        v.can_tick(now),
    ensures
        v.ticked(now).overall == v.overall + 1,
        v.average == 0 ==> v.ticked(now).average == now - v.last_tick,
        v.average != 0 ==> {
            let gap = now - v.last_tick;
            &&& v.ticked(now).average <= if gap >= v.average { gap } else { v.average as int }
            &&& v.ticked(now).average >= if gap <= v.average { gap } else { v.average as int }
        },
{
}

/// An action at `now` counts once, becomes the last action, and sets the
/// average to the time since the previous action where there was no
/// average yet, else to the floor of the mean of the old average and that
/// time, whatever the gap; the widget's place and width stay.
pub proof fn law_average_mean(v: ApmView, now: int)
    requires
        v.can_tick(now),
    ensures
        v.ticked(now).overall == v.overall + 1,
        v.ticked(now).last_tick == now,
        v.average == 0 ==> v.ticked(now).average == now - v.last_tick,
        v.average != 0 ==> v.ticked(now).average == (now - v.last_tick + v.average) / 2,
        v.ticked(now).width == v.width,
        v.ticked(now).loc_x == v.loc_x,
        v.ticked(now).loc_y == v.loc_y,
{
}

/// The state after clock readings `rs`, one action each.
pub open spec fn ticks(v: ApmView, rs: Seq<u128>) -> ApmView
    decreases rs.len(),
{
    if rs.len() == 0 {
        v
    } else {
        ticks(v, rs.drop_last()).tick_step(Some(rs.last()))
    }
}

/// Every action counts: from a state whose average is at most the time of
/// its last action (as every new widget's is), readings that do not go back
/// before that time or before one another each count one action, as long
/// as the count fits.
pub proof fn law_ticks_count(v: ApmView, rs: Seq<u128>)
    requires
        v.average <= v.last_tick,
        forall|i: int, j: int| 0 <= i <= j < rs.len() ==> rs[i] <= rs[j],
        rs.len() > 0 ==> v.last_tick <= rs[0],
        v.overall + rs.len() <= u32::MAX,
    ensures
        ticks(v, rs).overall == v.overall + rs.len(),
        ticks(v, rs).average <= ticks(v, rs).last_tick,
        rs.len() > 0 ==> ticks(v, rs).last_tick == rs.last(),
        rs.len() == 0 ==> ticks(v, rs).last_tick == v.last_tick,
    decreases rs.len(),
{
    if rs.len() > 0 {
        let prev = rs.drop_last();
        law_ticks_count(v, prev);
        let w = ticks(v, prev);
        let now = rs.last();
        if prev.len() > 0 {
            assert(prev.last() == rs[rs.len() - 2]);
        }
        assert(w.last_tick <= now);
        assert(w.can_tick(now as int));
    }
}

/// The actions-per-minute widget.
pub struct Apm {
    width: u8,
    loc_x: u8,
    loc_y: u8,
    average: u128,
    overall: u32,
    last_tick: u128,
    system_time: SystemTime,
}

impl View for Apm {
    type V = ApmView;

    closed spec fn view(&self) -> ApmView {
        ApmView {
            width: self.width,
            loc_x: self.loc_x,
            loc_y: self.loc_y,
            average: self.average,
            overall: self.overall,
            last_tick: self.last_tick,
        }
    }
}

impl Apm {
    /// A widget at `(x, y)`, `width` cells wide, with no action yet; its
    /// last tick is the clock's reading just after it was made (0 where the
    /// clock went back meanwhile).
    pub fn new(x: u8, y: u8, width: u8) -> (a: Apm)
        ensures
            a@.width == width,
            a@.loc_x == x,
            a@.loc_y == y,
            a@.average == 0,
            a@.overall == 0,
            a@.average <= a@.last_tick,
    {
        let time = now();
        let last_tick = match millis_since(&time) {
            Some(ms) => ms,
            None => 0,
        };
        Apm { width, loc_x: x, loc_y: y, average: 0, overall: 0, last_tick, system_time: time }
    }

    /// The moment the widget was made, which its clock readings count from.
    pub closed spec fn start(&self) -> SystemTime {
        self.system_time
    }

    /// Records an action at `now` milliseconds since the widget was made.
    pub fn record_tick(&mut self, now: u128)
        requires
            old(self)@.can_tick(now as int),
        ensures
            final(self)@ == old(self)@.ticked(now as int),
            final(self).start() == old(self).start(),
    {
        self.overall = self.overall + 1;
        self.average = if self.average != 0 {
            (now - self.last_tick + self.average) / 2
        } else {
            now - self.last_tick
        };
        self.last_tick = now;
    }

    /// Records an action at clock reading `reading` (milliseconds since the
    /// widget was made, `None` where the clock could not be read): the action
    /// counts where the reading can tick, and nothing changes otherwise.
    pub fn tick_with(&mut self, reading: Option<u128>)
        requires
            old(self)@.overall < u32::MAX,
        ensures
            final(self)@ == old(self)@.tick_step(reading),
            final(self).start() == old(self).start(),
    {
        match reading {
            Some(ms) => {
                if ms >= self.last_tick && (self.average == 0 || ms - self.last_tick
                    <= u128::MAX - self.average) {
                    self.record_tick(ms);
                }
            },
            None => {},
        }
    }

    /// Records an action now, by the clock. Where the clock cannot be read,
    /// went back before the last action, or the average would overflow,
    /// nothing changes.
    pub fn tick(&mut self)
        requires
            old(self)@.overall < u32::MAX,
        ensures
            final(self)@ == old(self)@ || exists|t: int|
                old(self)@.can_tick(t) && final(self)@ == old(self)@.ticked(t),
            exists|r: Option<u128>| final(self)@ == old(self)@.tick_step(r),
            final(self).start() == old(self).start(),
    {
        let reading = millis_since(&self.system_time);
        self.tick_with(reading);
    }

    /// The average time per action, in milliseconds.
    pub fn average(&self) -> (r: u128)
        ensures
            r == self@.average,
    {
        self.average
    }

    /// The number of actions recorded.
    pub fn overall(&self) -> (r: u32)
        ensures
            r == self@.overall,
    {
        self.overall
    }

    /// The time of the last action, in milliseconds since the widget was
    /// made.
    pub fn last_tick(&self) -> (r: u128)
        ensures
            r == self@.last_tick,
    {
        self.last_tick
    }

    /// Milliseconds since the widget was made, where the clock can be read.
    pub fn elapsed_ms(&self) -> Option<u128> {
        millis_since(&self.system_time)
    }

    /// Whether `get_tui` can draw the widget with these inputs.
    pub fn can_draw(&self, term_width: u16, average_apm: &str, overall_apm: &str) -> (r: bool)
        ensures
            r == self@.tui_ok(term_width as int, average_apm@, overall_apm@),
    {
        if self.width < 1 || (self.loc_x as u16) > term_width {
            return false;
        }
        let room: u16 = term_width - self.loc_x as u16;
        if self.width as u16 > room && room < 1 {
            return false;
        }
        let num_width: u8 = if self.width as u16 <= room {
            (self.width - 1) / 2
        } else {
            ((room - 1) / 2) as u8
        };
        let average_width: u8 = if (self.width - 1) % 2 == 0 {
            num_width
        } else {
            num_width + 1
        };
        let (_, average_ok) = truncate_bytes_exec(&to_chars(average_apm), average_width as usize);
        let (_, overall_ok) = truncate_bytes_exec(&to_chars(overall_apm), num_width as usize);
        average_ok && overall_ok
    }

    /// The widget's text for a terminal `term_width` columns wide, given the
    /// two rates already written out (`average_apm`, then `overall_apm`).
    pub fn get_tui(&self, term_width: u16, average_apm: &str, overall_apm: &str) -> (r: String)
        requires
            self@.tui_ok(term_width as int, average_apm@, overall_apm@),
        ensures
            r@ == self@.tui(term_width as int, average_apm@, overall_apm@),
    {
        let room: u16 = term_width - self.loc_x as u16;
        let num_width: u8 = if self.width as u16 <= room {
            (self.width - 1) / 2
        } else {
            ((room - 1) / 2) as u8
        };
        let average_width: u8 = if (self.width - 1) % 2 == 0 {
            num_width
        } else {
            num_width + 1
        };
        let (average_text, _) = truncate_bytes_exec(&to_chars(average_apm), average_width as usize);
        let (overall_text, _) = truncate_bytes_exec(&to_chars(overall_apm), num_width as usize);
        let mut out = String::new();
        push_cursor_to(&mut out, self.loc_y as u128, self.loc_x as u128);
        push_chars(&mut out, &average_text);
        push_char(&mut out, '|');
        push_chars(&mut out, &overall_text);
        assert(out@ =~= self@.tui(term_width as int, average_apm@, overall_apm@));
        out
    }
}

} // verus!
