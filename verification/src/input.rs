//! Reading the output of `xinput test-xi2 --root` line by line: compacting
//! each event into one log line and picking out key and scroll events.

use std::time::SystemTime;
use vstd::prelude::*;
use crate::clock::{millis_since, now};
use crate::text::{
    char_lists, contains_exec, contains_pat, dec_chars, from_chars, parse_u8, parse_u8_exec,
    push_char, push_chars, push_decimal, to_chars, trim, trim_exec, words, words_exec,
};

verus! {

/// What an [`InputState`] holds, apart from its clock.
pub struct InputView {
    /// Whether every line, device data included, goes to the log.
    pub log: bool,
    /// The log line being put together.
    pub output: Seq<char>,
    /// The kind of the current event and the last key code read.
    pub key: [u8; 2],
    /// Whether an event has begun (before it, lines describe the devices).
    pub trim: bool,
}

/// What a line asks for.
pub struct InputStep {
    /// A finished log line to write.
    pub log_line: Option<String>,
    /// A key event to hand on: its kind and its code.
    pub send: Option<[u8; 2]>,
}

/// Why a line cannot be read.
#[derive(Clone, Copy, Debug, PartialEq, Eq, Structural)]
pub enum InputError {
    /// The line needs a number from 0 to 255 and has none.
    MissingNumber,
    /// The clock has gone back before the reader was made.
    Clock,
}

/// The plain values of a step: the log line and the key event.
pub struct StepSpec {
    pub log_line: Option<Seq<char>>,
    pub send: Option<[u8; 2]>,
}

/// The first word that is a number from 0 to 255.
pub open spec fn first_number(ws: Seq<Seq<char>>) -> Option<Seq<char>>
    decreases ws.len(),
{
    if ws.len() == 0 {
        None
    } else if parse_u8(ws[0]) is Some {
        Some(ws[0])
    } else {
        first_number(ws.drop_first())
    }
}

pub open spec fn event_word() -> Seq<char> {
    seq!['E', 'V', 'E', 'N', 'T']
}

pub open spec fn device_word() -> Seq<char> {
    seq!['d', 'e', 'v', 'i', 'c', 'e', ':']
}

pub open spec fn detail_word() -> Seq<char> {
    seq!['d', 'e', 't', 'a', 'i', 'l', ':']
}

/// Whether an event kind is a key press or release (13, 14) or a scroll
/// (15, 16).
pub open spec fn is_key_kind(kind: u8) -> bool {
    13 <= kind <= 16
}

impl InputView {
    /// `|` after every line once an event has begun.
    pub open spec fn separator(self) -> Seq<char> {
        if self.trim { seq!['|'] } else { seq![] }
    }

    /// The reader after line `line`, read `now` milliseconds after the
    /// reader was made, and what the line asks for:
    /// - a line with `EVENT` starts a new log line, `now|kind|`, and hands
    ///   the old one on to the log where all is logged or no event has begun;
    /// - a line with `device:` adds the device number;
    /// - any other line is added whole before the first event, trimmed after
    ///   it; in a key or scroll event, a line with `detail:` gives the key
    ///   code, and the event is handed on.
    pub open spec fn stepped(self, line: Seq<char>, now: nat) -> Result<
        (InputView, StepSpec),
        InputError,
    > {
        let num = first_number(words(line));
        if contains_pat(line, event_word()) {
            match num {
                None => Err(InputError::MissingNumber),
                Some(t) => Ok(
                    (
                        InputView {
                            output: dec_chars(now) + seq!['|'] + t + seq!['|'],
                            key: [parse_u8(t).unwrap(), self.key[1]],
                            trim: true,
                            ..self
                        },
                        StepSpec {
                            log_line: if self.log || !self.trim {
                                Some(self.output)
                            } else {
                                None
                            },
                            send: None,
                        },
                    ),
                ),
            }
        } else if contains_pat(line, device_word()) {
            match num {
                None => Err(InputError::MissingNumber),
                Some(t) => Ok(
                    (
                        InputView { output: self.output + t + self.separator(), ..self },
                        StepSpec { log_line: None, send: None },
                    ),
                ),
            }
        } else {
            let output = self.output + (if self.trim { trim(line) } else { line })
                + self.separator();
            if is_key_kind(self.key[0]) && contains_pat(line, detail_word()) {
                match num {
                    None => Err(InputError::MissingNumber),
                    Some(t) => {
                        let key = [self.key[0], parse_u8(t).unwrap()];
                        Ok(
                            (
                                InputView { output, key, ..self },
                                StepSpec { log_line: None, send: Some(key) },
                            ),
                        )
                    },
                }
            } else {
                Ok((InputView { output, ..self }, StepSpec { log_line: None, send: None }))
            }
        }
    }
}

/// Only key and scroll events are handed on, with the kind of the event in
/// progress; a log line is handed on only when a new event begins, and no
/// line does both.
pub proof fn law_sends_only_keys(v: InputView, line: Seq<char>, now: nat)
    ensures
        v.stepped(line, now) matches Ok((w, st)) ==> {
            &&& st.send matches Some(k) ==> is_key_kind(k[0]) && k[0] == v.key[0] && w.key == k
            &&& st.log_line is Some ==> contains_pat(line, event_word()) && st.send is None
        },
{
}

/// In a key press or release (kinds 13, 14) or a scroll or button event
/// (15, 16), a line with `detail:` and a number from 0 to 255, and neither
/// `EVENT` nor `device:`, hands on exactly the event's kind and that
/// number, and keeps them as the event's key.
pub proof fn law_detail_hands_on_key(v: InputView, line: Seq<char>, now: nat, t: Seq<char>)
    requires
        13 <= v.key[0] <= 16,
        contains_pat(line, seq!['d', 'e', 't', 'a', 'i', 'l', ':']),
        !contains_pat(line, seq!['E', 'V', 'E', 'N', 'T']),
        !contains_pat(line, seq!['d', 'e', 'v', 'i', 'c', 'e', ':']),
        first_number(words(line)) == Some(t),
    ensures
        v.stepped(line, now) matches Ok((w, st)) && st.send == Some([v.key[0], parse_u8(t).unwrap()])
            && w.key == [v.key[0], parse_u8(t).unwrap()] && st.log_line is None,
{
    assert(event_word() =~= seq!['E', 'V', 'E', 'N', 'T']);
    assert(device_word() =~= seq!['d', 'e', 'v', 'i', 'c', 'e', ':']);
    assert(detail_word() =~= seq!['d', 'e', 't', 'a', 'i', 'l', ':']);
}

/// A line with `EVENT` and a number makes that number the kind of the
/// event in progress, so that its `detail:` line is handed on with it.
pub proof fn law_event_sets_kind(v: InputView, line: Seq<char>, now: nat, t: Seq<char>)
    requires
        contains_pat(line, seq!['E', 'V', 'E', 'N', 'T']),
        first_number(words(line)) == Some(t),
    ensures
        v.stepped(line, now) matches Ok((w, st)) && w.key[0] == parse_u8(t).unwrap()
            && st.send is None,
{
    assert(event_word() =~= seq!['E', 'V', 'E', 'N', 'T']);
}

/// The reader after lines `lines`, the `i`-th read at `times[i]`, and the
/// log lines they hand on; the first line that cannot be read is the error.
pub open spec fn run(v: InputView, lines: Seq<Seq<char>>, times: Seq<nat>) -> Result<
    (InputView, Seq<Seq<char>>),
    InputError,
>
    decreases lines.len(),
{
    if lines.len() == 0 {
        Ok((v, seq![]))
    } else {
        match v.stepped(lines[0], times[0]) {
            Err(e) => Err(e),
            Ok((w, st)) => match run(w, lines.drop_first(), times.drop_first()) {
                Err(e) => Err(e),
                Ok((u, logs)) => Ok(
                    (
                        u,
                        (match st.log_line {
                            Some(l) => seq![l],
                            None => seq![],
                        }) + logs,
                    ),
                ),
            },
        }
    }
}

/// With logging off, once an event has begun no line reaches the log.
pub proof fn law_no_log_after_event(v: InputView, lines: Seq<Seq<char>>, times: Seq<nat>)
    requires
        !v.log,
        v.trim,
    ensures
        run(v, lines, times) matches Ok((u, logs)) ==> logs.len() == 0 && u.trim && !u.log,
    decreases lines.len(),
{
    if lines.len() > 0 {
        if let Ok((w, st)) = v.stepped(lines[0], times[0]) {
            law_no_log_after_event(w, lines.drop_first(), times.drop_first());
        }
    }
}

/// With logging off, the log holds one line only: what the lines before the
/// first event (the device data) put together, handed on when that event
/// begins; whatever follows it adds nothing.
pub proof fn law_log_holds_device_data(
    v: InputView,
    pre: Seq<Seq<char>>,
    ev: Seq<char>,
    rest: Seq<Seq<char>>,
    times: Seq<nat>,
)
    requires
        !v.log,
        !v.trim,
        forall|i: int| 0 <= i < pre.len() ==> !contains_pat(#[trigger] pre[i], event_word()),
        contains_pat(ev, event_word()),
    ensures
        run(v, pre + seq![ev] + rest, times) matches Ok((_u, logs)) ==> (run(v, pre, times) matches Ok(
            (w, pre_logs),
        ) && pre_logs.len() == 0 && logs == seq![w.output]),
    decreases pre.len(),
{
    let all = pre + seq![ev] + rest;
    if pre.len() == 0 {
        assert(all[0] == ev);
        assert(all.drop_first() =~= rest);
        if let Ok((w, st)) = v.stepped(ev, times[0]) {
            law_no_log_after_event(w, rest, times.drop_first());
        }
    } else {
        assert(all[0] == pre[0]);
        assert(all.drop_first() =~= pre.drop_first() + seq![ev] + rest);
        assert(!contains_pat(pre[0], event_word()));
        if let Ok((w, st)) = v.stepped(pre[0], times[0]) {
            assert forall|i: int| 0 <= i < pre.drop_first().len() implies !contains_pat(
                #[trigger] pre.drop_first()[i],
                event_word(),
            ) by {
                assert(pre.drop_first()[i] == pre[i + 1]);
            }
            law_log_holds_device_data(w, pre.drop_first(), ev, rest, times.drop_first());
        }
    }
}

/// The state of the `xinput` reader.
pub struct InputState {
    log: bool,
    time: SystemTime,
    output: String,
    key: [u8; 2],
    trim: bool,
}

impl View for InputState {
    type V = InputView;

    closed spec fn view(&self) -> InputView {
        InputView { log: self.log, output: self.output@, key: self.key, trim: self.trim }
    }
}

impl InputStep {
    pub open spec fn spec(self) -> StepSpec {
        StepSpec {
            log_line: match self.log_line {
                Some(s) => Some(s@),
                None => None,
            },
            send: self.send,
        }
    }
}

/// The word found is a number.
proof fn lemma_first_number_parses(ws: Seq<Seq<char>>)
    ensures
        first_number(ws) matches Some(t) ==> parse_u8(t) is Some,
    decreases ws.len(),
{
    if ws.len() > 0 && parse_u8(ws[0]) is None {
        lemma_first_number_parses(ws.drop_first());
    }
}

/// The first word that is a number from 0 to 255.
fn first_number_exec(ws: &Vec<Vec<char>>) -> (r: Option<Vec<char>>)
    ensures
        match r {
            Some(w) => first_number(char_lists(ws@)) == Some(w@),
            None => first_number(char_lists(ws@)) is None,
        },
{
    let ghost all = char_lists(ws@);
    let mut i: usize = 0;
    assert(all.subrange(0, all.len() as int) =~= all);
    while i < ws.len()
        invariant
            i <= ws.len(),
            all == char_lists(ws@),
            first_number(all) == first_number(all.subrange(i as int, all.len() as int)),
        decreases ws.len() - i,
    {
        let ghost rest = all.subrange(i as int, all.len() as int);
        assert(rest[0] == ws@[i as int]@);
        assert(rest.drop_first() =~= all.subrange(i + 1, all.len() as int));
        if parse_u8_exec(&ws[i]).is_some() {
            let w = ws[i].clone();
            assert(w@ == ws@[i as int]@);
            return Some(w);
        }
        i = i + 1;
    }
    None
}

impl InputState {
    /// The moment the reader was made, which event times count from.
    pub closed spec fn start(&self) -> SystemTime {
        self.time
    }

    /// A reader that logs device data too where `log` holds.
    pub fn new(log: bool) -> (s: InputState)
        ensures
            s@ == (InputView { log, output: Seq::<char>::empty(), key: [0u8, 0u8], trim: false }),
    {
        InputState { log, time: now(), output: String::new(), key: [0, 0], trim: false }
    }

    /// Reads line `line` at `now` milliseconds after the reader was made.
    /// On an error the reader is left as it was.
    pub fn step_at(&mut self, line: &str, now: u128) -> (r: Result<InputStep, InputError>)
        ensures
            final(self).start() == old(self).start(),
            match r {
                Ok(st) => old(self)@.stepped(line@, now as nat) == Ok::<
                    (InputView, StepSpec),
                    InputError,
                >((final(self)@, st.spec())),
                Err(e) => old(self)@.stepped(line@, now as nat) == Err::<
                    (InputView, StepSpec),
                    InputError,
                >(e) && final(self)@ == old(self)@,
            },
    {
        proof {
            reveal_strlit("EVENT");
            reveal_strlit("device:");
            reveal_strlit("detail:");
        }
        let chars = to_chars(line);
        let ws = words_exec(&chars);
        let num = first_number_exec(&ws);
        proof {
            lemma_first_number_parses(char_lists(ws@));
        }
        let event = to_chars("EVENT");
        let device = to_chars("device:");
        let detail = to_chars("detail:");
        assert(event@ =~= event_word());
        assert(device@ =~= device_word());
        assert(detail@ =~= detail_word());
        if contains_exec(&chars, &event) {
            let t = match num {
                Some(t) => t,
                None => {
                    return Err(InputError::MissingNumber);
                },
            };
            let kind: u8 = match parse_u8_exec(&t) {
                Some(k) => k,
                None => {
                    return Err(InputError::MissingNumber);
                },
            };
            let log_line = if self.log || !self.trim {
                Some(from_chars(&to_chars(self.output.as_str())))
            } else {
                None
            };
            let mut output = String::new();
            push_decimal(&mut output, now);
            push_char(&mut output, '|');
            push_chars(&mut output, &t);
            push_char(&mut output, '|');
            assert(output@ =~= dec_chars(now as nat) + seq!['|'] + t@ + seq!['|']);
            self.output = output;
            self.key = [kind, self.key[1]];
            self.trim = true;
            assert(self@ == old(self)@.stepped(line@, now as nat).unwrap().0);
            Ok(InputStep { log_line, send: None })
        } else if contains_exec(&chars, &device) {
            let t = match num {
                Some(t) => t,
                None => {
                    return Err(InputError::MissingNumber);
                },
            };
            let ghost before = self.output@;
            push_chars(&mut self.output, &t);
            if self.trim {
                push_char(&mut self.output, '|');
            }
            assert(self.output@ =~= before + t@ + old(self)@.separator());
            Ok(InputStep { log_line: None, send: None })
        } else {
            let is_detail = 13 <= self.key[0] && self.key[0] <= 16 && contains_exec(&chars, &detail);
            let mut code: u8 = 0;
            if is_detail {
                match num {
                    Some(t) => {
                        match parse_u8_exec(&t) {
                            Some(c) => {
                                code = c;
                            },
                            None => {
                                return Err(InputError::MissingNumber);
                            },
                        }
                    },
                    None => {
                        return Err(InputError::MissingNumber);
                    },
                }
            }
            let ghost before = self.output@;
            if self.trim {
                push_chars(&mut self.output, &trim_exec(&chars));
                push_char(&mut self.output, '|');
            } else {
                push_chars(&mut self.output, &chars);
            }
            assert(self.output@ =~= before + (if old(self)@.trim {
                trim(line@)
            } else {
                line@
            }) + old(self)@.separator());
            if is_detail {
                self.key = [self.key[0], code];
                assert(self@ == old(self)@.stepped(line@, now as nat).unwrap().0);
                Ok(InputStep { log_line: None, send: Some(self.key) })
            } else {
                Ok(InputStep { log_line: None, send: None })
            }
        }
    }

    /// Reads line `line` as it comes, timing an event by the clock. Where
    /// the clock has gone back before the reader was made, an event line is
    /// refused and the reader left as it was.
    pub fn step(&mut self, line: &str) -> (r: Result<InputStep, InputError>)
        ensures
            final(self).start() == old(self).start(),
            match r {
                Ok(st) => exists|t: nat|
                    old(self)@.stepped(line@, t) == Ok::<(InputView, StepSpec), InputError>(
                        (final(self)@, st.spec()),
                    ),
                Err(InputError::Clock) => final(self)@ == old(self)@ && contains_pat(
                    line@,
                    event_word(),
                ),
                Err(e) => exists|t: nat|
                    old(self)@.stepped(line@, t) == Err::<(InputView, StepSpec), InputError>(e)
                        && final(self)@ == old(self)@,
            },
    {
        let now = match millis_since(&self.time) {
            Some(ms) => ms,
            None => {
                proof {
                    reveal_strlit("EVENT");
                }
                let event = to_chars("EVENT");
                assert(event@ =~= event_word());
                if contains_exec(&to_chars(line), &event) {
                    return Err(InputError::Clock);
                }
                // the time is used by event lines only
                0
            },
        };
        self.step_at(line, now)
    }
}

} // verus!
