//! The tui file: a first line of static text, then one element per line
//! (reactive strings bound to key events, scripted widgets, runners) up to
//! the first blank line.

use std::collections::HashMap;
use vstd::prelude::*;
use crate::apm::Apm;
use crate::history::History;
use crate::runner::{string_views, Runner, RunnerView};
use crate::text::{
    char_lists, from_chars, parse_u8, parse_u8_exec, split_char, split_char_exec, split_once,
    split_once_exec, starts_with, to_chars, trim, trim_end_matches, trim_end_matches_exec,
    trim_exec, trim_start_matches, trim_start_matches_exec, unescape, unescape_exec, words,
    words_exec, occurs_at_exec,
};

verus! {

broadcast use vstd::std_specs::hash::group_hash_axioms;

/// A scripted element of the tui.
pub enum ScriptedTui {
    History(History),
    Apm(Apm),
}

/// Why a tui file line cannot be read.
#[derive(Clone, Copy, Debug, PartialEq, Eq, Structural)]
pub enum LoadError {
    /// A reactive element without `]`.
    MissingBracket,
    /// A key that is not two numbers from 0 to 255 separated by a comma.
    BadKey,
    /// A widget attribute that is not a number from 0 to 255.
    BadNumber,
    /// A runner without ` ACTIVE:`, ` INACTIVE:` or ` COMMAND:`, in order.
    MissingField,
    /// A runner with nothing after ` COMMAND:`.
    MissingCommand,
}

/// What a line of a tui file describes, as plain values.
pub enum LineSpec {
    End,
    Reactive((u8, u8), Seq<char>),
    History(u8, u8, u8, u8),
    Apm(u8, u8, u8),
    Runner((u8, u8), RunnerView),
    Other,
}

/// What a line of a tui file describes.
pub enum TuiLine {
    /// A blank line: the end of the elements.
    End,
    /// A text to draw on a key event.
    Reactive { key: [u8; 2], action: String },
    /// A history widget at `(x, y)`.
    History { x: u8, y: u8, length: u8, width: u8 },
    /// An actions-per-minute widget at `(x, y)`.
    Apm { x: u8, y: u8, width: u8 },
    /// A command bound to a key event.
    Runner { key: [u8; 2], runner: Runner },
    /// A line that describes no element.
    Other,
}

impl View for TuiLine {
    type V = LineSpec;

    open spec fn view(&self) -> LineSpec {
        match self {
            TuiLine::End => LineSpec::End,
            TuiLine::Reactive { key, action } => LineSpec::Reactive((key[0], key[1]), action@),
            TuiLine::History { x, y, length, width } => LineSpec::History(*x, *y, *length, *width),
            TuiLine::Apm { x, y, width } => LineSpec::Apm(*x, *y, *width),
            TuiLine::Runner { key, runner } => LineSpec::Runner((key[0], key[1]), runner@),
            TuiLine::Other => LineSpec::Other,
        }
    }
}

/// The numbers of a list of words, where each is a `u8`.
pub open spec fn parse_all_u8(ws: Seq<Seq<char>>) -> Option<Seq<u8>>
    decreases ws.len(),
{
    if ws.len() == 0 {
        Some(seq![])
    } else {
        match (parse_all_u8(ws.drop_last()), parse_u8(ws.last())) {
            (Some(a), Some(b)) => Some(a.push(b)),
            _ => None,
        }
    }
}

/// A key `a,b`: two numbers, each with white space around it allowed.
pub open spec fn parse_key(s: Seq<char>) -> Option<(u8, u8)> {
    match parse_all_u8(split_char(s, ',').map_values(|p: Seq<char>| trim(p))) {
        Some(ns) => if ns.len() == 2 {
            Some((ns[0], ns[1]))
        } else {
            None
        },
        None => None,
    }
}

pub open spec fn open_bracket() -> Seq<char> {
    seq!['[']
}

pub open spec fn close_bracket() -> Seq<char> {
    seq![']']
}

pub open spec fn history_word() -> Seq<char> {
    seq!['h', 'i', 's', 't', 'o', 'r', 'y']
}

pub open spec fn apm_word() -> Seq<char> {
    seq!['a', 'p', 'm']
}

pub open spec fn runner_word() -> Seq<char> {
    seq!['r', 'u', 'n', 'n', 'e', 'r']
}

pub open spec fn active_field() -> Seq<char> {
    seq![' ', 'A', 'C', 'T', 'I', 'V', 'E', ':']
}

pub open spec fn inactive_field() -> Seq<char> {
    seq![' ', 'I', 'N', 'A', 'C', 'T', 'I', 'V', 'E', ':']
}

pub open spec fn command_field() -> Seq<char> {
    seq![' ', 'C', 'O', 'M', 'M', 'A', 'N', 'D', ':']
}

/// A reactive element `[a, b]text`: the key, and the rest of the line with
/// its escapes turned into escape characters.
pub open spec fn reactive_spec(line: Seq<char>) -> Result<LineSpec, LoadError> {
    match split_once(line, close_bracket()) {
        None => Err(LoadError::MissingBracket),
        Some((input, action)) => match parse_key(trim_start_matches(input, open_bracket())) {
            None => Err(LoadError::BadKey),
            Some(k) => Ok(LineSpec::Reactive(k, unescape(action))),
        },
    }
}

/// A widget line: the numbers after its first word.
pub open spec fn attributes(line: Seq<char>) -> Option<Seq<u8>> {
    let ws = words(line);
    parse_all_u8(if ws.len() == 0 { ws } else { ws.drop_first() })
}

/// A runner `runner [a, b] ACTIVE:text INACTIVE:text COMMAND:program args`.
pub open spec fn runner_spec(line: Seq<char>) -> Result<LineSpec, LoadError> {
    let rest = trim_start_matches(line, runner_word());
    match split_once(rest, active_field()) {
        None => Err(LoadError::MissingField),
        Some((key, d1)) => match split_once(d1, inactive_field()) {
            None => Err(LoadError::MissingField),
            Some((active, d2)) => match split_once(d2, command_field()) {
                None => Err(LoadError::MissingField),
                Some((inactive, d3)) => match parse_key(
                    trim_end_matches(trim_start_matches(trim(key), open_bracket()), ']'),
                ) {
                    None => Err(LoadError::BadKey),
                    Some(k) => {
                        let ws = words(d3);
                        if ws.len() == 0 {
                            Err(LoadError::MissingCommand)
                        } else {
                            Ok(
                                LineSpec::Runner(
                                    k,
                                    RunnerView {
                                        active_tui: unescape(active),
                                        inactive_tui: unescape(inactive),
                                        command: ws[0],
                                        args: ws.drop_first(),
                                    },
                                ),
                            )
                        }
                    },
                },
            },
        },
    }
}

/// The text after ` COMMAND:` of a runner line, where it has the three
/// fields in order.
pub open spec fn command_text(line: Seq<char>) -> Option<Seq<char>> {
    match split_once(trim_start_matches(line, runner_word()), active_field()) {
        None => None,
        Some((_key, d1)) => match split_once(d1, inactive_field()) {
            None => None,
            Some((_active, d2)) => match split_once(d2, command_field()) {
                None => None,
                Some((_inactive, d3)) => Some(d3),
            },
        },
    }
}

/// A runner's program and arguments are exactly the words after
/// ` COMMAND:`, in order: the program first, then every other word; with
/// no word there the line is refused.
pub proof fn law_runner_command_words(line: Seq<char>)
    ensures
        runner_spec(line) matches Ok(LineSpec::Runner(_k, r)) ==> command_text(line) matches Some(
            d3,
        ) && seq![r.command] + r.args == words(d3),
        command_text(line) matches Some(d3) && words(d3).len() == 0 ==> runner_spec(line) is Err,
{
    if let Ok(LineSpec::Runner(_k, r)) = runner_spec(line) {
        let d3 = command_text(line)->Some_0;
        assert(seq![r.command] + r.args =~= words(d3));
    }
}

/// What a line after the first describes: a blank line ends the elements;
/// then the line is told apart by how it starts.
pub open spec fn line_spec(line: Seq<char>) -> Result<LineSpec, LoadError> {
    if trim(line).len() == 0 {
        Ok(LineSpec::End)
    } else if starts_with(line, open_bracket()) {
        reactive_spec(line)
    } else if starts_with(line, history_word()) {
        match attributes(line) {
            None => Err(LoadError::BadNumber),
            Some(a) => if a.len() == 4 {
                Ok(LineSpec::History(a[0], a[1], a[2], a[3]))
            } else {
                Ok(LineSpec::Other)
            },
        }
    } else if starts_with(line, apm_word()) {
        match attributes(line) {
            None => Err(LoadError::BadNumber),
            Some(a) => if a.len() == 3 {
                Ok(LineSpec::Apm(a[0], a[1], a[2]))
            } else {
                Ok(LineSpec::Other)
            },
        }
    } else if starts_with(line, runner_word()) {
        runner_spec(line)
    } else {
        Ok(LineSpec::Other)
    }
}

/// The static text of the first line: escapes turned into escape
/// characters, then white space trimmed.
pub open spec fn static_spec(line: Seq<char>) -> Seq<char> {
    trim(unescape(line))
}

/// The numbers of `ws[from..]`, each a `u8`.
fn parse_all_u8_exec(ws: &Vec<Vec<char>>, from: usize) -> (r: Option<Vec<u8>>)
    requires
        from <= ws.len(),
    ensures
        match r {
            Some(v) => parse_all_u8(char_lists(ws@).subrange(from as int, ws@.len() as int))
                == Some(v@),
            None => parse_all_u8(char_lists(ws@).subrange(from as int, ws@.len() as int)) is None,
        },
{
    let ghost all = char_lists(ws@);
    let mut out: Vec<u8> = Vec::new();
    let mut i: usize = from;
    assert(all.subrange(from as int, from as int) =~= Seq::<Seq<char>>::empty());
    while i < ws.len()
        invariant
            from <= i <= ws.len(),
            all == char_lists(ws@),
            parse_all_u8(all.subrange(from as int, i as int)) == Some(out@),
        decreases ws.len() - i,
    {
        let ghost sub = all.subrange(from as int, i + 1);
        assert(sub.drop_last() =~= all.subrange(from as int, i as int));
        assert(sub.last() == ws@[i as int]@);
        match parse_u8_exec(&ws[i]) {
            Some(n) => {
                out.push(n);
                i = i + 1;
            },
            None => {
                proof {
                    let rest = all.subrange(from as int, ws@.len() as int);
                    lemma_parse_all_prefix(rest, i - from + 1);
                    assert(rest.subrange(0, i - from + 1) =~= sub);
                }
                return None;
            },
        }
    }
    Some(out)
}

/// A list with a prefix that fails fails too.
proof fn lemma_parse_all_prefix(ws: Seq<Seq<char>>, n: int)
    requires
        0 <= n <= ws.len(),
        parse_all_u8(ws.subrange(0, n)) is None,
    ensures
        parse_all_u8(ws) is None,
    decreases ws.len() - n,
{
    if n < ws.len() {
        assert(ws.subrange(0, n + 1).drop_last() =~= ws.subrange(0, n));
        lemma_parse_all_prefix(ws, n + 1);
    } else {
        assert(ws.subrange(0, n) =~= ws);
    }
}

/// The characters of a literal known to hold `expected`.
fn literal_chars(s: &str, Ghost(expected): Ghost<Seq<char>>) -> (v: Vec<char>)
    requires
        s@ =~= expected,
    ensures
        v@ == expected,
{
    to_chars(s)
}

/// A key `a,b`.
fn parse_key_exec(s: &Vec<char>) -> (r: Option<[u8; 2]>)
    ensures
        match r {
            Some(k) => parse_key(s@) == Some((k[0], k[1])),
            None => parse_key(s@) is None,
        },
{
    let parts = split_char_exec(s, ',');
    let mut trimmed: Vec<Vec<char>> = Vec::new();
    let mut i: usize = 0;
    while i < parts.len()
        invariant
            i <= parts.len(),
            trimmed@.len() == i,
            forall|j: int| 0 <= j < i ==> (#[trigger] trimmed@[j])@ == trim(parts@[j]@),
        decreases parts.len() - i,
    {
        trimmed.push(trim_exec(&parts[i]));
        i = i + 1;
    }
    let ghost pieces = split_char(s@, ',');
    assert(char_lists(trimmed@).subrange(0, trimmed@.len() as int) =~= pieces.map_values(
        |p: Seq<char>| trim(p),
    ));
    match parse_all_u8_exec(&trimmed, 0) {
        Some(ns) => {
            if ns.len() == 2 {
                Some([ns[0], ns[1]])
            } else {
                None
            }
        },
        None => None,
    }
}

/// The rest of a reactive element line.
fn parse_reactive(line: &Vec<char>) -> (r: Result<TuiLine, LoadError>)
    ensures
        match r {
            Ok(t) => reactive_spec(line@) == Ok::<LineSpec, LoadError>(t@),
            Err(e) => reactive_spec(line@) == Err::<LineSpec, LoadError>(e),
        },
{
    proof {
        reveal_strlit("]");
        reveal_strlit("[");
    }
    let close = literal_chars("]", Ghost(close_bracket()));
    let open = literal_chars("[", Ghost(open_bracket()));
    match split_once_exec(line, &close) {
        None => Err(LoadError::MissingBracket),
        Some((input, action)) => match parse_key_exec(&trim_start_matches_exec(&input, &open)) {
            None => Err(LoadError::BadKey),
            Some(key) => Ok(TuiLine::Reactive { key, action: from_chars(&unescape_exec(&action)) }),
        },
    }
}

/// The attributes of a widget line.
fn parse_attributes(line: &Vec<char>) -> (r: Option<Vec<u8>>)
    ensures
        match r {
            Some(v) => attributes(line@) == Some(v@),
            None => attributes(line@) is None,
        },
{
    let ws = words_exec(line);
    let from: usize = if ws.len() == 0 { 0 } else { 1 };
    let ghost all = char_lists(ws@);
    assert(all.subrange(from as int, all.len() as int) =~= (if all.len() == 0 { all } else {
        all.drop_first()
    }));
    parse_all_u8_exec(&ws, from)
}

/// The strings of `ws[from..]`.
fn strings_from(ws: &Vec<Vec<char>>, from: usize) -> (r: Vec<String>)
    requires
        from <= ws.len(),
    ensures
        string_views(r@) == char_lists(ws@).subrange(from as int, ws@.len() as int),
{
    let mut r: Vec<String> = Vec::new();
    let mut i: usize = from;
    while i < ws.len()
        invariant
            from <= i <= ws.len(),
            string_views(r@) == char_lists(ws@).subrange(from as int, i as int),
        decreases ws.len() - i,
    {
        let ghost before = r@;
        let st = from_chars(&ws[i]);
        r.push(st);
        assert(r@ == before.push(st));
        assert(char_lists(ws@)[i as int] == ws@[i as int]@);
        assert(string_views(before).len() == before.len());
        assert(before.len() == i - from);
        assert(string_views(r@) =~= string_views(before).push(st@));
        assert(char_lists(ws@).subrange(from as int, i + 1) =~= char_lists(ws@).subrange(
            from as int,
            i as int,
        ).push(ws@[i as int]@));
        i = i + 1;
    }
    r
}

/// A runner line.
fn parse_runner(line: &Vec<char>) -> (r: Result<TuiLine, LoadError>)
    ensures
        match r {
            Ok(t) => runner_spec(line@) == Ok::<LineSpec, LoadError>(t@),
            Err(e) => runner_spec(line@) == Err::<LineSpec, LoadError>(e),
        },
{
    proof {
        reveal_strlit("runner");
        reveal_strlit(" ACTIVE:");
        reveal_strlit(" INACTIVE:");
        reveal_strlit(" COMMAND:");
        reveal_strlit("[");
    }
    let word = literal_chars("runner", Ghost(runner_word()));
    let active_pat = literal_chars(" ACTIVE:", Ghost(active_field()));
    let inactive_pat = literal_chars(" INACTIVE:", Ghost(inactive_field()));
    let command_pat = literal_chars(" COMMAND:", Ghost(command_field()));
    let open = literal_chars("[", Ghost(open_bracket()));
    let rest = trim_start_matches_exec(line, &word);
    let (key, d1) = match split_once_exec(&rest, &active_pat) {
        Some(p) => p,
        None => {
            return Err(LoadError::MissingField);
        },
    };
    let (active, d2) = match split_once_exec(&d1, &inactive_pat) {
        Some(p) => p,
        None => {
            return Err(LoadError::MissingField);
        },
    };
    let (inactive, d3) = match split_once_exec(&d2, &command_pat) {
        Some(p) => p,
        None => {
            return Err(LoadError::MissingField);
        },
    };
    let key_text = trim_end_matches_exec(&trim_start_matches_exec(&trim_exec(&key), &open), ']');
    let k = match parse_key_exec(&key_text) {
        Some(k) => k,
        None => {
            return Err(LoadError::BadKey);
        },
    };
    let ws = words_exec(&d3);
    if ws.len() == 0 {
        return Err(LoadError::MissingCommand);
    }
    let command = from_chars(&ws[0]);
    let args = strings_from(&ws, 1);
    assert(char_lists(ws@).subrange(1, ws@.len() as int) =~= char_lists(ws@).drop_first());
    let runner = Runner::new(
        from_chars(&unescape_exec(&active)),
        from_chars(&unescape_exec(&inactive)),
        command,
        args,
    );
    Ok(TuiLine::Runner { key: k, runner })
}

/// What a line after the first describes (`line` as read, its line end
/// included).
pub fn parse_line(line: &str) -> (r: Result<TuiLine, LoadError>)
    ensures
        match r {
            Ok(t) => line_spec(line@) == Ok::<LineSpec, LoadError>(t@),
            Err(e) => line_spec(line@) == Err::<LineSpec, LoadError>(e),
        },
{
    proof {
        reveal_strlit("[");
        reveal_strlit("history");
        reveal_strlit("apm");
        reveal_strlit("runner");
    }
    let chars = to_chars(line);
    if trim_exec(&chars).len() == 0 {
        return Ok(TuiLine::End);
    }
    let open = literal_chars("[", Ghost(open_bracket()));
    let history = literal_chars("history", Ghost(history_word()));
    let apm = literal_chars("apm", Ghost(apm_word()));
    let runner = literal_chars("runner", Ghost(runner_word()));
    if occurs_at_exec(&chars, &open, 0) {
        parse_reactive(&chars)
    } else if occurs_at_exec(&chars, &history, 0) {
        match parse_attributes(&chars) {
            None => Err(LoadError::BadNumber),
            Some(a) => {
                if a.len() == 4 {
                    Ok(TuiLine::History { x: a[0], y: a[1], length: a[2], width: a[3] })
                } else {
                    Ok(TuiLine::Other)
                }
            },
        }
    } else if occurs_at_exec(&chars, &apm, 0) {
        match parse_attributes(&chars) {
            None => Err(LoadError::BadNumber),
            Some(a) => {
                if a.len() == 3 {
                    Ok(TuiLine::Apm { x: a[0], y: a[1], width: a[2] })
                } else {
                    Ok(TuiLine::Other)
                }
            },
        }
    } else if occurs_at_exec(&chars, &runner, 0) {
        parse_runner(&chars)
    } else {
        Ok(TuiLine::Other)
    }
}

/// The static text of the tui, from its first line as read.
pub fn parse_static(line: &str) -> (r: String)
    ensures
        r@ == static_spec(line@),
{
    from_chars(&trim_exec(&unescape_exec(&to_chars(line))))
}

/// The map key of a key event `[kind, code]`.
pub open spec fn key_id_spec(key: [u8; 2]) -> u16 {
    (key[0] * 256 + key[1]) as u16
}

/// The map key of a key event `[kind, code]`: `kind * 256 + code`.
pub fn key_id(key: [u8; 2]) -> (r: u16)
    ensures
        r == key_id_spec(key),
        r == key[0] * 256 + key[1],
{
    (key[0] as u16) * 256 + (key[1] as u16)
}

/// Distinct key events get distinct map keys, so a table keyed by
/// `key_id` holds the same bindings as one keyed by the events.
pub proof fn law_key_id_injective(a: [u8; 2], b: [u8; 2])
    ensures
        key_id_spec(a) == key_id_spec(b) ==> a == b,
{
    if key_id_spec(a) == key_id_spec(b) {
        assert(a[0] * 256 + a[1] == b[0] * 256 + b[1]);
        assert(a[0] == b[0]);
        assert(a[1] == b[1]);
        assert(a@ =~= b@);
    }
}

/// The layout `new` is `old` with the element of `line` added: a later
/// binding of the same key replaces the earlier one, a widget is added at
/// the end, and a line that describes no element changes nothing.
pub open spec fn applied(old: TuiLayout, line: TuiLine, new: TuiLayout) -> bool {
    &&& new.static_tui == old.static_tui
    &&& match line {
        TuiLine::Reactive { key, action } => new.reactive_tui@ == old.reactive_tui@.insert(
            key_id_spec(key),
            action,
        ),
        _ => new.reactive_tui@ == old.reactive_tui@,
    }
    &&& match line {
        TuiLine::Runner { key, runner } => new.runners@ == old.runners@.insert(
            key_id_spec(key),
            runner,
        ),
        _ => new.runners@ == old.runners@,
    }
    &&& match line {
        TuiLine::History { x, y, length, width } => {
            &&& new.scripted_tui@.len() == old.scripted_tui@.len() + 1
            &&& new.scripted_tui@.drop_last() == old.scripted_tui@
            &&& new.scripted_tui@.last() matches ScriptedTui::History(h)
            &&& h@.wf() && h@.loc_x == x && h@.loc_y == y && h@.length == length && h@.width
                == width
            &&& h@.names == Map::<u8, Seq<char>>::empty()
            &&& forall|i: int|
                0 <= i < length ==> (#[trigger] h@.entries[i]).key_code == 0
                    && h@.entries[i].action_code == 0 && h@.entries[i] == h@.entries[0]
        },
        TuiLine::Apm { x, y, width } => {
            &&& new.scripted_tui@.len() == old.scripted_tui@.len() + 1
            &&& new.scripted_tui@.drop_last() == old.scripted_tui@
            &&& new.scripted_tui@.last() matches ScriptedTui::Apm(a)
            &&& a@.loc_x == x && a@.loc_y == y && a@.width == width && a@.overall == 0
                && a@.average == 0
        },
        _ => new.scripted_tui@ == old.scripted_tui@,
    }
}

/// The elements that the lines after the first describe: read up to the
/// first blank line, skipping lines that describe nothing; the first line
/// that cannot be read is the error.
pub open spec fn elements(lines: Seq<Seq<char>>) -> Result<Seq<LineSpec>, LoadError>
    decreases lines.len(),
{
    if lines.len() == 0 {
        Ok(seq![])
    } else {
        match line_spec(lines[0]) {
            Err(e) => Err(e),
            Ok(LineSpec::End) => Ok(seq![]),
            Ok(LineSpec::Other) => elements(lines.drop_first()),
            Ok(x) => match elements(lines.drop_first()) {
                Ok(r) => Ok(seq![x] + r),
                Err(e) => Err(e),
            },
        }
    }
}

/// Nothing after the first blank line counts: the lines after it are never
/// read.
pub proof fn law_blank_line_ends(body: Seq<Seq<char>>, blank: Seq<char>, tail: Seq<Seq<char>>)
    requires
        trim(blank).len() == 0,
    ensures
        elements(body + seq![blank] + tail) == elements(body),
    decreases body.len(),
{
    let all = body + seq![blank] + tail;
    if body.len() == 0 {
        assert(all[0] == blank);
    } else {
        assert(all[0] == body[0]);
        assert(all.drop_first() =~= body.drop_first() + seq![blank] + tail);
        law_blank_line_ends(body.drop_first(), blank, tail);
    }
}

/// A line that describes no element adds nothing.
pub proof fn law_other_lines(body: Seq<Seq<char>>, line: Seq<char>, tail: Seq<Seq<char>>)
    requires
        line_spec(line) == Ok::<LineSpec, LoadError>(LineSpec::Other),
    ensures
        elements(body + seq![line] + tail) == elements(body + tail),
    decreases body.len(),
{
    let all = body + seq![line] + tail;
    if body.len() == 0 {
        assert(all[0] == line);
        assert(all.drop_first() =~= tail);
        assert(body + tail =~= tail);
    } else {
        assert(all[0] == body[0]);
        assert((body + tail)[0] == body[0]);
        assert(all.drop_first() =~= body.drop_first() + seq![line] + tail);
        assert((body + tail).drop_first() =~= body.drop_first() + tail);
        law_other_lines(body.drop_first(), line, tail);
    }
}

/// A loaded tui: the static text, the texts drawn on key events, the
/// scripted widgets in file order, and the runners.
pub struct TuiLayout {
    pub static_tui: String,
    pub reactive_tui: HashMap<u16, String>,
    pub scripted_tui: Vec<ScriptedTui>,
    pub runners: HashMap<u16, Runner>,
}

impl TuiLayout {
    /// A tui with the static text of `first_line` and no element.
    pub fn new(first_line: &str) -> (t: TuiLayout)
        ensures
            t.static_tui@ == static_spec(first_line@),
            t.reactive_tui@ == Map::<u16, String>::empty(),
            t.scripted_tui@.len() == 0,
            t.runners@ == Map::<u16, Runner>::empty(),
    {
        TuiLayout {
            static_tui: parse_static(first_line),
            reactive_tui: HashMap::new(),
            scripted_tui: Vec::new(),
            runners: HashMap::new(),
        }
    }

    /// Reads line `line` (a line after the first, as read): a blank line
    /// gives `Ok(false)`, the end of the elements; a line that cannot be read
    /// gives its error; any other line adds its element and gives `Ok(true)`.
    /// On `Ok(false)` and on an error the layout is left as it was.
    pub fn feed(&mut self, line: &str) -> (r: Result<bool, LoadError>)
        ensures
            match line_spec(line@) {
                Err(e) => r == Err::<bool, LoadError>(e) && *final(self) == *old(self),
                Ok(LineSpec::End) => r == Ok::<bool, LoadError>(false) && *final(self) == *old(
                    self,
                ),
                Ok(spec) => r == Ok::<bool, LoadError>(true) && exists|l: TuiLine|
                    l@ == spec && applied(*old(self), l, *final(self)),
            },
    {
        match parse_line(line) {
            Ok(TuiLine::End) => Ok(false),
            Ok(l) => {
                let ghost gl = l;
                self.apply(l);
                assert(gl@ == line_spec(line@)->Ok_0);
                Ok(true)
            },
            Err(e) => Err(e),
        }
    }

    /// Adds the element that `line` describes; a later binding of the same
    /// key replaces the earlier one.
    pub fn apply(&mut self, line: TuiLine)
        ensures
            applied(*old(self), line, *final(self)),
    {
        let ghost gl = line;
        match line {
            TuiLine::Reactive { key, action } => {
                self.reactive_tui.insert(key_id(key), action);
            },
            TuiLine::History { x, y, length, width } => {
                let h = History::new(x, y, length, width);
                self.scripted_tui.push(ScriptedTui::History(h));
                assert(self.scripted_tui@.drop_last() =~= old(self).scripted_tui@);
            },
            TuiLine::Apm { x, y, width } => {
                self.scripted_tui.push(ScriptedTui::Apm(Apm::new(x, y, width)));
                assert(self.scripted_tui@.drop_last() =~= old(self).scripted_tui@);
            },
            TuiLine::Runner { key, runner } => {
                self.runners.insert(key_id(key), runner);
            },
            TuiLine::End => {},
            TuiLine::Other => {},
        }
        assert(self.static_tui == old(self).static_tui);
        assert(applied(*old(self), gl, *self));
    }
}

} // verus!
