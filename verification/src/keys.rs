//! The main loop's decisions: which keys are held down, what a byte typed
//! in the terminal asks for, and the debug line.

use vstd::prelude::*;
use crate::text::{dec_chars, push_char, push_decimal};

verus! {

/// The first position at or after `i` where `s` holds `k`, or its length.
pub open spec fn find_key(s: Seq<u8>, k: u8, i: int) -> int
    decreases s.len() - i,
{
    if i < 0 || i >= s.len() {
        s.len() as int
    } else if s[i] == k {
        i
    } else {
        find_key(s, k, i + 1)
    }
}

/// `s` without the first occurrence of `k`, if any.
pub open spec fn without_first(s: Seq<u8>, k: u8) -> Seq<u8> {
    let i = find_key(s, k, 0);
    if i < s.len() {
        s.remove(i)
    } else {
        s
    }
}

/// Whether an event kind presses a key (13) or scrolls (15).
pub open spec fn is_press(kind: u8) -> bool {
    kind == 13 || kind == 15
}

/// Whether an event kind releases a key (14) or scrolls (16).
pub open spec fn is_release(kind: u8) -> bool {
    kind == 14 || kind == 16
}

/// The keys held down after event `key` (`[kind, code]`): a press adds the
/// code at the end, a release removes its first occurrence, any other kind
/// changes nothing.
pub open spec fn after_event(s: Seq<u8>, key: [u8; 2]) -> Seq<u8> {
    if is_press(key[0]) {
        s.push(key[1])
    } else if is_release(key[0]) {
        without_first(s, key[1])
    } else {
        s
    }
}

/// The keys held down, in the order they were pressed.
pub struct PressedKeys {
    keys: Vec<u8>,
}

impl View for PressedKeys {
    type V = Seq<u8>;

    closed spec fn view(&self) -> Seq<u8> {
        self.keys@
    }
}

proof fn lemma_find_key_bounds(s: Seq<u8>, k: u8, i: int)
    requires
        0 <= i,
    ensures
        find_key(s, k, i) == s.len() || (i <= find_key(s, k, i) < s.len() && s[find_key(s, k, i)]
            == k),
        forall|j: int| i <= j < find_key(s, k, i) ==> s[j] != k,
    decreases s.len() - i,
{
    if i < s.len() && s[i] != k {
        lemma_find_key_bounds(s, k, i + 1);
    }
}

/// Pressing one more key does not move the first occurrence of a key
/// already held.
proof fn lemma_find_key_push(s: Seq<u8>, k: u8, x: u8, i: int)
    requires
        0 <= i <= s.len(),
    ensures
        find_key(s, k, i) < s.len() ==> find_key(s.push(x), k, i) == find_key(s, k, i),
        find_key(s, k, i) == s.len() && x == k ==> find_key(s.push(x), k, i) == s.len(),
    decreases s.len() - i,
{
    if i < s.len() && s[i] != k {
        lemma_find_key_push(s, k, x, i + 1);
    }
}

/// A press followed by the release of the same key gives back the keys
/// held before, as a multiset; and exactly the same list where that key
/// was not held already.
pub proof fn law_press_release(s: Seq<u8>, press_kind: u8, release_kind: u8, k: u8)
    requires
        is_press(press_kind),
        is_release(release_kind),
    ensures
        after_event(after_event(s, [press_kind, k]), [release_kind, k]).to_multiset()
            == s.to_multiset(),
        !s.contains(k) ==> after_event(after_event(s, [press_kind, k]), [release_kind, k]) == s,
{
    broadcast use vstd::seq_lib::group_to_multiset_ensures;

    let s2 = s.push(k);
    assert(after_event(s, [press_kind, k]) == s2);
    lemma_find_key_bounds(s, k, 0);
    lemma_find_key_push(s, k, k, 0);
    let i = find_key(s, k, 0);
    if i < s.len() {
        assert(s2.remove(i) =~= s.remove(i).push(k));
        // `k` is held at `i`: removing it there and adding it at the end
        // keeps the multiset
        assert(s.contains(k)) by {
            assert(s[i] == k);
        }
        assert(s.to_multiset().remove(k).insert(k) =~= s.to_multiset()) by {
            broadcast use vstd::multiset::group_multiset_axioms;

        }
    } else {
        assert(s2.remove(s.len() as int) =~= s);
        assert(!s.contains(k)) by {
            if s.contains(k) {
                let j = choose|j: int| 0 <= j < s.len() && s[j] == k;
                assert(s[j] != k);
            }
        }
    }
}

/// Events other than presses and releases leave the keys held as they are.
pub proof fn law_other_events(s: Seq<u8>, key: [u8; 2])
    requires
        !is_press(key[0]),
        !is_release(key[0]),
    ensures
        after_event(s, key) == s,
{
}

/// Releasing a key that is not held changes nothing.
pub proof fn law_release_unheld(s: Seq<u8>, release_kind: u8, k: u8)
    requires
        is_release(release_kind),
        !s.contains(k),
    ensures
        after_event(s, [release_kind, k]) == s,
{
    lemma_find_key_bounds(s, k, 0);
    if find_key(s, k, 0) < s.len() {
        assert(s.contains(k));
    }
}

impl PressedKeys {
    /// No key held.
    pub fn new() -> (p: PressedKeys)
        ensures
            p@ == Seq::<u8>::empty(),
    {
        PressedKeys { keys: Vec::new() }
    }

    /// Takes in key event `key` (`[kind, code]`).
    pub fn handle(&mut self, key: [u8; 2])
        ensures
            final(self)@ == after_event(old(self)@, key),
    {
        let kind = key[0];
        if kind == 13 || kind == 15 {
            self.keys.push(key[1]);
        } else if kind == 14 || kind == 16 {
            let mut i: usize = 0;
            while i < self.keys.len() && self.keys[i] != key[1]
                invariant
                    i <= self.keys.len(),
                    self.keys@ == old(self)@,
                    find_key(self.keys@, key[1], 0) == find_key(self.keys@, key[1], i as int),
                decreases self.keys.len() - i,
            {
                i = i + 1;
            }
            if i < self.keys.len() {
                self.keys.remove(i);
            }
        }
    }

    /// The keys held, in the order they were pressed.
    pub fn keys(&self) -> (r: &Vec<u8>)
        ensures
            r@ == self@,
    {
        &self.keys
    }
}

/// What a byte typed in the terminal asks for.
#[derive(Clone, Copy, Debug, PartialEq, Eq, Structural)]
pub enum RawAction {
    /// Ctrl+C: stop, as on an interrupt signal.
    Interrupt,
    /// Ctrl+L: draw the tui again, as on a resize.
    Redraw,
    /// Anything else.
    Nothing,
}

/// What the byte `input` (as read from the terminal in raw mode) asks for.
pub fn raw_action(input: [u8; 1]) -> (r: RawAction)
    ensures
        r == (if input[0] == 3 {
            RawAction::Interrupt
        } else if input[0] == 12 {
            RawAction::Redraw
        } else {
            RawAction::Nothing
        }),
{
    if input[0] == 3 {
        RawAction::Interrupt
    } else if input[0] == 12 {
        RawAction::Redraw
    } else {
        RawAction::Nothing
    }
}

/// The numbers of `s`, separated by `, `.
pub open spec fn list_body(s: Seq<u8>) -> Seq<char>
    decreases s.len(),
{
    if s.len() == 0 {
        seq![]
    } else if s.len() == 1 {
        dec_chars(s[0] as nat)
    } else {
        list_body(s.drop_last()) + seq![',', ' '] + dec_chars(s.last() as nat)
    }
}

/// `s` as `{:?}` writes a list of bytes: `[1, 2, 3]`.
pub open spec fn debug_list(s: Seq<u8>) -> Seq<char> {
    seq!['['] + list_body(s) + seq![']']
}

/// The debug line: a cursor move to the start of row `height - 1`, a clear
/// to the end of the line, the terminal size, the keys held, and the last
/// key event and terminal byte.
pub open spec fn debug_text(
    width: u16,
    height: u16,
    keys: Seq<u8>,
    last_key: Seq<u8>,
    last_input: Seq<u8>,
) -> Seq<char> {
    seq!['\x1b', '['] + dec_chars((height - 1) as nat) + seq!['H', '\x1b', '[', 'K', 'w', ':']
        + dec_chars(width as nat) + seq![' ', 'h', ':'] + dec_chars(height as nat) + seq![' ']
        + debug_list(keys) + seq![' ', '[', 'g'] + debug_list(last_key) + seq![' ', 'l']
        + debug_list(last_input) + seq![']']
}

/// Appends `s` as `{:?}` writes it.
fn push_debug_list(out: &mut String, s: &[u8])
    ensures
        final(out)@ == old(out)@ + debug_list(s@),
{
    let ghost before = out@;
    push_char(out, '[');
    let mut i: usize = 0;
    while i < s.len()
        invariant
            i <= s.len(),
            out@ == before + seq!['['] + list_body(s@.subrange(0, i as int)),
        decreases s.len() - i,
    {
        let ghost mid = out@;
        if i > 0 {
            push_char(out, ',');
            push_char(out, ' ');
        }
        push_decimal(out, s[i] as u128);
        proof {
            let p = s@.subrange(0, i + 1);
            assert(p.drop_last() =~= s@.subrange(0, i as int));
            assert(p.last() == s@[i as int]);
            if i == 0 {
                assert(list_body(s@.subrange(0, 0)) =~= Seq::<char>::empty());
            }
        }
        assert(out@ =~= before + seq!['['] + list_body(s@.subrange(0, i + 1)));
        i = i + 1;
    }
    push_char(out, ']');
    assert(s@.subrange(0, s@.len() as int) =~= s@);
    assert(out@ =~= before + debug_list(s@));
}

/// The debug line for a terminal `width` by `height`, the keys held, the
/// last key event and the last byte typed.
pub fn debug_line(width: u16, height: u16, keys: &Vec<u8>, last_key: [u8; 2], last_input: [u8; 1]) -> (r:
    String)
    requires
        height >= 1,
    ensures
        r@ == debug_text(width, height, keys@, last_key@, last_input@),
{
    let mut out = String::new();
    push_char(&mut out, '\x1b');
    push_char(&mut out, '[');
    push_decimal(&mut out, (height - 1) as u128);
    push_char(&mut out, 'H');
    push_char(&mut out, '\x1b');
    push_char(&mut out, '[');
    push_char(&mut out, 'K');
    push_char(&mut out, 'w');
    push_char(&mut out, ':');
    push_decimal(&mut out, width as u128);
    push_char(&mut out, ' ');
    push_char(&mut out, 'h');
    push_char(&mut out, ':');
    push_decimal(&mut out, height as u128);
    push_char(&mut out, ' ');
    push_debug_list(&mut out, keys.as_slice());
    push_char(&mut out, ' ');
    push_char(&mut out, '[');
    push_char(&mut out, 'g');
    push_debug_list(&mut out, &last_key);
    push_char(&mut out, ' ');
    push_char(&mut out, 'l');
    push_debug_list(&mut out, &last_input);
    push_char(&mut out, ']');
    assert(out@ =~= debug_text(width, height, keys@, last_key@, last_input@));
    out
}

} // verus!
