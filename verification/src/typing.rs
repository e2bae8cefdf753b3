//! Typing a string into whatever has the keyboard.
//!
//! The shell's on-screen keyboard and a paired phone produce whole strings, and the
//! apps that matter (a leanback web UI, a login form) only act on real key events.
//! The compositor owns the seat, so it can send them - but a keycode only produces
//! the character its keymap says it does, and no ordinary layout carries every
//! character a password or an accented Hungarian name needs.
//!
//! So the keymap is built for the string: one keycode per distinct character, that
//! character on the first level, nothing else. Load it, send the keys, put the old
//! one back. It works with any client because there is nothing to negotiate.

use vstd::prelude::*;
use crate::text;
use crate::text::{decimal, hexadecimal};

verus! {

/// The longest string this will type.
///
/// Not a protocol limit but a physical one: every character becomes a press and a
/// release, each serialised into the focused client's buffer before the event loop
/// gets another turn, so a caller asking for a megabyte freezes the picture and the
/// remote while it is delivered.
pub const MAX_TEXT: usize = 4096;

/// xkb counts keycodes from 8, and 8 itself is reserved.
pub const FIRST_KEYCODE: u32 = 9;

/// A keymap may describe up to 255 keycodes.
pub const LAST_KEYCODE: u32 = 255;

/// Left control under the layout the seat normally carries: xkb counts keycodes from 8,
/// so this is evdev 29.
pub const CTRL_KEYCODE: u32 = 37;

/// The letter a under the layout the seat normally carries.
pub const A_KEYCODE: u32 = 38;

/// Whether a client is entitled to act on an evdev code by itself, whatever the keymap
/// says the key produces.
///
/// Assigning a character to evdev 14 put Backspace under it for Chromium: the character
/// before it was typed and then deleted. Editing keys, modifiers and navigation are all
/// handled that way, so none of them may carry a character.
pub open spec fn is_reserved(evdev: int) -> bool {
    // escape
    ||| evdev == 1
    // backspace, tab, enter
    ||| evdev == 14 || evdev == 15 || evdev == 28
    // modifiers and menu
    ||| evdev == 29 || evdev == 42 || evdev == 54 || evdev == 56 || evdev == 58
    ||| evdev == 97 || evdev == 100 || evdev == 125 || evdev == 126 || evdev == 127
    // F1 to F12
    ||| 59 <= evdev <= 68 || evdev == 87 || evdev == 88
    // keypad enter, keypad slash, print
    ||| evdev == 96 || evdev == 98 || evdev == 99
    // home, arrows, page keys, end, insert, delete
    ||| 102 <= evdev <= 111
    // pause
    ||| evdev == 119
    // sleep, wakeup
    ||| evdev == 142 || evdev == 143
    // back, which the remote sends
    ||| evdev == 158
}

/// Whether a client is entitled to act on an evdev code by itself.
pub fn reserved(evdev: u32) -> (r: bool)
    ensures
        r == is_reserved(evdev as int),
{
    match evdev {
        1 => true,
        14 | 15 | 28 => true,
        29 | 42 | 54 | 56 | 58 | 97 | 100 | 125 | 126 | 127 => true,
        59 | 60 | 61 | 62 | 63 | 64 | 65 | 66 | 67 | 68 | 87 | 88 => true,
        96 | 98 | 99 => true,
        102 | 103 | 104 | 105 | 106 | 107 | 108 | 109 | 110 | 111 => true,
        119 => true,
        142 | 143 => true,
        158 => true,
        _ => false,
    }
}

/// The keycodes below a limit that a generated keymap may use, in order.
pub open spec fn usable_below(limit: nat) -> Seq<u32>
    decreases limit,
{
    if limit <= FIRST_KEYCODE {
        Seq::empty()
    } else {
        let front = usable_below((limit - 1) as nat);
        if is_reserved(limit - 1 - 8) {
            front
        } else {
            front.push((limit - 1) as u32)
        }
    }
}

/// The keycodes a generated keymap may use, in order.
pub open spec fn usable() -> Seq<u32> {
    usable_below((LAST_KEYCODE + 1) as nat)
}

/// The keycodes a generated keymap may use.
pub fn usable_keycodes() -> (r: Vec<u32>)
    ensures
        r@ == usable(),
{
    let mut codes: Vec<u32> = Vec::new();
    let mut code: u32 = FIRST_KEYCODE;
    while code <= LAST_KEYCODE
        invariant
            FIRST_KEYCODE <= code <= LAST_KEYCODE + 1,
            codes@ == usable_below(code as nat),
        decreases LAST_KEYCODE + 1 - code,
    {
        if !reserved(code - 8) {
            codes.push(code);
        }
        code += 1;
    }
    codes
}

proof fn lemma_usable(limit: nat)
    requires
        limit <= LAST_KEYCODE + 1,
    ensures
        forall|i: int|
            0 <= i < usable_below(limit).len() ==> {
                &&& FIRST_KEYCODE <= #[trigger] usable_below(limit)[i] < limit
                &&& !is_reserved(usable_below(limit)[i] - 8)
            },
        forall|i: int, j: int|
            0 <= i < j < usable_below(limit).len() ==> #[trigger] usable_below(limit)[i]
                < #[trigger] usable_below(limit)[j],
    decreases limit,
{
    if limit > FIRST_KEYCODE {
        lemma_usable((limit - 1) as nat);
        let front = usable_below((limit - 1) as nat);
        let all = usable_below(limit);
        assert forall|i: int| 0 <= i < all.len() implies {
            &&& FIRST_KEYCODE <= #[trigger] all[i] < limit
            &&& !is_reserved(all[i] - 8)
        } by {
            if i < front.len() {
                assert(all[i] == front[i]);
            }
        }
        assert forall|i: int, j: int| 0 <= i < j < all.len() implies #[trigger] all[i]
            < #[trigger] all[j] by {
            assert(all[i] == front[i]);
            if j < front.len() {
                assert(all[j] == front[j]);
            }
        }
    }
}

/// The characters of a string, each once, in the order they first occur.
pub open spec fn distinct(text: Seq<char>) -> Seq<char>
    decreases text.len(),
{
    if text.len() == 0 {
        Seq::empty()
    } else {
        let front = distinct(text.drop_last());
        if front.contains(text.last()) {
            front
        } else {
            front.push(text.last())
        }
    }
}

proof fn lemma_distinct(text: Seq<char>)
    ensures
        distinct(text).no_duplicates(),
        forall|i: int| 0 <= i < text.len() ==> distinct(text).contains(#[trigger] text[i]),
    decreases text.len(),
{
    if text.len() > 0 {
        lemma_distinct(text.drop_last());
        let front = distinct(text.drop_last());
        let all = distinct(text);
        assert(all.contains(text.last())) by {
            if !front.contains(text.last()) {
                assert(all[all.len() - 1] == text.last());
            }
        }
        assert forall|i: int| 0 <= i < text.len() implies all.contains(#[trigger] text[i]) by {
            if i < text.len() - 1 {
                assert(text.drop_last()[i] == text[i]);
                let at = front.index_of(text[i]);
                assert(all[at] == text[i]);
            }
        }
    }
}

/// Where a character stands in a list, or the list's length.
fn find(list: &Vec<char>, character: char) -> (r: usize)
    ensures
        r <= list@.len(),
        r < list@.len() <==> list@.contains(character),
        r < list@.len() ==> list@[r as int] == character,
{
    let mut at: usize = 0;
    while at < list.len() && list[at] != character
        invariant
            at <= list@.len(),
            forall|i: int| 0 <= i < at ==> list@[i] != character,
        decreases list@.len() - at,
    {
        at += 1;
    }
    at
}

/// The keycode that types a character, given the characters that are to be typed.
pub open spec fn key_of(character: char, characters: Seq<char>) -> u32 {
    usable()[characters.index_of(character)]
}

/// The keycodes that type a string, in order.
pub open spec fn keys_of(text: Seq<char>) -> Seq<u32> {
    Seq::new(text.len(), |i: int| key_of(text[i], distinct(text)))
}

/// The line of a keymap that gives a keycode a name.
pub open spec fn code_line(index: nat, code: nat) -> Seq<char> {
    "<K"@ + decimal(index) + "> = "@ + decimal(code) + ";\n"@
}

/// The lines of a keymap that name the keycodes in use.
pub open spec fn code_lines(count: nat) -> Seq<char>
    decreases count,
{
    if count == 0 {
        Seq::empty()
    } else {
        let last = (count - 1) as nat;
        code_lines(last) + code_line(last, usable()[last as int] as nat)
    }
}

/// The line of a keymap that puts a character on a key. Unicode keysyms are written U
/// followed by the code point, which covers every character a name or a password can
/// contain.
pub open spec fn symbol_line(index: nat, character: char) -> Seq<char> {
    "key <K"@ + decimal(index) + "> { [ U"@ + hexadecimal(character as u32 as nat, 4) + " ] };\n"@
}

/// The lines of a keymap that put the characters on the keys.
pub open spec fn symbol_lines(characters: Seq<char>) -> Seq<char>
    decreases characters.len(),
{
    if characters.len() == 0 {
        Seq::empty()
    } else {
        let last = (characters.len() - 1) as nat;
        symbol_lines(characters.drop_last()) + symbol_line(last, characters.last())
    }
}

/// A keymap that types some characters and nothing else.
pub open spec fn keymap_of(characters: Seq<char>) -> Seq<char> {
    "xkb_keymap {\nxkb_keycodes { minimum = 8; maximum = 255;\n"@ + code_lines(characters.len())
        + "};\nxkb_types { include \"complete\" };\nxkb_compat { include \"complete\" };\nxkb_symbols \"typing\" {\n"@
        + symbol_lines(characters) + "};\n};\n"@
}

fn push_code_lines(keymap: &mut String, codes: &Vec<u32>, count: usize)
    requires
        codes@ == usable(),
        count <= codes@.len(),
    ensures
        final(keymap)@ == old(keymap)@ + code_lines(count as nat),
{
    let ghost before = keymap@;
    let mut index: usize = 0;
    assert(keymap@ == before + code_lines(0));
    while index < count
        invariant
            index <= count <= codes@.len(),
            codes@ == usable(),
            keymap@ == before + code_lines(index as nat),
        decreases count - index,
    {
        keymap.append("<K");
        text::push_decimal(keymap, index as u64);
        keymap.append("> = ");
        text::push_decimal(keymap, codes[index] as u64);
        keymap.append(";\n");
        index += 1;
        assert(keymap@ == before + code_lines(index as nat));
    }
}

fn push_symbol_lines(keymap: &mut String, characters: &Vec<char>)
    ensures
        final(keymap)@ == old(keymap)@ + symbol_lines(characters@),
{
    let ghost before = keymap@;
    let mut index: usize = 0;
    assert(characters@.take(0) == Seq::<char>::empty());
    assert(keymap@ == before + symbol_lines(characters@.take(0)));
    while index < characters.len()
        invariant
            index <= characters@.len(),
            keymap@ == before + symbol_lines(characters@.take(index as int)),
        decreases characters@.len() - index,
    {
        keymap.append("key <K");
        text::push_decimal(keymap, index as u64);
        keymap.append("> { [ U");
        text::push_hexadecimal(keymap, characters[index] as u32, 4);
        keymap.append(" ] };\n");
        assert(characters@.take(index + 1).drop_last() == characters@.take(index as int));
        index += 1;
        assert(keymap@ == before + symbol_lines(characters@.take(index as int)));
    }
    assert(characters@.take(characters@.len() as int) == characters@);
}

/// The characters of a string, each once, in the order they first occur.
fn distinct_characters(characters: &Vec<char>) -> (r: Vec<char>)
    ensures
        r@ == distinct(characters@),
{
    let mut once: Vec<char> = Vec::new();
    let mut at: usize = 0;
    assert(characters@.take(0) == Seq::<char>::empty());
    while at < characters.len()
        invariant
            at <= characters@.len(),
            once@ == distinct(characters@.take(at as int)),
        decreases characters@.len() - at,
    {
        assert(characters@.take(at + 1).drop_last() == characters@.take(at as int));
        if find(&once, characters[at]) == once.len() {
            once.push(characters[at]);
        }
        at += 1;
    }
    assert(characters@.take(characters@.len() as int) == characters@);
    once
}

/// Build a keymap that can type exactly this string, and the keys to press.
///
/// Returns `None` if the string needs more distinct characters than a keymap holds.
pub fn keymap_for(string: &str) -> (r: Option<(String, Vec<u32>)>)
    ensures
        match r {
            Some((keymap, keys)) => {
                &&& distinct(string@).len() <= usable().len()
                &&& keymap@ == keymap_of(distinct(string@))
                &&& keys@ == keys_of(string@)
            },
            None => distinct(string@).len() > usable().len(),
        },
{
    let characters = text::chars_of(string);
    let once = distinct_characters(&characters);
    let codes = usable_keycodes();
    if codes.len() < once.len() {
        return None;
    }
    let mut keymap = "xkb_keymap {\nxkb_keycodes { minimum = 8; maximum = 255;\n".to_owned();
    push_code_lines(&mut keymap, &codes, once.len());
    keymap.append(
        "};\nxkb_types { include \"complete\" };\nxkb_compat { include \"complete\" };\nxkb_symbols \"typing\" {\n",
    );
    push_symbol_lines(&mut keymap, &once);
    keymap.append("};\n};\n");

    let mut keys: Vec<u32> = Vec::new();
    let mut at: usize = 0;
    proof {
        lemma_distinct(string@);
    }
    while at < characters.len()
        invariant
            at <= characters@.len(),
            characters@ == string@,
            once@ == distinct(string@),
            once@.no_duplicates(),
            forall|i: int| 0 <= i < string@.len() ==> once@.contains(#[trigger] string@[i]),
            codes@ == usable(),
            once@.len() <= codes@.len(),
            keys@ == keys_of(string@).take(at as int),
        decreases characters@.len() - at,
    {
        assert(once@.contains(string@[at as int]));
        let index: usize = find(&once, characters[at]);
        assert(index == once@.index_of(string@[at as int]));
        keys.push(codes[index]);
        at += 1;
    }
    assert(keys@ == keys_of(string@));
    Some((keymap, keys))
}

/// Equal characters are typed with equal keys, and different ones with different keys.
pub proof fn law_a_key_per_distinct_character(text: Seq<char>, i: int, j: int)
    requires
        distinct(text).len() <= usable().len(),
        0 <= i < text.len(),
        0 <= j < text.len(),
    ensures
        keys_of(text)[i] == keys_of(text)[j] <==> text[i] == text[j],
{
    lemma_distinct(text);
    lemma_usable((LAST_KEYCODE + 1) as nat);
    let once = distinct(text);
    assert(once.contains(text[i]) && once.contains(text[j]));
    let a = once.index_of(text[i]);
    let b = once.index_of(text[j]);
    assert(once[a] == text[i] && once[b] == text[j]);
    assert(usable()[a] == keys_of(text)[i]);
    assert(usable()[b] == keys_of(text)[j]);
}

/// No character lands on a key that a client acts on by itself.
pub proof fn law_no_character_lands_on_a_reserved_key(text: Seq<char>, i: int)
    requires
        distinct(text).len() <= usable().len(),
        0 <= i < text.len(),
    ensures
        FIRST_KEYCODE <= keys_of(text)[i] <= LAST_KEYCODE,
        !is_reserved(keys_of(text)[i] - 8),
{
    lemma_distinct(text);
    lemma_usable((LAST_KEYCODE + 1) as nat);
    assert(distinct(text).contains(text[i]));
    let at = distinct(text).index_of(text[i]);
    assert(usable()[at] == keys_of(text)[i]);
}

/// Under the keymap built for a string its keys type that string: the one line that
/// names a key's code is the line whose symbol is the character.
pub proof fn law_the_keys_type_the_string(text: Seq<char>, i: int, line: int)
    requires
        distinct(text).len() <= usable().len(),
        0 <= i < text.len(),
        0 <= line < distinct(text).len(),
    ensures
        usable()[line] == keys_of(text)[i] <==> distinct(text)[line] == text[i],
        distinct(text).contains(text[i]),
{
    lemma_distinct(text);
    lemma_usable((LAST_KEYCODE + 1) as nat);
    let once = distinct(text);
    assert(once.contains(text[i]));
    let at = once.index_of(text[i]);
    assert(once[at] == text[i]);
    assert(usable()[at] == keys_of(text)[i]);
}

/// The keycodes in use are all those from the first to the last that a client does not act
/// on by itself, in ascending order.
pub proof fn law_every_free_keycode_is_used(code: u32, i: int, j: int)
    ensures
        usable().contains(code) <==> 9 <= code <= 255 && !is_reserved(code - 8),
        0 <= i < j < usable().len() ==> usable()[i] < usable()[j],
{
    lemma_usable((LAST_KEYCODE + 1) as nat);
    if 9 <= code <= 255 && !is_reserved(code - 8) {
        lemma_free_keycode_is_used((LAST_KEYCODE + 1) as nat, code);
    }
    if usable().contains(code) {
        let at = usable().index_of(code);
        assert(FIRST_KEYCODE <= usable()[at] < LAST_KEYCODE + 1);
    }
}

proof fn lemma_free_keycode_is_used(limit: nat, code: u32)
    requires
        limit <= LAST_KEYCODE + 1,
        FIRST_KEYCODE <= code < limit,
        !is_reserved(code - 8),
    ensures
        usable_below(limit).contains(code),
    decreases limit,
{
    let all = usable_below(limit);
    if code == limit - 1 {
        assert(all[all.len() - 1] == code);
    } else {
        lemma_free_keycode_is_used((limit - 1) as nat, code);
        let front = usable_below((limit - 1) as nat);
        let at = front.index_of(code);
        assert(all[at] == code);
    }
}

/// No character of a string is typed with a key that edits, moves or modifies: escape,
/// backspace, tab, enter, control, shift, alt, the lock and menu keys, the function keys,
/// the arrows and what surrounds them, the keypad's enter, or the remote's back.
pub proof fn law_no_character_edits_or_moves(text: Seq<char>, i: int)
    requires
        distinct(text).len() <= usable().len(),
        0 <= i < text.len(),
    ensures
        ({
            let evdev = keys_of(text)[i] - 8;
            &&& 1 < evdev <= 247
            &&& evdev != 14 && evdev != 15 && evdev != 28
            &&& evdev != 29 && evdev != 42 && evdev != 54 && evdev != 56 && evdev != 58
            &&& evdev != 97 && evdev != 100 && !(125 <= evdev <= 127)
            &&& !(59 <= evdev <= 68) && evdev != 87 && evdev != 88
            &&& evdev != 96 && evdev != 98 && evdev != 99
            &&& !(102 <= evdev <= 111)
            &&& evdev != 119 && evdev != 142 && evdev != 143 && evdev != 158
        }),
{
    law_no_character_lands_on_a_reserved_key(text, i);
}

/// The keys a client acts on by itself are those, and no others: every other one may carry
/// a character.
pub proof fn law_every_other_key_is_free(evdev: int)
    requires
        is_reserved(evdev),
    ensures
        ({
            ||| evdev == 1 || evdev == 14 || evdev == 15 || evdev == 28 || evdev == 29
            ||| evdev == 42 || evdev == 54 || evdev == 56 || 58 <= evdev <= 68
            ||| evdev == 87 || evdev == 88 || 96 <= evdev <= 100 || 102 <= evdev <= 111
            ||| evdev == 119 || 125 <= evdev <= 127 || evdev == 142 || evdev == 143
            ||| evdev == 158
        }),
{
}

/// The characters that get a key are those of the string, each once, in the order in which
/// they first occur.
pub proof fn law_each_character_gets_one_key(text: Seq<char>, i: int, j: int)
    ensures
        distinct(text).no_duplicates(),
        distinct(text).to_set() == text.to_set(),
        distinct(text).len() == text.to_set().len(),
        0 <= i < j < distinct(text).len() ==> text.index_of_first(distinct(text)[i])->0
            < text.index_of_first(distinct(text)[j])->0,
    decreases text.len(),
{
    lemma_distinct(text);
    lemma_distinct_is_from(text);
    let once = distinct(text);
    assert(once.to_set() =~= text.to_set()) by {
        assert forall|c: char| text.contains(c) implies once.contains(c) by {
            let at = text.index_of(c);
            assert(once.contains(text[at]));
        }
    }
    once.unique_seq_to_set();
    if 0 <= i < j < once.len() {
        lemma_distinct_in_order(text, i, j);
    }
}

proof fn lemma_distinct_is_from(text: Seq<char>)
    ensures
        forall|c: char| #[trigger] distinct(text).contains(c) ==> text.contains(c),
    decreases text.len(),
{
    if text.len() > 0 {
        lemma_distinct_is_from(text.drop_last());
        let front = distinct(text.drop_last());
        assert forall|c: char| #[trigger] distinct(text).contains(c) implies text.contains(c) by {
            let at = distinct(text).index_of(c);
            if at < front.len() {
                assert(front[at] == c);
                assert(front.contains(c));
                let i = text.drop_last().index_of(c);
                assert(text[i] == c);
            } else {
                assert(text[text.len() - 1] == c);
            }
        }
    }
}

proof fn lemma_first_of_longer(text: Seq<char>, c: char)
    requires
        text.len() > 0,
        text.drop_last().contains(c),
    ensures
        text.contains(c),
        text.index_of_first(c) == text.drop_last().index_of_first(c),
{
    let front = text.drop_last();
    front.index_of_first_ensures(c);
    text.index_of_first_ensures(c);
    let at = front.index_of(c);
    assert(text[at] == c);
    let a = front.index_of_first(c)->0;
    let b = text.index_of_first(c)->0;
    assert(text[a] == front[a]);
    if b < front.len() {
        assert(front[b] == text[b]);
        assert(front.take(a) == text.take(a));
        assert(front.take(b) == text.take(b));
        if a < b {
            assert(text.take(b)[a] == c);
        }
        if b < a {
            assert(front.take(a)[b] == c);
        }
    } else {
        assert(text.take(b)[a] == c);
    }
}

proof fn lemma_distinct_in_order(text: Seq<char>, i: int, j: int)
    requires
        0 <= i < j < distinct(text).len(),
    ensures
        text.index_of_first(distinct(text)[i])->0 < text.index_of_first(distinct(text)[j])->0,
    decreases text.len(),
{
    let front = text.drop_last();
    let fewer = distinct(front);
    let all = distinct(text);
    lemma_distinct_is_from(front);
    lemma_distinct_is_from(text);
    assert(all[i] == fewer[i]);
    assert(fewer.contains(fewer[i]));
    lemma_first_of_longer(text, all[i]);
    if j < fewer.len() {
        assert(all[j] == fewer[j]);
        assert(fewer.contains(fewer[j]));
        lemma_distinct_in_order(front, i, j);
        lemma_first_of_longer(text, all[j]);
    } else {
        let c = all[j];
        assert(c == text.last());
        assert(all.contains(c));
        text.index_of_first_ensures(c);
        front.index_of_first_ensures(all[i]);
        let b = text.index_of_first(c)->0;
        if b < front.len() {
            assert(front[b] == c);
            lemma_distinct(front);
            assert(fewer.contains(front[b]));
        }
    }
}

/// Whether some text holds another somewhere.
pub open spec fn holds(text: Seq<char>, part: Seq<char>) -> bool {
    exists|at: int|
        0 <= at <= text.len() - part.len() && #[trigger] text.subrange(at, at + part.len()) == part
}

proof fn lemma_holds(front: Seq<char>, part: Seq<char>, back: Seq<char>)
    ensures
        holds(front + part + back, part),
{
    let text = front + part + back;
    let at = front.len() as int;
    assert(text.subrange(at, at + part.len()) == part);
}

proof fn lemma_code_line_is_there(count: nat, line: nat) -> (parts: (Seq<char>, Seq<char>))
    requires
        line < count,
    ensures
        code_lines(count) == parts.0 + code_line(line, usable()[line as int] as nat) + parts.1,
    decreases count,
{
    let last = (count - 1) as nat;
    let added = code_line(last, usable()[last as int] as nat);
    if line == last {
        assert(code_lines(count) == code_lines(last) + added + Seq::<char>::empty());
        (code_lines(last), Seq::empty())
    } else {
        let parts = lemma_code_line_is_there(last, line);
        let this = code_line(line, usable()[line as int] as nat);
        assert(code_lines(count) == parts.0 + this + (parts.1 + added));
        (parts.0, parts.1 + added)
    }
}

proof fn lemma_symbol_line_is_there(characters: Seq<char>, line: nat) -> (parts: (
    Seq<char>,
    Seq<char>,
))
    requires
        line < characters.len(),
    ensures
        symbol_lines(characters) == parts.0 + symbol_line(line, characters[line as int]) + parts.1,
    decreases characters.len(),
{
    let last = (characters.len() - 1) as nat;
    let front = characters.drop_last();
    let added = symbol_line(last, characters.last());
    if line == last {
        assert(symbol_lines(characters) == symbol_lines(front) + added + Seq::<char>::empty());
        (symbol_lines(front), Seq::empty())
    } else {
        let parts = lemma_symbol_line_is_there(front, line);
        let this = symbol_line(line, characters[line as int]);
        assert(symbol_lines(characters) == parts.0 + this + (parts.1 + added));
        (parts.0, parts.1 + added)
    }
}

/// Whether a keymap's text puts a character on a key: it gives the key's code a name, and
/// puts the character's code point on that name.
pub open spec fn carries(keymap: Seq<char>, key: u32, character: char) -> bool {
    exists|line: nat|
        #![trigger decimal(line)]
        {
            &&& holds(keymap, "<K"@ + decimal(line) + "> = "@ + decimal(key as nat) + ";\n"@)
            &&& holds(
                keymap,
                "key <K"@ + decimal(line) + "> { [ U"@ + hexadecimal(character as u32 as nat, 4)
                    + " ] };\n"@,
            )
        }
}

/// The keymap that is built for a string carries every character of it on the key that is
/// pressed for that character.
pub proof fn law_the_keymap_carries_the_string(text: Seq<char>, i: int)
    requires
        distinct(text).len() <= usable().len(),
        0 <= i < text.len(),
    ensures
        keys_of(text).len() == text.len(),
        carries(keymap_of(distinct(text)), keys_of(text)[i], text[i]),
{
    let once = distinct(text);
    lemma_distinct(text);
    assert(once.contains(text[i]));
    let line = once.index_of(text[i]) as nat;
    assert(once[line as int] == text[i]);
    let key = keys_of(text)[i];
    assert(usable()[line as int] == key);
    let keymap = keymap_of(once);
    let head = "xkb_keymap {\nxkb_keycodes { minimum = 8; maximum = 255;\n"@;
    let middle =
        "};\nxkb_types { include \"complete\" };\nxkb_compat { include \"complete\" };\nxkb_symbols \"typing\" {\n"@;
    let tail = "};\n};\n"@;
    let code = "<K"@ + decimal(line) + "> = "@ + decimal(key as nat) + ";\n"@;
    let symbol = "key <K"@ + decimal(line) + "> { [ U"@ + hexadecimal(text[i] as u32 as nat, 4)
        + " ] };\n"@;
    let a = lemma_code_line_is_there(once.len(), line);
    let b = lemma_symbol_line_is_there(once, line);
    let front = head + a.0;
    let back = a.1 + middle + symbol_lines(once) + tail;
    assert(keymap == front + code + back);
    lemma_holds(front, code, back);
    let before = head + code_lines(once.len()) + middle + b.0;
    let after = b.1 + tail;
    assert(keymap == before + symbol + after);
    lemma_holds(before, symbol, after);
}

/// Control and a go down, then a and control come up.
pub open spec fn chord() -> Seq<(u32, bool)> {
    seq![(CTRL_KEYCODE, true), (A_KEYCODE, true), (A_KEYCODE, false), (CTRL_KEYCODE, false)]
}

/// ctrl+a as press/release pairs.
pub fn select_all_chord() -> (r: Vec<(u32, bool)>)
    ensures
        r@ == chord(),
{
    vec![(CTRL_KEYCODE, true), (A_KEYCODE, true), (A_KEYCODE, false), (CTRL_KEYCODE, false)]
}

/// One press and one release per key, in order.
pub open spec fn strokes_of(keys: Seq<u32>) -> Seq<(u32, bool)>
    decreases keys.len(),
{
    if keys.len() == 0 {
        Seq::empty()
    } else {
        strokes_of(keys.drop_last()) + seq![(keys.last(), true), (keys.last(), false)]
    }
}

/// One press and one release per character, in order.
pub fn strokes_for(keys: &[u32]) -> (r: Vec<(u32, bool)>)
    ensures
        r@ == strokes_of(keys@),
        r@.len() == 2 * keys@.len(),
        forall|i: int|
            #![trigger keys@[i]]
            0 <= i < keys@.len() ==> r@[2 * i] == (keys@[i], true) && r@[2 * i + 1] == (
                keys@[i],
                false,
            ),
{
    let mut strokes: Vec<(u32, bool)> = Vec::new();
    let mut at: usize = 0;
    assert(keys@.take(0) == Seq::<u32>::empty());
    while at < keys.len()
        invariant
            at <= keys@.len(),
            strokes@ == strokes_of(keys@.take(at as int)),
        decreases keys@.len() - at,
    {
        assert(keys@.take(at + 1).drop_last() == keys@.take(at as int));
        strokes.push((keys[at], true));
        strokes.push((keys[at], false));
        at += 1;
        assert(strokes@ == strokes_of(keys@.take(at as int)));
    }
    assert(keys@.take(keys@.len() as int) == keys@);
    proof {
        law_one_press_and_one_release_per_key(keys@);
    }
    strokes
}

/// The keys that go down are exactly the keys of the string, in order: each goes down once
/// for each time it is there, and comes up before the next one.
pub proof fn law_one_press_and_one_release_per_key(keys: Seq<u32>)
    ensures
        strokes_of(keys).len() == 2 * keys.len(),
        forall|i: int|
            #![trigger keys[i]]
            0 <= i < keys.len() ==> {
                &&& strokes_of(keys)[2 * i] == (keys[i], true)
                &&& strokes_of(keys)[2 * i + 1] == (keys[i], false)
            },
    decreases keys.len(),
{
    if keys.len() > 0 {
        let front = keys.drop_last();
        law_one_press_and_one_release_per_key(front);
        assert forall|i: int|
            #![trigger keys[i]]
            0 <= i < keys.len() implies {
            &&& strokes_of(keys)[2 * i] == (keys[i], true)
            &&& strokes_of(keys)[2 * i + 1] == (keys[i], false)
        } by {
            if i < front.len() {
                assert(front[i] == keys[i]);
                assert(strokes_of(keys)[2 * i] == strokes_of(front)[2 * i]);
                assert(strokes_of(keys)[2 * i + 1] == strokes_of(front)[2 * i + 1]);
            }
        }
    }
}

/// The keys that are down after some strokes, where no key goes down twice and none
/// comes up that was not down.
pub open spec fn held_after(held: Set<u32>, strokes: Seq<(u32, bool)>) -> Option<Set<u32>>
    decreases strokes.len(),
{
    if strokes.len() == 0 {
        Some(held)
    } else {
        match held_after(held, strokes.drop_last()) {
            Some(down) => if strokes.last().1 == down.contains(strokes.last().0) {
                None
            } else if strokes.last().1 {
                Some(down.insert(strokes.last().0))
            } else {
                Some(down.remove(strokes.last().0))
            },
            None => None,
        }
    }
}

/// Every key that goes down comes back up before the next one goes down.
pub proof fn law_every_key_comes_back_up(keys: Seq<u32>)
    ensures
        held_after(Set::empty(), strokes_of(keys)) == Some(Set::<u32>::empty()),
    decreases keys.len(),
{
    if keys.len() > 0 {
        law_every_key_comes_back_up(keys.drop_last());
        let key = keys.last();
        let front = strokes_of(keys.drop_last());
        let pressed = front.push((key, true));
        let all = strokes_of(keys);
        assert(all == pressed.push((key, false)));
        assert(pressed.drop_last() == front);
        assert(all.drop_last() == pressed);
        let none = Set::<u32>::empty();
        assert(held_after(none, pressed) == Some(none.insert(key)));
        assert(none.insert(key).remove(key) == none);
    }
}

/// Control is up again when the chord is over: with it still held the string would go
/// out as shortcuts rather than text.
pub proof fn law_the_chord_leaves_no_key_down()
    ensures
        held_after(Set::empty(), chord()) == Some(Set::<u32>::empty()),
        chord().last() == (CTRL_KEYCODE, false),
        chord().len() == 4,
        held_after(Set::empty(), chord().take(2)) == Some(set![37u32, 38u32]),
        chord()[0] == (37u32, true),
        chord()[1] == (38u32, true),
        chord()[2] == (38u32, false),
{
    let one = seq![(CTRL_KEYCODE, true)];
    let two = one.push((A_KEYCODE, true));
    let three = two.push((A_KEYCODE, false));
    assert(one.drop_last() == Seq::<(u32, bool)>::empty());
    assert(two.drop_last() == one);
    assert(three.drop_last() == two);
    assert(chord().drop_last() == three);
    let none = Set::<u32>::empty();
    assert(held_after(none, Seq::empty()) == Some(none));
    assert(held_after(none, one) == Some(none.insert(CTRL_KEYCODE)));
    assert(held_after(none, two) == Some(none.insert(CTRL_KEYCODE).insert(A_KEYCODE)));
    assert(none.insert(CTRL_KEYCODE).insert(A_KEYCODE).remove(A_KEYCODE) == none.insert(
        CTRL_KEYCODE,
    ));
    assert(held_after(none, three) == Some(none.insert(CTRL_KEYCODE)));
    assert(none.insert(CTRL_KEYCODE).remove(CTRL_KEYCODE) == none);
    assert(chord().take(2) == two);
    assert(none.insert(CTRL_KEYCODE).insert(A_KEYCODE) == set![37u32, 38u32]);
}

/// What to send to type a string: first the chord under the seat's own keymap, then,
/// under the generated one, the strokes.
#[derive(Debug, PartialEq, Eq)]
pub struct Plan {
    /// What goes out before the generated keymap is loaded.
    pub chord: Vec<(u32, bool)>,
    /// The keymap to load.
    pub keymap: String,
    /// What goes out under it.
    pub strokes: Vec<(u32, bool)>,
    /// How many keys that are.
    pub keys: usize,
}

/// Why a string is not typed.
pub open spec fn refusal(text: Seq<char>, has_keyboard: bool) -> Option<Seq<char>> {
    if text.len() == 0 {
        None
    } else if text.len() > MAX_TEXT {
        Some(decimal(text.len()) + " characters is more than this will type at once"@)
    } else if !has_keyboard {
        Some("the seat has no keyboard"@)
    } else if distinct(text).len() > usable().len() {
        Some("the string needs too many distinct characters"@)
    } else {
        None
    }
}

/// A string is typed where it has at most 4096 characters, there is a keyboard, and there are
/// keys for its distinct characters; and where it is refused the answer says which of these
/// fails, in that order.
pub proof fn law_what_can_be_typed_is_typed(text: Seq<char>, has_keyboard: bool)
    ensures
        refusal(text, has_keyboard) is None <==> text.len() == 0 || (text.len() <= 4096
            && has_keyboard && text.to_set().len() <= usable().len()),
        text.len() > 4096 ==> refusal(text, has_keyboard) == Some(
            decimal(text.len()) + " characters is more than this will type at once"@,
        ),
        0 < text.len() <= 4096 && !has_keyboard ==> refusal(text, has_keyboard) == Some(
            "the seat has no keyboard"@,
        ),
        0 < text.len() <= 4096 && has_keyboard && text.to_set().len() > usable().len()
            ==> refusal(text, has_keyboard) == Some(
            "the string needs too many distinct characters"@,
        ),
{
    law_each_character_gets_one_key(text, 0, 0);
}

/// Work out what to send to type a string. `None` means there is nothing to type.
///
/// `select_all` sends ctrl+a first, which is what a caller replacing a field's
/// contents wants: the field usually already holds something (a prefilled address,
/// the last search, the typo being corrected) and typing would append to it. It
/// goes out under the seat's own keymap, before the generated one is loaded, since
/// the generated keymap has no control key at all.
pub fn plan(string: &str, select_all: bool, has_keyboard: bool) -> (r: Result<
    Option<Plan>,
    String,
>)
    ensures
        match r {
            Ok(Some(plan)) => {
                &&& refusal(string@, has_keyboard) is None
                &&& string@.len() > 0
                &&& plan.chord@ == if select_all {
                    chord()
                } else {
                    Seq::empty()
                }
                &&& plan.keymap@ == keymap_of(distinct(string@))
                &&& plan.strokes@ == strokes_of(keys_of(string@))
                &&& plan.keys == string@.len()
                &&& plan.strokes@.len() == 2 * string@.len()
                &&& forall|i: int|
                    #![trigger string@[i]]
                    0 <= i < string@.len() ==> {
                        &&& carries(plan.keymap@, plan.strokes@[2 * i].0, string@[i])
                        &&& plan.strokes@[2 * i].1 && !plan.strokes@[2 * i + 1].1
                        &&& plan.strokes@[2 * i].0 == plan.strokes@[2 * i + 1].0
                    }
            },
            Ok(None) => string@.len() == 0,
            Err(why) => refusal(string@, has_keyboard) == Some(why@),
        },
{
    if string.is_empty() {
        return Ok(None);
    }
    let characters: usize = text::chars_of(string).len();
    if characters > MAX_TEXT {
        let mut why = String::new();
        text::push_decimal(&mut why, characters as u64);
        why.append(" characters is more than this will type at once");
        return Err(why);
    }
    if !has_keyboard {
        return Err("the seat has no keyboard".to_owned());
    }
    match keymap_for(string) {
        Some((keymap, keys)) => {
            let chord = if select_all {
                select_all_chord()
            } else {
                Vec::new()
            };
            let strokes = strokes_for(keys.as_slice());
            proof {
                assert forall|i: int|
                    #![trigger string@[i]]
                    0 <= i < string@.len() implies {
                    &&& carries(keymap@, strokes@[2 * i].0, string@[i])
                    &&& strokes@[2 * i].1 && !strokes@[2 * i + 1].1
                    &&& strokes@[2 * i].0 == strokes@[2 * i + 1].0
                } by {
                    law_the_keymap_carries_the_string(string@, i);
                    assert(strokes@[2 * i] == (keys@[i], true));
                }
            }
            Ok(Some(Plan { chord, keymap, strokes, keys: keys.len() }))
        },
        None => Err("the string needs too many distinct characters".to_owned()),
    }
}

/// A keymap to put back after typing.
#[derive(Debug, Clone, Copy, PartialEq, Eq, Structural)]
pub enum Layout {
    /// The seat's usual one.
    Usual,
    /// The same again.
    UsualAgain,
    /// The barest one that can exist: a plain us layout.
    PlainUs,
}

/// Which keymap to try next, where the one tried before could not be put back. `None`
/// means that the seat is left on the generated one.
///
/// Restoring matters more than typing did. The generated keymap has nothing on any key
/// that is not in the string, so a seat left on it is a remote that does nothing at all -
/// and putting the usual one back can fail for reasons that have nothing to do with us.
pub fn restore_next(failed: Option<Layout>) -> (r: Option<Layout>)
    ensures
        r == (match failed {
            None => Some(Layout::Usual),
            Some(Layout::Usual) => Some(Layout::UsualAgain),
            Some(Layout::UsualAgain) => Some(Layout::PlainUs),
            Some(Layout::PlainUs) => None,
        }),
{
    match failed {
        None => Some(Layout::Usual),
        Some(Layout::Usual) => Some(Layout::UsualAgain),
        Some(Layout::UsualAgain) => Some(Layout::PlainUs),
        Some(Layout::PlainUs) => None,
    }
}

/// Restoring goes on from the usual layout to the same again and then to a plain one, and gives
/// up only when all of them have failed.
pub proof fn law_every_layout_is_tried_in_turn(
    first: Option<Layout>,
    second: Option<Layout>,
    third: Option<Layout>,
    last: Option<Layout>,
)
    requires
        call_ensures(restore_next, (None::<Layout>,), first),
        call_ensures(restore_next, (first,), second),
        call_ensures(restore_next, (second,), third),
        call_ensures(restore_next, (third,), last),
    ensures
        first == Some(Layout::Usual),
        second == Some(Layout::UsualAgain),
        third == Some(Layout::PlainUs),
        last is None,
{
}

/// A keymap opens with the range of keycodes that it may name, has the types and the levels of
/// every keymap between its names and its symbols, and is closed behind them.
pub proof fn law_a_keymap_is_whole(characters: Seq<char>)
    ensures
        "xkb_keymap {\nxkb_keycodes { minimum = 8; maximum = 255;\n"@.is_prefix_of(
            keymap_of(characters),
        ),
        holds(
            keymap_of(characters),
            "};\nxkb_types { include \"complete\" };\nxkb_compat { include \"complete\" };\nxkb_symbols \"typing\" {\n"@,
        ),
        keymap_of(characters).skip(keymap_of(characters).len() - "};\n};\n"@.len())
            == "};\n};\n"@,
{
    let head = "xkb_keymap {\nxkb_keycodes { minimum = 8; maximum = 255;\n"@;
    let middle =
        "};\nxkb_types { include \"complete\" };\nxkb_compat { include \"complete\" };\nxkb_symbols \"typing\" {\n"@;
    let tail = "};\n};\n"@;
    let keymap = keymap_of(characters);
    let front = head + code_lines(characters.len());
    let back = symbol_lines(characters) + tail;
    assert(keymap =~= front + middle + back);
    lemma_holds(front, middle, back);
    assert(keymap.take(head.len() as int) =~= head);
    assert(keymap.skip(keymap.len() - tail.len()) =~= tail);
}

}
