//! Characters and numbers in strings.
//!
//! Settings arrive as text (key codes, thresholds) and replies and keymaps leave as
//! text. The meaning of each is stated here over sequences of characters.

use vstd::prelude::*;

verus! {

/// The Unicode `White_Space` property.
pub open spec fn is_space(c: char) -> bool {
    ||| '\u{0009}' <= c <= '\u{000D}'
    ||| c == '\u{0020}'
    ||| c == '\u{0085}'
    ||| c == '\u{00A0}'
    ||| c == '\u{1680}'
    ||| '\u{2000}' <= c <= '\u{200A}'
    ||| c == '\u{2028}'
    ||| c == '\u{2029}'
    ||| c == '\u{202F}'
    ||| c == '\u{205F}'
    ||| c == '\u{3000}'
}

/// A string without the white space in front of it.
pub open spec fn trim_start(s: Seq<char>) -> Seq<char>
    decreases s.len(),
{
    if s.len() > 0 && is_space(s[0]) {
        trim_start(s.drop_first())
    } else {
        s
    }
}

/// A string without the white space behind it.
pub open spec fn trim_end(s: Seq<char>) -> Seq<char>
    decreases s.len(),
{
    if s.len() > 0 && is_space(s.last()) {
        trim_end(s.drop_last())
    } else {
        s
    }
}

/// A string without the white space around it.
pub open spec fn trimmed(s: Seq<char>) -> Seq<char> {
    trim_end(trim_start(s))
}

/// The pieces between the commas of a string: one more than it has commas.
pub open spec fn split_commas(s: Seq<char>) -> Seq<Seq<char>>
    decreases s.len(),
{
    if s.len() == 0 {
        seq![Seq::empty()]
    } else if s.last() == ',' {
        split_commas(s.drop_last()).push(Seq::empty())
    } else {
        let pieces = split_commas(s.drop_last());
        pieces.drop_last().push(pieces.last().push(s.last()))
    }
}

/// The value of a decimal digit.
pub open spec fn digit_value(c: char) -> Option<nat> {
    if '0' <= c <= '9' {
        Some((c as u32 - '0' as u32) as nat)
    } else {
        None
    }
}

/// The number that a run of decimal digits writes.
pub open spec fn digits_value(s: Seq<char>) -> Option<nat>
    decreases s.len(),
{
    if s.len() == 0 {
        Some(0)
    } else {
        match (digits_value(s.drop_last()), digit_value(s.last())) {
            (Some(front), Some(digit)) => Some(front * 10 + digit),
            _ => None,
        }
    }
}

/// The digits of a number that may have a plus sign in front.
pub open spec fn unsigned_digits(s: Seq<char>) -> Seq<char> {
    if s.len() > 0 && s[0] == '+' {
        s.drop_first()
    } else {
        s
    }
}

/// The unsigned number that a string writes, when there is one and it is at most
/// `max`.
pub open spec fn unsigned_value(s: Seq<char>, max: nat) -> Option<nat> {
    let digits = unsigned_digits(s);
    if digits.len() == 0 {
        None
    } else {
        match digits_value(digits) {
            Some(value) if value <= max => Some(value),
            _ => None,
        }
    }
}

/// The numbers in a comma-separated list, in order. A piece that is not a number,
/// or is one above `max`, is left out.
pub open spec fn listed_numbers(pieces: Seq<Seq<char>>, max: nat) -> Seq<nat>
    decreases pieces.len(),
{
    if pieces.len() == 0 {
        Seq::empty()
    } else {
        let front = listed_numbers(pieces.drop_last(), max);
        match unsigned_value(trimmed(pieces.last()), max) {
            Some(value) => front.push(value),
            None => front,
        }
    }
}

/// One hexadecimal digit, in upper case.
pub open spec fn hex_digit(n: nat) -> char
    recommends
        n < 16,
{
    if n < 10 {
        ('0' as u32 + n) as char
    } else {
        ('A' as u32 + (n - 10)) as char
    }
}

/// A number in decimal, without leading zeros.
pub open spec fn decimal(n: nat) -> Seq<char>
    decreases n,
{
    if n < 10 {
        seq![hex_digit(n)]
    } else {
        decimal(n / 10).push(hex_digit(n % 10))
    }
}

/// A number in upper case hexadecimal, with leading zeros up to `width` digits.
pub open spec fn hexadecimal(n: nat, width: nat) -> Seq<char>
    decreases n, width,
{
    if n < 16 && width <= 1 {
        seq![hex_digit(n)]
    } else {
        hexadecimal(n / 16, (if width > 0 { width - 1 } else { 0 }) as nat).push(hex_digit(n % 16))
    }
}

/// An integer in decimal, with a minus sign when it is negative.
pub open spec fn signed_decimal(n: int) -> Seq<char> {
    if n < 0 {
        seq!['-'] + decimal((-n) as nat)
    } else {
        decimal(n as nat)
    }
}

/// The characters of a string that may not be there.
pub open spec fn borrowed(s: Option<&str>) -> Option<Seq<char>> {
    match s {
        Some(s) => Some(s@),
        None => None,
    }
}

/// The characters of an owned string that may not be there.
pub open spec fn owned(s: Option<String>) -> Option<Seq<char>> {
    match s {
        Some(s) => Some(s@),
        None => None,
    }
}

/// Borrow a string that may not be there.
pub fn as_text(s: &Option<String>) -> (r: Option<&str>)
    ensures
        borrowed(r) == owned(*s),
{
    match s {
        Some(s) => Some(s.as_str()),
        None => None,
    }
}

/// The characters of a string.
pub fn chars_of(s: &str) -> (r: Vec<char>)
    ensures
        r@ == s@,
{
    let mut chars: Vec<char> = Vec::new();
    for c in it: s.chars()
        invariant
            chars@ == it.seq().take(it.index()),
            it.seq() == s@,
    {
        chars.push(c);
    }
    chars
}

/// Whether two strings hold the same characters.
pub fn same(a: &str, b: &str) -> (r: bool)
    ensures
        r == (a@ == b@),
{
    a.to_owned() == b.to_owned()
}

/// Whether a string is there and holds exactly these characters.
pub fn is_text(a: Option<&str>, b: &str) -> (r: bool)
    ensures
        r == (a matches Some(a) && a@ == b@),
{
    match a {
        Some(a) => same(a, b),
        None => false,
    }
}

/// One hexadecimal digit as text.
fn hex_text(n: u8) -> (r: &'static str)
    requires
        n < 16,
    ensures
        r@ == seq![hex_digit(n as nat)],
{
    match n {
        0 => {
            proof { reveal_strlit("0"); }
            "0"
        },
        1 => {
            proof { reveal_strlit("1"); }
            "1"
        },
        2 => {
            proof { reveal_strlit("2"); }
            "2"
        },
        3 => {
            proof { reveal_strlit("3"); }
            "3"
        },
        4 => {
            proof { reveal_strlit("4"); }
            "4"
        },
        5 => {
            proof { reveal_strlit("5"); }
            "5"
        },
        6 => {
            proof { reveal_strlit("6"); }
            "6"
        },
        7 => {
            proof { reveal_strlit("7"); }
            "7"
        },
        8 => {
            proof { reveal_strlit("8"); }
            "8"
        },
        9 => {
            proof { reveal_strlit("9"); }
            "9"
        },
        10 => {
            proof { reveal_strlit("A"); }
            "A"
        },
        11 => {
            proof { reveal_strlit("B"); }
            "B"
        },
        12 => {
            proof { reveal_strlit("C"); }
            "C"
        },
        13 => {
            proof { reveal_strlit("D"); }
            "D"
        },
        14 => {
            proof { reveal_strlit("E"); }
            "E"
        },
        _ => {
            proof { reveal_strlit("F"); }
            "F"
        },
    }
}

/// Write a number in decimal behind a string.
pub fn push_decimal(out: &mut String, n: u64)
    ensures
        final(out)@ == old(out)@ + decimal(n as nat),
    decreases n,
{
    if n >= 10 {
        push_decimal(out, n / 10);
    }
    out.append(hex_text((n % 10) as u8));
}

/// Write an integer in decimal behind a string.
pub fn push_signed(out: &mut String, n: i64)
    ensures
        final(out)@ == old(out)@ + signed_decimal(n as int),
{
    if n < 0 {
        proof { reveal_strlit("-"); }
        out.append("-");
        let magnitude: u64 = if n == i64::MIN { 0x8000_0000_0000_0000 } else { (-n) as u64 };
        push_decimal(out, magnitude);
    } else {
        push_decimal(out, n as u64);
    }
}

/// Write a number in hexadecimal, with at least `width` digits, behind a string.
pub fn push_hexadecimal(out: &mut String, n: u32, width: u8)
    ensures
        final(out)@ == old(out)@ + hexadecimal(n as nat, width as nat),
    decreases n, width,
{
    if !(n < 16 && width <= 1) {
        push_hexadecimal(out, n / 16, if width > 0 { width - 1 } else { 0 });
    }
    out.append(hex_text((n % 16) as u8));
}

/// Whether a character is white space.
fn is_white(c: char) -> (r: bool)
    ensures
        r == is_space(c),
{
    ('\u{0009}' <= c && c <= '\u{000D}') || c == '\u{0020}' || c == '\u{0085}' || c == '\u{00A0}' || c
        == '\u{1680}' || ('\u{2000}' <= c && c <= '\u{200A}') || c == '\u{2028}' || c == '\u{2029}' || c
        == '\u{202F}' || c == '\u{205F}' || c == '\u{3000}'
}

/// The part of a string between the white space around it.
pub fn trim(chars: &[char]) -> (r: &[char])
    ensures
        r@ == trimmed(chars@),
{
    let len: usize = chars.len();
    let mut start: usize = 0;
    assert(chars@.subrange(0, len as int) == chars@);
    while start < len && is_white(chars[start])
        invariant
            start <= len,
            len == chars@.len(),
            trim_start(chars@) == trim_start(chars@.subrange(start as int, len as int)),
        decreases len - start,
    {
        assert(chars@.subrange(start as int, len as int).drop_first() == chars@.subrange(
            start + 1,
            len as int,
        ));
        start += 1;
    }
    let ghost front = chars@.subrange(start as int, len as int);
    assert(trim_start(chars@) == front);
    let mut end: usize = len;
    while end > start && is_white(chars[end - 1])
        invariant
            start <= end <= len,
            len == chars@.len(),
            front == chars@.subrange(start as int, len as int),
            trim_end(front) == trim_end(chars@.subrange(start as int, end as int)),
        decreases end - start,
    {
        assert(chars@.subrange(start as int, end as int).drop_last() == chars@.subrange(
            start as int,
            end - 1,
        ));
        end -= 1;
    }
    vstd::slice::slice_subrange(chars, start, end)
}

/// A longer run of digits writes no smaller number, and a run that holds anything
/// else writes none however it goes on.
proof fn lemma_digits_grow(s: Seq<char>, i: int)
    requires
        0 <= i <= s.len(),
        digits_value(s) is Some,
    ensures
        digits_value(s.take(i)) is Some,
        digits_value(s.take(i))->0 <= digits_value(s)->0,
    decreases s.len(),
{
    if i == s.len() {
        assert(s.take(i) == s);
    } else {
        lemma_digits_grow(s.drop_last(), i);
        assert(s.drop_last().take(i) == s.take(i));
    }
}

/// Read an unsigned number of at most `max`.
pub fn parse_unsigned(chars: &[char], max: u64) -> (r: Option<u64>)
    ensures
        match r {
            Some(value) => unsigned_value(chars@, max as nat) == Some(value as nat),
            None => unsigned_value(chars@, max as nat) is None,
        },
{
    let len: usize = chars.len();
    let start: usize = if len > 0 && chars[0] == '+' { 1 } else { 0 };
    let ghost digits = unsigned_digits(chars@);
    assert(digits == chars@.subrange(start as int, len as int));
    if start == len {
        return None;
    }
    let mut at: usize = start;
    let mut value: u64 = 0;
    assert(digits.take(0) == Seq::<char>::empty());
    while at < len
        invariant
            start <= at <= len,
            len == chars@.len(),
            start <= 1,
            start < len,
            digits == unsigned_digits(chars@),
            digits == chars@.subrange(start as int, len as int),
            digits_value(digits.take(at - start)) == Some(value as nat),
            value <= max,
        decreases len - at,
    {
        let c: char = chars[at];
        assert(digits.take(at + 1 - start).drop_last() == digits.take(at - start));
        assert(digits.take(at + 1 - start).last() == c);
        if !('0' <= c && c <= '9') {
            proof {
                if digits_value(digits) is Some {
                    lemma_digits_grow(digits, at + 1 - start);
                }
            }
            return None;
        }
        let digit: u64 = (c as u32 - '0' as u32) as u64;
        assert(digits_value(digits.take(at + 1 - start)) == Some((value * 10 + digit) as nat));
        if digit > max || value > (max - digit) / 10 {
            proof {
                if digits_value(digits) is Some {
                    lemma_digits_grow(digits, at + 1 - start);
                }
            }
            return None;
        }
        value = value * 10 + digit;
        at += 1;
    }
    assert(digits.take(len - start) == digits);
    Some(value)
}

/// The pieces between the commas of a string.
fn split(chars: &[char]) -> (r: Vec<Vec<char>>)
    ensures
        r@.len() == split_commas(chars@).len(),
        forall|i: int| 0 <= i < r@.len() ==> (#[trigger] r@[i])@ == split_commas(chars@)[i],
{
    let mut done: Vec<Vec<char>> = Vec::new();
    let mut piece: Vec<char> = Vec::new();
    let mut at: usize = 0;
    assert(chars@.take(0) == Seq::<char>::empty());
    while at < chars.len()
        invariant
            at <= chars@.len(),
            split_commas(chars@.take(at as int)).len() == done@.len() + 1,
            forall|i: int|
                0 <= i < done@.len() ==> (#[trigger] done@[i])@ == split_commas(
                    chars@.take(at as int),
                )[i],
            piece@ == split_commas(chars@.take(at as int)).last(),
        decreases chars@.len() - at,
    {
        let ghost before = split_commas(chars@.take(at as int));
        assert(chars@.take(at + 1).drop_last() == chars@.take(at as int));
        assert(chars@.take(at + 1).last() == chars@[at as int]);
        if chars[at] == ',' {
            done.push(piece);
            piece = Vec::new();
            assert(split_commas(chars@.take(at + 1)) == before.push(Seq::empty()));
        } else {
            piece.push(chars[at]);
            assert(split_commas(chars@.take(at + 1)) == before.drop_last().push(piece@));
        }
        at += 1;
    }
    assert(chars@.take(chars@.len() as int) == chars@);
    done.push(piece);
    done
}

/// No number read from a list is larger than allowed.
pub proof fn lemma_listed_numbers_fit(pieces: Seq<Seq<char>>, max: nat)
    ensures
        forall|i: int|
            0 <= i < listed_numbers(pieces, max).len() ==> #[trigger] listed_numbers(pieces, max)[i]
                <= max,
    decreases pieces.len(),
{
    if pieces.len() > 0 {
        lemma_listed_numbers_fit(pieces.drop_last(), max);
        let front = listed_numbers(pieces.drop_last(), max);
        let all = listed_numbers(pieces, max);
        assert forall|i: int| 0 <= i < all.len() implies #[trigger] all[i] <= max by {
            if i < front.len() {
                assert(all[i] == front[i]);
            }
        }
    }
}

/// Read a comma-separated list of numbers of at most `max`, leaving out the pieces
/// that are not one.
pub fn parse_list(s: &str, max: u64) -> (r: Vec<u64>)
    ensures
        r@.map_values(|n: u64| n as nat) == listed_numbers(split_commas(s@), max as nat),
{
    let chars: Vec<char> = chars_of(s);
    let pieces: Vec<Vec<char>> = split(chars.as_slice());
    let ghost all = split_commas(s@);
    let mut numbers: Vec<u64> = Vec::new();
    let mut at: usize = 0;
    assert(all.take(0) == Seq::<Seq<char>>::empty());
    while at < pieces.len()
        invariant
            at <= pieces@.len(),
            pieces@.len() == all.len(),
            forall|i: int| 0 <= i < pieces@.len() ==> (#[trigger] pieces@[i])@ == all[i],
            numbers@.map_values(|n: u64| n as nat) == listed_numbers(
                all.take(at as int),
                max as nat,
            ),
        decreases pieces@.len() - at,
    {
        assert(all.take(at + 1).drop_last() == all.take(at as int));
        assert(all.take(at + 1).last() == pieces@[at as int]@);
        let ghost before = numbers@;
        match parse_unsigned(trim(pieces[at].as_slice()), max) {
            Some(value) => {
                numbers.push(value);
                assert(numbers@.map_values(|n: u64| n as nat) == before.map_values(
                    |n: u64| n as nat,
                ).push(value as nat));
            },
            None => {},
        }
        at += 1;
    }
    assert(all.take(all.len() as int) == all);
    numbers
}

/// The value of a hexadecimal digit, in upper case.
pub open spec fn hex_value(c: char) -> Option<nat> {
    if '0' <= c <= '9' {
        Some((c as u32 - '0' as u32) as nat)
    } else if 'A' <= c <= 'F' {
        Some((c as u32 - 'A' as u32 + 10) as nat)
    } else {
        None
    }
}

/// The number that a run of hexadecimal digits writes.
pub open spec fn hexadecimal_value(s: Seq<char>) -> Option<nat>
    decreases s.len(),
{
    if s.len() == 0 {
        Some(0)
    } else {
        match (hexadecimal_value(s.drop_last()), hex_value(s.last())) {
            (Some(front), Some(digit)) => Some(front * 16 + digit),
            _ => None,
        }
    }
}

proof fn lemma_hex_digit(n: nat)
    requires
        n < 16,
    ensures
        hex_value(hex_digit(n)) == Some(n),
        n < 10 ==> digit_value(hex_digit(n)) == Some(n),
        hex_digit(n) != '+',
        hex_digit(n) != ',',
        !is_space(hex_digit(n)),
{
}

/// A number that is written in decimal reads back as itself, and starts with a zero only
/// where it is one.
pub proof fn law_decimal_reads_back(n: nat)
    ensures
        digits_value(decimal(n)) == Some(n),
        decimal(n).len() > 0,
        decimal(n)[0] == '0' ==> n == 0 && decimal(n).len() == 1,
        forall|i: int|
            0 <= i < decimal(n).len() ==> {
                &&& digit_value(#[trigger] decimal(n)[i]) is Some
                &&& decimal(n)[i] != '+'
                &&& decimal(n)[i] != ','
                &&& !is_space(decimal(n)[i])
            },
    decreases n,
{
    lemma_hex_digit(n % 10);
    reveal_with_fuel(digits_value, 2);
    if n < 10 {
        assert(decimal(n).drop_last() == Seq::<char>::empty());
        assert(decimal(n).last() == hex_digit(n));
    } else {
        law_decimal_reads_back(n / 10);
        assert(decimal(n).drop_last() == decimal(n / 10));
        assert(decimal(n)[0] == decimal(n / 10)[0]);
        assert forall|i: int| 0 <= i < decimal(n).len() implies {
            &&& digit_value(#[trigger] decimal(n)[i]) is Some
            &&& decimal(n)[i] != '+'
            &&& decimal(n)[i] != ','
            &&& !is_space(decimal(n)[i])
        } by {
            if i < decimal(n / 10).len() {
                assert(decimal(n)[i] == decimal(n / 10)[i]);
            }
        }
    }
}

/// A number that is written in hexadecimal reads back as itself and has the digits that
/// were asked for.
pub proof fn law_hexadecimal_reads_back(n: nat, width: nat)
    ensures
        hexadecimal_value(hexadecimal(n, width)) == Some(n),
        hexadecimal(n, width).len() >= width,
        hexadecimal(n, width).len() > 0,
        hexadecimal(n, width).len() > width && hexadecimal(n, width).len() > 1
            ==> hexadecimal(n, width)[0] != '0',
    decreases n, width,
{
    lemma_hex_digit(n % 16);
    reveal_with_fuel(hexadecimal_value, 2);
    if n < 16 && width <= 1 {
        assert(hexadecimal(n, width).drop_last() == Seq::<char>::empty());
        assert(hexadecimal(n, width).last() == hex_digit(n));
    } else {
        let less = (if width > 0 { width - 1 } else { 0 }) as nat;
        let front = hexadecimal(n / 16, less);
        law_hexadecimal_reads_back(n / 16, less);
        assert(hexadecimal(n, width).drop_last() == front);
        assert(hexadecimal(n, width)[0] == front[0]);
        if front.len() == 1 && less <= 1 {
            if n / 16 < 16 {
                lemma_hex_digit(n / 16);
            }
        }
    }
}

/// An integer that is written reads back as itself: behind a minus sign where it is
/// negative, and without a sign where it is not.
pub proof fn law_an_integer_reads_back(n: int)
    ensures
        n >= 0 ==> digits_value(signed_decimal(n)) == Some(n as nat),
        n < 0 ==> {
            &&& signed_decimal(n)[0] == '-'
            &&& digits_value(signed_decimal(n).drop_first()) == Some((-n) as nat)
        },
{
    if n < 0 {
        law_decimal_reads_back((-n) as nat);
        assert(signed_decimal(n).drop_first() == decimal((-n) as nat));
    } else {
        law_decimal_reads_back(n as nat);
    }
}

/// White space around a string is taken off, and nothing else is.
pub proof fn law_only_white_space_is_trimmed(front: Seq<char>, core: Seq<char>, back: Seq<char>)
    requires
        forall|i: int| 0 <= i < front.len() ==> is_space(#[trigger] front[i]),
        forall|i: int| 0 <= i < back.len() ==> is_space(#[trigger] back[i]),
        core.len() > 0 ==> !is_space(core[0]) && !is_space(core.last()),
    ensures
        trimmed(front + core + back) == core,
    decreases front.len() + back.len(),
{
    let all = front + core + back;
    if front.len() > 0 {
        assert(all[0] == front[0]);
        let less = front.drop_first();
        assert(all.drop_first() == less + core + back);
        assert forall|i: int| 0 <= i < less.len() implies is_space(#[trigger] less[i]) by {
            assert(less[i] == front[i + 1]);
        }
        law_only_white_space_is_trimmed(less, core, back);
    } else if core.len() == 0 {
        assert(all == back);
        if back.len() > 0 {
            assert(is_space(back[0]));
            let less = back.drop_first();
            assert forall|i: int| 0 <= i < less.len() implies is_space(#[trigger] less[i]) by {
                assert(less[i] == back[i + 1]);
            }
            assert(less == front + core + less);
            law_only_white_space_is_trimmed(front, core, less);
        } else {
            assert(all == core);
        }
    } else {
        assert(all[0] == core[0]);
        assert(trim_start(all) == all);
        if back.len() > 0 {
            let less = back.drop_last();
            assert(all.last() == back[back.len() - 1]);
            assert(all.drop_last() == front + core + less);
            assert forall|i: int| 0 <= i < less.len() implies is_space(#[trigger] less[i]) by {
                assert(less[i] == back[i]);
            }
            law_only_white_space_is_trimmed(front, core, less);
            assert((front + core + less)[0] == core[0]);
        } else {
            assert(all == core);
            assert(all.last() == core.last());
        }
    }
}

/// A string with something other than white space in it is not trimmed to nothing.
pub proof fn lemma_trimmed_keeps(s: Seq<char>, i: int)
    requires
        0 <= i < s.len(),
        !is_space(s[i]),
    ensures
        trimmed(s).len() > 0,
    decreases s.len(),
{
    if is_space(s[0]) {
        assert(s.drop_first()[i - 1] == s[i]);
        lemma_trimmed_keeps(s.drop_first(), i - 1);
    } else {
        lemma_trim_end_keeps(s, i);
    }
}

proof fn lemma_trim_end_keeps(s: Seq<char>, i: int)
    requires
        0 <= i < s.len(),
        !is_space(s[i]),
    ensures
        trim_end(s).len() > 0,
    decreases s.len(),
{
    if is_space(s.last()) {
        assert(s.drop_last()[i] == s[i]);
        lemma_trim_end_keeps(s.drop_last(), i);
    }
}

/// Of the ASCII characters the blank and the five control characters that move the cursor
/// are white space, and no others.
pub proof fn law_ascii_white_space(c: char)
    requires
        c as u32 <= 127,
    ensures
        is_space(c) <==> c == ' ' || c == '\t' || c == '\n' || c == '\r' || c as u32 == 11 || c as u32
            == 12,
{
}

/// Pieces with a comma between each two.
pub open spec fn comma_joined(pieces: Seq<Seq<char>>) -> Seq<char>
    decreases pieces.len(),
{
    if pieces.len() == 0 {
        Seq::empty()
    } else if pieces.len() == 1 {
        pieces[0]
    } else {
        comma_joined(pieces.drop_last()) + seq![','] + pieces.last()
    }
}

proof fn lemma_split_goes_on(s: Seq<char>, more: Seq<char>)
    requires
        !more.contains(','),
    ensures
        split_commas(s).len() > 0,
        split_commas(s + more) == split_commas(s).drop_last().push(split_commas(s).last() + more),
        split_commas((s + seq![',']) + more) == split_commas(s).push(more),
    decreases s.len() + more.len(),
{
    if more.len() == 0 {
        assert(s + more == s);
        assert(more == Seq::<char>::empty());
        if s.len() > 0 {
            assert(!Seq::<char>::empty().contains(','));
            lemma_split_goes_on(s.drop_last(), Seq::empty());
        }
        assert((s + seq![',']) + more == s.push(','));
        assert(s.push(',').drop_last() == s);
        assert(split_commas(s).last() + more == split_commas(s).last());
        assert(split_commas(s) == split_commas(s).drop_last().push(split_commas(s).last()));
    } else {
        let less = more.drop_last();
        assert(more.last() != ',') by {
            assert(more[more.len() - 1] == more.last());
        }
        assert forall|c: char| less.contains(c) implies more.contains(c) by {
            let i = less.index_of(c);
            assert(more[i] == c);
        }
        lemma_split_goes_on(s, less);
        assert((s + more).drop_last() == s + less);
        assert((s + more).last() == more.last());
        let t = (s + seq![',']) + more;
        assert(t.drop_last() == (s + seq![',']) + less);
        assert(t.last() == more.last());
        assert(less.push(more.last()) == more);
        assert(split_commas(s).push(less).drop_last() == split_commas(s));
        assert(split_commas(s).push(less).last() == less);
        assert((split_commas(s).last() + less).push(more.last()) == split_commas(s).last() + more);
    }
}

/// A list is split where its commas are: the pieces that were put together with commas come
/// out again.
pub proof fn law_a_list_is_split_at_its_commas(pieces: Seq<Seq<char>>)
    requires
        pieces.len() > 0,
        forall|i: int| 0 <= i < pieces.len() ==> !(#[trigger] pieces[i]).contains(','),
    ensures
        split_commas(comma_joined(pieces)) == pieces,
    decreases pieces.len(),
{
    let last = pieces.len() - 1;
    assert(!pieces[last].contains(','));
    if pieces.len() == 1 {
        lemma_split_goes_on(Seq::empty(), pieces[0]);
        assert(Seq::<char>::empty() + pieces[0] == pieces[0]);
        assert(split_commas(Seq::<char>::empty()) == seq![Seq::<char>::empty()]);
        assert(split_commas(pieces[0]) == pieces);
    } else {
        let front = pieces.drop_last();
        assert forall|i: int| 0 <= i < front.len() implies !(#[trigger] front[i]).contains(',') by {
            assert(front[i] == pieces[i]);
        }
        law_a_list_is_split_at_its_commas(front);
        lemma_split_goes_on(comma_joined(front), pieces.last());
        assert(front.push(pieces.last()) == pieces);
    }
}

/// A number is read from its digits, with or without white space around them and a plus
/// sign in front, where it is no larger than allowed.
pub proof fn law_a_number_is_read(n: nat, max: nat, front: Seq<char>, plus: bool, back: Seq<char>)
    requires
        forall|i: int| 0 <= i < front.len() ==> is_space(#[trigger] front[i]),
        forall|i: int| 0 <= i < back.len() ==> is_space(#[trigger] back[i]),
    ensures
        ({
            let sign = if plus {
                seq!['+']
            } else {
                Seq::empty()
            };
            unsigned_value(trimmed(front + (sign + decimal(n)) + back), max) == if n <= max {
                Some(n)
            } else {
                None
            }
        }),
{
    let sign = if plus {
        seq!['+']
    } else {
        Seq::empty()
    };
    let core = sign + decimal(n);
    law_decimal_reads_back(n);
    assert(core.last() == decimal(n)[decimal(n).len() - 1]);
    if plus {
        assert(core[0] == '+');
    } else {
        assert(core == decimal(n));
    }
    law_only_white_space_is_trimmed(front, core, back);
    assert(unsigned_digits(core) == decimal(n));
}

/// Nothing but digits behind at most one plus sign is ever read as a number.
pub proof fn law_only_digits_make_a_number(s: Seq<char>, max: nat)
    ensures
        unsigned_value(s, max) matches Some(value) ==> {
            &&& value <= max
            &&& s.len() > 0
            &&& forall|i: int|
                0 <= i < s.len() ==> '0' <= #[trigger] s[i] <= '9' || (i == 0 && s[i] == '+'
                    && s.len() > 1)
        },
{
    if unsigned_value(s, max) is Some {
        let digits = unsigned_digits(s);
        lemma_digits_are_digits(digits);
        assert forall|i: int| 0 <= i < s.len() implies '0' <= #[trigger] s[i] <= '9' || (i == 0
            && s[i] == '+' && s.len() > 1) by {
            if s[0] == '+' {
                if i > 0 {
                    assert(digits[i - 1] == s[i]);
                }
            } else {
                assert(digits[i] == s[i]);
            }
        }
    }
}

proof fn lemma_digits_are_digits(s: Seq<char>)
    requires
        digits_value(s) is Some,
    ensures
        forall|i: int| 0 <= i < s.len() ==> '0' <= #[trigger] s[i] <= '9',
    decreases s.len(),
{
    if s.len() > 0 {
        lemma_digits_are_digits(s.drop_last());
        assert forall|i: int| 0 <= i < s.len() implies '0' <= #[trigger] s[i] <= '9' by {
            if i < s.len() - 1 {
                assert(s.drop_last()[i] == s[i]);
            }
        }
    }
}

/// The numbers of two lists put together are those of the one and then those of the other,
/// and a piece is worth its number or nothing.
pub proof fn law_each_piece_counts_for_itself(a: Seq<Seq<char>>, b: Seq<Seq<char>>, max: nat)
    ensures
        listed_numbers(a + b, max) == listed_numbers(a, max) + listed_numbers(b, max),
        a.len() == 1 ==> listed_numbers(a, max) == (match unsigned_value(trimmed(a[0]), max) {
            Some(value) => seq![value],
            None => Seq::empty(),
        }),
    decreases b.len(),
{
    if b.len() == 0 {
        assert(a + b == a);
        assert(listed_numbers(a, max) + listed_numbers(b, max) == listed_numbers(a, max));
    } else {
        law_each_piece_counts_for_itself(a, b.drop_last(), max);
        assert((a + b).drop_last() == a + b.drop_last());
        assert((a + b).last() == b.last());
        assert(listed_numbers(a + b, max) == listed_numbers(a, max) + listed_numbers(b, max));
    }
    if a.len() == 1 {
        assert(a.drop_last() == Seq::<Seq<char>>::empty());
        assert(listed_numbers(a.drop_last(), max) == Seq::<nat>::empty());
    }
}

/// Numbers that are written with commas between them read back as themselves, in order.
pub proof fn law_a_list_of_numbers_reads_back(numbers: Seq<nat>, max: nat)
    requires
        numbers.len() > 0,
        forall|i: int| 0 <= i < numbers.len() ==> #[trigger] numbers[i] <= max,
    ensures
        listed_numbers(
            split_commas(comma_joined(numbers.map_values(|n: nat| decimal(n)))),
            max,
        ) == numbers,
{
    let pieces = numbers.map_values(|n: nat| decimal(n));
    assert forall|i: int| 0 <= i < pieces.len() implies !(#[trigger] pieces[i]).contains(',') by {
        law_decimal_reads_back(numbers[i]);
    }
    law_a_list_is_split_at_its_commas(pieces);
    lemma_written_numbers_are_read(numbers, max);
}

proof fn lemma_written_numbers_are_read(numbers: Seq<nat>, max: nat)
    requires
        forall|i: int| 0 <= i < numbers.len() ==> #[trigger] numbers[i] <= max,
    ensures
        listed_numbers(numbers.map_values(|n: nat| decimal(n)), max) == numbers,
    decreases numbers.len(),
{
    let pieces = numbers.map_values(|n: nat| decimal(n));
    if numbers.len() > 0 {
        let front = numbers.drop_last();
        let n = numbers.last();
        assert forall|i: int| 0 <= i < front.len() implies #[trigger] front[i] <= max by {
            assert(front[i] == numbers[i]);
        }
        lemma_written_numbers_are_read(front, max);
        assert(pieces.drop_last() == front.map_values(|n: nat| decimal(n)));
        assert(numbers[numbers.len() - 1] == n);
        let none = Seq::<char>::empty();
        law_a_number_is_read(n, max, none, false, none);
        assert(none + (none + decimal(n)) + none == decimal(n));
        assert(front.push(n) == numbers);
    }
}

/// A path behind a directory ends in the path, starts with the directory, and has exactly
/// one slash of its own between the two where the directory does not end in one.
pub proof fn law_a_path_goes_behind_its_directory(dir: Seq<char>, path: Seq<char>)
    ensures
        dir.is_prefix_of(joined_path(dir, path)),
        path == joined_path(dir, path).skip(joined_path(dir, path).len() - path.len()),
        joined_path(dir, path).len() == dir.len() + path.len() + if dir.len() > 0 && dir.last()
            != '/' {
            1int
        } else {
            0int
        },
        dir.len() > 0 ==> joined_path(dir, path)[joined_path(dir, path).len() - path.len() - 1]
            == '/',
{
    reveal_strlit("/");
    let all = joined_path(dir, path);
    assert(all.take(dir.len() as int) == dir);
    assert(all.skip(all.len() - path.len()) == path);
}

/// The characters of each of some strings.
pub open spec fn texts(strings: Seq<String>) -> Seq<Seq<char>> {
    Seq::new(strings.len(), |i: int| strings[i]@)
}

/// A relative path behind a directory.
pub open spec fn joined_path(dir: Seq<char>, path: Seq<char>) -> Seq<char> {
    if dir.len() == 0 || dir.last() == '/' {
        dir + path
    } else {
        dir + "/"@ + path
    }
}

/// Put a relative path behind a directory.
pub fn join_path(dir: &str, path: &str) -> (r: String)
    ensures
        r@ == joined_path(dir@, path@),
{
    let chars: Vec<char> = chars_of(dir);
    let mut joined = dir.to_owned();
    if chars.len() > 0 && chars[chars.len() - 1] != '/' {
        joined.append("/");
    }
    joined.append(path);
    joined
}

/// A string that may not be there has its own characters where it is there, and strings have
/// theirs in order.
pub proof fn law_characters_are_their_own(string: Option<String>, strings: Seq<String>, i: int)
    ensures
        match string {
            Some(s) => owned(string) == Some(s@),
            None => owned(string) is None,
        },
        texts(strings).len() == strings.len(),
        0 <= i < strings.len() ==> texts(strings)[i] == strings[i]@,
{
}

}
