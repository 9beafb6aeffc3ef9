//! Strings as sequences of characters: building them, splitting them and
//! writing numbers into them.

use vstd::prelude::*;

verus! {

/// `String::push` appends one character.
pub assume_specification[ String::push ](s: &mut String, c: char)
    ensures
        final(s)@ == old(s)@.push(c),
;

/// `String::pop` removes the last character and returns it; an empty string
/// stays empty.
pub assume_specification[ String::pop ](s: &mut String) -> (c: Option<char>)
    ensures
        match c {
            Some(c) => old(s)@.len() > 0 && c == old(s)@.last() && final(s)@
                == old(s)@.drop_last(),
            None => old(s)@.len() == 0 && final(s)@ == old(s)@,
        },
;

/// `String::clear` leaves an empty string.
pub assume_specification[ String::clear ](s: &mut String)
    ensures
        final(s)@ == Seq::<char>::empty(),
;

/// The decimal digit for a value below ten.
pub open spec fn digit(d: int) -> char {
    (d + 48) as char
}

/// A number in decimal, without leading zeros.
pub open spec fn decimal(n: nat) -> Seq<char>
    decreases n,
{
    if n < 10 {
        seq![digit(n as int)]
    } else {
        decimal(n / 10).push(digit((n % 10) as int))
    }
}

/// A run of ASCII characters as bytes.
pub open spec fn ascii_bytes(chars: Seq<char>) -> Seq<u8> {
    Seq::new(chars.len(), |i: int| chars[i] as u8)
}

/// Appends a number in decimal to a string.
pub fn push_decimal(out: &mut String, n: u64)
    ensures
        final(out)@ == old(out)@ + decimal(n as nat),
    decreases n,
{
    if n >= 10 {
        push_decimal(out, n / 10);
    }
    let c: char = (48 + (n % 10) as u8) as char;
    out.push(c);
    assert(out@ =~= old(out)@ + decimal(n as nat));
}

/// Appends a number in decimal to a run of bytes.
pub fn push_decimal_bytes(out: &mut Vec<u8>, n: u64)
    ensures
        final(out)@ == old(out)@ + ascii_bytes(decimal(n as nat)),
    decreases n,
{
    if n >= 10 {
        push_decimal_bytes(out, n / 10);
    }
    out.push(48 + (n % 10) as u8);
    assert(out@ =~= old(out)@ + ascii_bytes(decimal(n as nat)));
}

/// The characters of a string.
pub fn chars_of(s: &str) -> (chars: Vec<char>)
    ensures
        chars@ == s@,
{
    let mut chars: Vec<char> = Vec::new();
    for c in it: s.chars()
        invariant
            it.seq() == s@,
            chars@ == s@.subrange(0, it.index() as int),
    {
        chars.push(c);
        assert(chars@ =~= s@.subrange(0, it.index() as int + 1));
    }
    assert(chars@ =~= s@);
    chars
}

/// A string out of its characters.
pub fn string_of(chars: &Vec<char>) -> (s: String)
    ensures
        s@ == chars@,
{
    let mut s = String::new();
    let mut i: usize = 0;
    while i < chars.len()
        invariant
            i <= chars@.len(),
            s@ == chars@.subrange(0, i as int),
        decreases chars@.len() - i,
    {
        s.push(chars[i]);
        i = i + 1;
        assert(s@ =~= chars@.subrange(0, i as int));
    }
    assert(s@ =~= chars@);
    s
}

/// Whether characters spell a name.
pub fn spells(chars: &Vec<char>, name: &str) -> (b: bool)
    ensures
        b == (chars@ == name@),
{
    let want: Vec<char> = chars_of(name);
    if chars.len() != want.len() {
        return false;
    }
    let mut i: usize = 0;
    while i < chars.len()
        invariant
            i <= chars@.len(),
            want@ == name@,
            chars@.len() == want@.len(),
            forall|k: int| 0 <= k < i ==> chars@[k] == #[trigger] want@[k],
        decreases chars@.len() - i,
    {
        let x: char = chars[i];
        let y: char = want[i];
        if x != y {
            assert(chars@[i as int] != want@[i as int]);
            return false;
        }
        i = i + 1;
    }
    assert(chars@ =~= want@);
    true
}

/// Decimal has at least one digit, and only digits.
pub proof fn decimal_is_digits(n: nat)
    ensures
        decimal(n).len() > 0,
        forall|i: int|
            0 <= i < decimal(n).len() ==> '0' <= #[trigger] decimal(n)[i] <= '9',
    decreases n,
{
    if n >= 10 {
        decimal_is_digits(n / 10);
    }
}

/// The number that a run of decimal digits stands for.
pub open spec fn decimal_value(digits: Seq<char>) -> nat
    decreases digits.len(),
{
    if digits.len() == 0 {
        0
    } else {
        10 * decimal_value(digits.drop_last()) + (digits.last() as int - 48) as nat
    }
}

/// Reading a written number gives the number back.
pub proof fn decimal_round_trips(n: nat)
    ensures
        decimal_value(decimal(n)) == n,
    decreases n,
{
    if n < 10 {
        assert(decimal(n).drop_last() =~= Seq::<char>::empty());
        assert(decimal_value(decimal(n).drop_last()) == 0);
    } else {
        decimal_round_trips(n / 10);
        assert(decimal(n).drop_last() =~= decimal(n / 10));
    }
}

/// Whether a character is white space.
pub uninterp spec fn white_space(c: char) -> bool;

/// The white space among the ASCII characters.
pub open spec fn ascii_white_space(c: char) -> bool {
    c == ' ' || '\u{9}' <= c <= '\u{d}'
}

/// `char::is_whitespace`, named by [`white_space`]. Of the ASCII characters
/// exactly the space and the controls from tab to carriage return are white
/// space.
#[verifier::external_body]
fn is_white_space(c: char) -> (b: bool)
    ensures
        b == white_space(c),
        c as u32 <= 127 ==> b == ascii_white_space(c),
{
    c.is_whitespace()
}

/// A text without the white space at its start.
pub open spec fn trimmed_start(text: Seq<char>) -> Seq<char>
    decreases text.len(),
{
    if text.len() > 0 && white_space(text[0]) {
        trimmed_start(text.drop_first())
    } else {
        text
    }
}

/// A text without the white space at its end.
pub open spec fn trimmed_end(text: Seq<char>) -> Seq<char>
    decreases text.len(),
{
    if text.len() > 0 && white_space(text.last()) {
        trimmed_end(text.drop_last())
    } else {
        text
    }
}

/// A text without the white space at its ends.
pub open spec fn trimmed(text: Seq<char>) -> Seq<char> {
    trimmed_end(trimmed_start(text))
}

/// Whether a text starts and ends with ASCII characters that are no white
/// space.
pub open spec fn bare(text: Seq<char>) -> bool {
    text.len() > 0 && text[0] as u32 <= 127 && !ascii_white_space(text[0]) && text.last() as u32
        <= 127 && !ascii_white_space(text.last())
}

/// The characters of a text without the white space at its ends.
pub fn trim(text: &str) -> (out: Vec<char>)
    ensures
        out@ == trimmed(text@),
        bare(text@) ==> out@ == text@,
{
    let chars: Vec<char> = chars_of(text);
    let mut start: usize = 0;
    assert(chars@.skip(0) =~= chars@);
    while start < chars.len() && is_white_space(chars[start])
        invariant
            start <= chars@.len(),
            trimmed_start(chars@) == trimmed_start(chars@.skip(start as int)),
            bare(chars@) ==> start == 0,
        decreases chars@.len() - start,
    {
        assert(chars@.skip(start as int).drop_first() =~= chars@.skip(start + 1));
        start = start + 1;
    }
    let ghost head = chars@.skip(start as int);
    assert(trimmed_start(chars@) == head);
    let mut end: usize = chars.len();
    assert(head.take(end - start) =~= head);
    while end > start && is_white_space(chars[end - 1])
        invariant
            start <= end <= chars@.len(),
            head == chars@.skip(start as int),
            trimmed_end(head) == trimmed_end(head.take(end - start)),
            bare(chars@) ==> start == 0 && end == chars@.len(),
        decreases end,
    {
        assert(head.take(end - start).drop_last() =~= head.take(end - start - 1));
        assert(head.take(end - start).last() == chars@[end - 1]);
        end = end - 1;
    }
    assert(end > start ==> head.take(end - start).last() == chars@[end - 1]);
    let mut out: Vec<char> = Vec::new();
    let mut i: usize = start;
    while i < end
        invariant
            start <= i <= end <= chars@.len(),
            out@ == chars@.subrange(start as int, i as int),
        decreases end - i,
    {
        out.push(chars[i]);
        i = i + 1;
        assert(out@ =~= chars@.subrange(start as int, i as int));
    }
    assert(out@ =~= head.take(end - start));
    assert(bare(chars@) ==> out@ =~= chars@);
    out
}

/// Whether a text is decimal digits, and at least one of them.
pub open spec fn digits(text: Seq<char>) -> bool {
    text.len() > 0 && forall|i: int| 0 <= i < text.len() ==> '0' <= #[trigger] text[i] <= '9'
}

/// The number that a text is, if it is one of at most 32 bits: decimal digits,
/// after a plus sign or not.
pub open spec fn number_in_text(text: Seq<char>) -> Option<u32> {
    let body = if text.len() > 0 && text[0] == '+' {
        text.drop_first()
    } else {
        text
    };
    if digits(body) && decimal_value(body) <= u32::MAX {
        Some(decimal_value(body) as u32)
    } else {
        None
    }
}

/// More digits make no smaller number.
proof fn value_grows(text: Seq<char>, n: int)
    requires
        0 <= n <= text.len(),
        forall|i: int| 0 <= i < text.len() ==> '0' <= #[trigger] text[i] <= '9',
    ensures
        decimal_value(text.take(n)) <= decimal_value(text),
    decreases text.len() - n,
{
    if n < text.len() {
        value_grows(text, n + 1);
        assert(text.take(n + 1).drop_last() =~= text.take(n));
        assert(text.take(n + 1).last() == text[n]);
    } else {
        assert(text.take(n) =~= text);
    }
}

/// Reads a number.
pub fn parse_number(text: &Vec<char>) -> (n: Option<u32>)
    ensures
        n == number_in_text(text@),
{
    let start: usize = if text.len() > 0 && text[0] == '+' {
        1
    } else {
        0
    };
    let ghost body = text@.skip(start as int);
    proof {
        if start == 1 {
            assert(body =~= text@.drop_first());
        } else {
            assert(body =~= text@);
        }
    }
    if text.len() == start {
        return None;
    }
    let mut value: u64 = 0;
    let mut i: usize = start;
    assert(body.take(0) =~= Seq::<char>::empty());
    while i < text.len()
        invariant
            start <= i <= text@.len(),
            body == text@.skip(start as int),
            number_in_text(text@) == (if digits(body) && decimal_value(body) <= u32::MAX {
                Some(decimal_value(body) as u32)
            } else {
                None
            }),
            value <= u32::MAX,
            value == decimal_value(body.take(i - start)),
            forall|k: int| 0 <= k < i - start ==> '0' <= #[trigger] body[k] <= '9',
        decreases text@.len() - i,
    {
        let c: char = text[i];
        assert(body[i - start] == c);
        if !('0' <= c && c <= '9') {
            return None;
        }
        let d: u64 = (c as u8 - 48) as u64;
        proof {
            assert(body.take(i - start + 1).drop_last() =~= body.take(i - start));
            assert(body.take(i - start + 1).last() == c);
        }
        value = value * 10 + d;
        i = i + 1;
        if value > u32::MAX as u64 {
            proof {
                if digits(body) {
                    value_grows(body, i - start);
                }
            }
            return None;
        }
    }
    assert(body.take(i - start) =~= body);
    Some(value as u32)
}

/// A number below ten is written as its digit, and a larger one as what it is
/// without its last digit, followed by that digit.
pub proof fn number_is_written_digit_by_digit(
    out: &mut String,
    shorter: &mut String,
    n: u64,
)
    requires
        call_ensures(push_decimal, (out, n), ()),
        call_ensures(push_decimal, (shorter, n / 10), ()),
        old(shorter)@ == old(out)@,
    ensures
        n < 10 ==> final(out)@ == old(out)@.push((48 + n) as char),
        n >= 10 ==> final(out)@ == final(shorter)@.push((48 + n % 10) as char),
{
    if n < 10 {
        assert(final(out)@ =~= old(out)@.push((48 + n) as char));
    } else {
        assert(final(out)@ =~= final(shorter)@.push((48 + n % 10) as char));
    }
}

/// The bytes of a number are its digits, as in a text.
pub proof fn number_is_written_byte_by_byte(
    out: &mut Vec<u8>,
    shorter: &mut Vec<u8>,
    n: u64,
)
    requires
        call_ensures(push_decimal_bytes, (out, n), ()),
        call_ensures(push_decimal_bytes, (shorter, n / 10), ()),
        old(shorter)@ == old(out)@,
    ensures
        n < 10 ==> final(out)@ == old(out)@.push((48 + n) as u8),
        n >= 10 ==> final(out)@ == final(shorter)@.push((48 + n % 10) as u8),
{
    if n < 10 {
        assert(final(out)@ =~= old(out)@.push((48 + n) as u8));
    } else {
        assert(final(out)@ =~= final(shorter)@.push((48 + n % 10) as u8));
    }
}

/// A number in decimal: below ten its digit, and otherwise the number without
/// its last digit, followed by that digit. Its bytes are those digits.
pub proof fn decimal_is_positional(n: nat)
    ensures
        n < 10 ==> decimal(n) == seq![(48 + n) as char],
        n >= 10 ==> decimal(n) == decimal(n / 10).push((48 + n % 10) as char),
        n < 10 ==> ascii_bytes(decimal(n)) == seq![(48 + n) as u8],
        n >= 10 ==> ascii_bytes(decimal(n)) == ascii_bytes(decimal(n / 10)).push(
            (48 + n % 10) as u8,
        ),
{
    if n < 10 {
        assert(ascii_bytes(decimal(n)) =~= seq![(48 + n) as u8]);
    } else {
        assert(ascii_bytes(decimal(n)) =~= ascii_bytes(decimal(n / 10)).push((48 + n % 10) as u8));
    }
}

/// Trimming takes white space from both ends, all of it, and nothing else.
pub proof fn trimming_takes_the_white_space_at_both_ends(text: &str, out: Vec<char>)
    requires
        call_ensures(trim, (text,), out),
    ensures
        out@.len() > 0 ==> !white_space(out@[0]) && !white_space(out@.last()),
        exists|from: int, to: int|
            #![trigger text@.subrange(from, to)]
            {
                &&& 0 <= from <= to <= text@.len()
                &&& out@ == text@.subrange(from, to)
                &&& forall|i: int| 0 <= i < from ==> white_space(#[trigger] text@[i])
                &&& forall|i: int| to <= i < text@.len() ==> white_space(#[trigger] text@[i])
            },
{
    let head = trimmed_start(text@);
    let from = start_is_cut(text@);
    let to = end_is_cut(head);
    assert(out@ =~= text@.subrange(from, from + to));
    assert forall|i: int| from + to <= i < text@.len() implies white_space(#[trigger] text@[i]) by {
        assert(text@[i] == head[i - from]);
    }
    if out@.len() > 0 {
        assert(out@[0] == head[0]);
    }
}

/// What is cut from the start of a text.
proof fn start_is_cut(text: Seq<char>) -> (n: int)
    ensures
        0 <= n <= text.len(),
        trimmed_start(text) == text.skip(n),
        forall|i: int| 0 <= i < n ==> white_space(#[trigger] text[i]),
        n < text.len() ==> !white_space(text[n]),
    decreases text.len(),
{
    if text.len() > 0 && white_space(text[0]) {
        let rest = text.drop_first();
        let m = start_is_cut(rest);
        assert(rest.skip(m) =~= text.skip(m + 1));
        assert forall|i: int| 0 <= i < m + 1 implies white_space(#[trigger] text[i]) by {
            if i > 0 {
                assert(rest[i - 1] == text[i]);
            }
        }
        m + 1
    } else {
        assert(text.skip(0) =~= text);
        0
    }
}

/// What is left of a text when its end is cut.
proof fn end_is_cut(text: Seq<char>) -> (n: int)
    ensures
        0 <= n <= text.len(),
        trimmed_end(text) == text.take(n),
        forall|i: int| n <= i < text.len() ==> white_space(#[trigger] text[i]),
        n > 0 ==> !white_space(text[n - 1]),
    decreases text.len(),
{
    if text.len() > 0 && white_space(text.last()) {
        let rest = text.drop_last();
        let m = end_is_cut(rest);
        assert(rest.take(m) =~= text.take(m));
        assert forall|i: int| m <= i < text.len() implies white_space(#[trigger] text[i]) by {
            if i < rest.len() {
                assert(rest[i] == text[i]);
            }
        }
        m
    } else {
        assert(text.take(text.len() as int) =~= text);
        text.len() as int
    }
}

/// One digit reads as its value; another digit behind a number makes it ten times
/// as much and adds its value, as long as 32 bits hold it; a plus sign before the
/// digits changes nothing; and what has any other character is no number.
pub proof fn number_is_read_digit_by_digit(
    text: &Vec<char>,
    longer: &Vec<char>,
    signed: &Vec<char>,
    n: Option<u32>,
    n_longer: Option<u32>,
    n_signed: Option<u32>,
    c: char,
)
    requires
        call_ensures(parse_number, (text,), n),
        call_ensures(parse_number, (longer,), n_longer),
        call_ensures(parse_number, (signed,), n_signed),
        longer@ == text@.push(c),
        signed@ == seq!['+'] + text@,
        forall|i: int| 0 <= i < text@.len() ==> '0' <= #[trigger] text@[i] <= '9',
    ensures
        text@.len() == 0 ==> n is None && n_signed is None,
        text@.len() > 0 ==> n_signed == n,
        '0' <= c <= '9' && text@.len() == 0 ==> n_longer == Some((c as int - 48) as u32),
        '0' <= c <= '9' && n is Some ==> ({
            let value = n->0 * 10 + (c as int - 48);
            n_longer == if value <= u32::MAX {
                Some(value as u32)
            } else {
                None
            }
        }),
        '0' <= c <= '9' && n is None && text@.len() > 0 ==> n_longer is None,
        !('0' <= c <= '9') && (c != '+' || text@.len() > 0) ==> n_longer is None,
{
    let t = text@;
    assert(signed@.drop_first() =~= t);
    assert(longer@.drop_last() =~= t);
    assert(longer@.last() == c);
    if t.len() > 0 {
        assert(longer@[0] == t[0]);
        assert(digits(t));
    }
    if '0' <= c && c <= '9' {
        assert(longer@[0] != '+');
        assert(digits(longer@)) by {
            assert forall|i: int| 0 <= i < longer@.len() implies '0' <= #[trigger] longer@[i]
                <= '9' by {
                if i < t.len() {
                    assert(longer@[i] == t[i]);
                }
            }
        }
        assert(decimal_value(longer@) == 10 * decimal_value(t) + (c as int - 48));
        if t.len() == 0 {
            assert(t =~= Seq::<char>::empty());
        }
    } else if c != '+' || t.len() > 0 {
        let body = if longer@.len() > 0 && longer@[0] == '+' {
            longer@.drop_first()
        } else {
            longer@
        };
        assert(body == longer@);
        assert(longer@[t.len() as int] == c);
        assert(!digits(longer@));
    }
}

} // verus!
