//! What surrounds the pty: the byte stream from the child as text, its exit
//! status, and how its shell is started.

use vstd::prelude::*;
use vstd::utf8::{
    decode_utf8, is_continuation_byte, length_of_first_scalar, pop_first_scalar,
    take_first_scalar, valid_first_scalar, valid_utf8,
};

verus! {

/// Whether a second byte can follow a leading byte of a longer character. The
/// ranges leave out overlong forms, surrogates and values past the last
/// character.
pub open spec fn second_fits(lead: u8, second: u8) -> bool {
    if lead == 0xe0 {
        0xa0 <= second <= 0xbf
    } else if lead == 0xed {
        0x80 <= second <= 0x9f
    } else if lead == 0xf0 {
        0x90 <= second <= 0xbf
    } else if lead == 0xf4 {
        0x80 <= second <= 0x8f
    } else {
        0x80 <= second <= 0xbf
    }
}

/// How many bytes a character with this leading byte has; zero for a byte that
/// starts no character.
pub open spec fn width(lead: u8) -> int {
    if lead <= 0x7f {
        1
    } else if 0xc2 <= lead <= 0xdf {
        2
    } else if 0xe0 <= lead <= 0xef {
        3
    } else if 0xf0 <= lead <= 0xf4 {
        4
    } else {
        0
    }
}

/// Whether the bytes are the beginning of a character, all but its end.
pub open spec fn unfinished(bytes: Seq<u8>) -> bool {
    &&& 1 <= bytes.len() < width(bytes[0])
    &&& bytes.len() >= 2 ==> second_fits(bytes[0], bytes[1])
    &&& bytes.len() >= 3 ==> is_continuation_byte(bytes[2])
}

/// How many bytes to drop where no character starts: as many as could have
/// begun one, and at least one.
pub open spec fn bad_run(bytes: Seq<u8>) -> int {
    if bytes.len() >= 3 && unfinished(bytes.take(3)) {
        3
    } else if bytes.len() >= 2 && unfinished(bytes.take(2)) {
        2
    } else {
        1
    }
}

/// The bytes of the complete characters in a stream, and the unfinished
/// character at its end. Bytes that belong to no character are left out.
pub open spec fn split_stream(bytes: Seq<u8>) -> (Seq<u8>, Seq<u8>)
    decreases bytes.len(),
{
    if bytes.len() == 0 {
        (Seq::empty(), Seq::empty())
    } else if valid_first_scalar(bytes) {
        let (text, rest) = split_stream(pop_first_scalar(bytes));
        (take_first_scalar(bytes) + text, rest)
    } else if unfinished(bytes) {
        (Seq::empty(), bytes)
    } else {
        split_stream(bytes.skip(bad_run(bytes)))
    }
}

/// The ranges of bytes describe exactly the valid characters.
proof fn ranges_describe_characters(b: Seq<u8>)
    requires
        b.len() > 0,
    ensures
        valid_first_scalar(b) <==> {
            &&& width(b[0]) > 0
            &&& b.len() >= width(b[0])
            &&& width(b[0]) >= 2 ==> second_fits(b[0], b[1])
            &&& width(b[0]) >= 3 ==> is_continuation_byte(b[2])
            &&& width(b[0]) >= 4 ==> is_continuation_byte(b[3])
        },
        valid_first_scalar(b) ==> length_of_first_scalar(b) == width(b[0]),
{
    let b0 = b[0];
    let b1 = b[1];
    let b2 = b[2];
    let b3 = b[3];
    assert(0xc0 <= b0 <= 0xdf && 0x80 <= b1 <= 0xbf ==> (0xc2 <= b0 <==> 0x80 <= (((b0
        & 0x1f) as u32) << 6 | ((b1 & 0x3f) as u32)))) by (bit_vector);
    assert(0xe0 <= b0 <= 0xef && 0x80 <= b1 <= 0xbf && 0x80 <= b2 <= 0xbf ==> ((b0 == 0xe0
        ==> 0xa0 <= b1) <==> 0x800 <= (((b0 & 0x0f) as u32) << 12 | (((b1 & 0x3f) as u32) << 6) | ((
    b2 & 0x3f) as u32)))) by (bit_vector);
    assert(0xe0 <= b0 <= 0xef && 0x80 <= b1 <= 0xbf && 0x80 <= b2 <= 0xbf ==> ((b0 == 0xed
        ==> b1 <= 0x9f) <==> !(0xd800 <= (((b0 & 0x0f) as u32) << 12 | (((b1 & 0x3f) as u32) << 6)
        | ((b2 & 0x3f) as u32)) <= 0xdfff))) by (bit_vector);
    assert(0xf0 <= b0 <= 0xf7 && 0x80 <= b1 <= 0xbf && 0x80 <= b2 <= 0xbf && 0x80 <= b3 <= 0xbf
        ==> ((b0 <= 0xf4 && (b0 == 0xf0 ==> 0x90 <= b1) && (b0 == 0xf4 ==> b1 <= 0x8f)) <==> (
    0x10000 <= (((b0 & 0x07) as u32) << 18 | (((b1 & 0x3f) as u32) << 12) | (((b2 & 0x3f) as u32)
        << 6) | ((b3 & 0x3f) as u32)) <= 0x10ffff))) by (bit_vector);
    assert(0xf0 <= b0 <= 0xf7 && 0x80 <= b1 <= 0xbf && 0x80 <= b2 <= 0xbf && 0x80 <= b3 <= 0xbf && (
    0x10000 <= (((b0 & 0x07) as u32) << 18 | (((b1 & 0x3f) as u32) << 12) | (((b2 & 0x3f) as u32)
        << 6) | ((b3 & 0x3f) as u32))) ==> !((((b0 & 0x07) as u32) << 18 | (((b1 & 0x3f) as u32)
        << 12) | (((b2 & 0x3f) as u32) << 6) | ((b3 & 0x3f) as u32)) <= 0xdfff)) by (bit_vector);
    assert(0xc0 <= b0 <= 0xdf ==> (((b0 & 0x1f) as u32) << 6 | ((b1 & 0x3f) as u32)) < 0xd800)
        by (bit_vector);
    assert(b0 <= 0x7f ==> ((b0 & 0x7f) as u32) < 0xd800) by (bit_vector);
}

/// `String::from_utf8` on bytes that are UTF-8: it succeeds, and the string
/// holds the characters that the bytes encode.
#[verifier::external_body]
fn text_of(bytes: Vec<u8>) -> (text: String)
    requires
        valid_utf8(bytes@),
    ensures
        text@ == decode_utf8(bytes@),
{
    String::from_utf8(bytes).unwrap()
}

/// What the bytes at one place of a stream are.
enum Head {
    /// A character of this many bytes.
    Character(usize),
    /// The beginning of a character, up to the end of the stream.
    Unfinished,
    /// This many bytes of no character.
    Bad(usize),
}

/// The width of a character by its leading byte.
fn width_of(lead: u8) -> (w: usize)
    ensures
        w == width(lead),
{
    if lead <= 0x7f {
        1
    } else if 0xc2 <= lead && lead <= 0xdf {
        2
    } else if 0xe0 <= lead && lead <= 0xef {
        3
    } else if 0xf0 <= lead && lead <= 0xf4 {
        4
    } else {
        0
    }
}

/// Whether a second byte can follow a leading byte.
fn second_byte_fits(lead: u8, second: u8) -> (b: bool)
    ensures
        b == second_fits(lead, second),
{
    if lead == 0xe0 {
        0xa0 <= second && second <= 0xbf
    } else if lead == 0xed {
        0x80 <= second && second <= 0x9f
    } else if lead == 0xf0 {
        0x90 <= second && second <= 0xbf
    } else if lead == 0xf4 {
        0x80 <= second && second <= 0x8f
    } else {
        0x80 <= second && second <= 0xbf
    }
}

/// Looks at the bytes at place `i`.
fn head_at(bytes: &Vec<u8>, i: usize) -> (head: Head)
    requires
        i < bytes@.len(),
    ensures
        ({
            let rest = bytes@.skip(i as int);
            match head {
                Head::Character(n) => valid_first_scalar(rest) && n == length_of_first_scalar(rest),
                Head::Unfinished => !valid_first_scalar(rest) && unfinished(rest),
                Head::Bad(n) => !valid_first_scalar(rest) && !unfinished(rest) && n == bad_run(
                    rest,
                ),
            }
        }),
{
    let ghost rest = bytes@.skip(i as int);
    proof {
        ranges_describe_characters(rest);
    }
    let left: usize = bytes.len() - i;
    let w: usize = width_of(bytes[i]);
    if w == 0 {
        return Head::Bad(1);
    }
    if w == 1 {
        return Head::Character(1);
    }
    if left == 1 {
        return Head::Unfinished;
    }
    assert(rest[1] == bytes@[i + 1]);
    if !second_byte_fits(bytes[i], bytes[i + 1]) {
        return Head::Bad(1);
    }
    if w == 2 {
        return Head::Character(2);
    }
    if left == 2 {
        return Head::Unfinished;
    }
    let third: u8 = bytes[i + 2];
    assert(rest[2] == third);
    if !(0x80 <= third && third <= 0xbf) {
        assert(unfinished(rest.take(2)));
        return Head::Bad(2);
    }
    if w == 3 {
        return Head::Character(3);
    }
    if left == 3 {
        return Head::Unfinished;
    }
    let fourth: u8 = bytes[i + 3];
    assert(rest[3] == fourth);
    if !(0x80 <= fourth && fourth <= 0xbf) {
        assert(unfinished(rest.take(3)));
        return Head::Bad(3);
    }
    Head::Character(4)
}

/// The bytes of one character are valid text.
proof fn one_character_is_text(b: Seq<u8>)
    requires
        valid_first_scalar(b),
    ensures
        valid_utf8(take_first_scalar(b)),
{
    let one = take_first_scalar(b);
    assert(valid_first_scalar(one));
    assert(pop_first_scalar(one) =~= Seq::<u8>::empty());
    assert(valid_utf8(pop_first_scalar(one)));
}

/// The complete characters of a stream are valid text.
pub proof fn stream_text_is_valid(bytes: Seq<u8>)
    ensures
        valid_utf8(split_stream(bytes).0),
    decreases bytes.len(),
{
    if bytes.len() == 0 {
    } else if valid_first_scalar(bytes) {
        stream_text_is_valid(pop_first_scalar(bytes));
        one_character_is_text(bytes);
        vstd::utf8::valid_utf8_concat(
            take_first_scalar(bytes),
            split_stream(pop_first_scalar(bytes)).0,
        );
    } else if unfinished(bytes) {
    } else {
        stream_text_is_valid(bytes.skip(bad_run(bytes)));
    }
}

/// The text of the bytes read so far: the complete characters are handed out,
/// an unfinished character at the end stays for the next read, and bytes that
/// belong to no character are dropped.
pub fn emit_utf8(pending: &mut Vec<u8>) -> (text: String)
    ensures
        text@ == decode_utf8(split_stream(old(pending)@).0),
        final(pending)@ == split_stream(old(pending)@).1,
{
    let ghost all = pending@;
    let mut good: Vec<u8> = Vec::new();
    let mut i: usize = 0;
    assert(all.skip(0) =~= all);
    assert(good@ + split_stream(all.skip(0)).0 =~= split_stream(all).0);
    let mut waiting = false;
    while i < pending.len() && !waiting
        invariant
            pending@ == all,
            i <= all.len(),
            good@ + split_stream(all.skip(i as int)).0 == split_stream(all).0,
            split_stream(all.skip(i as int)).1 == split_stream(all).1,
            waiting ==> i < all.len() && !valid_first_scalar(all.skip(i as int)) && unfinished(
                all.skip(i as int),
            ),
        decreases
                all.len() - i,
                (if waiting {
                    0int
                } else {
                    1int
                }),
    {
        let ghost rest = all.skip(i as int);
        match head_at(pending, i) {
            Head::Character(n) => {
                let ghost before = good@;
                let end: usize = i + n;
                while i < end
                    invariant
                        pending@ == all,
                        rest == all.skip(end - n),
                        0 <= end - n <= i <= end <= all.len(),
                        good@ == before + rest.take(i - (end - n)),
                    decreases end - i,
                {
                    good.push(pending[i]);
                    i = i + 1;
                    assert(good@ =~= before + rest.take(i - (end - n)));
                }
                proof {
                    let tail = pop_first_scalar(rest);
                    assert(tail =~= all.skip(i as int));
                    assert(rest.take(n as int) =~= take_first_scalar(rest));
                    assert(good@ + split_stream(tail).0 =~= before + (take_first_scalar(rest)
                        + split_stream(tail).0));
                }
            },
            Head::Unfinished => {
                waiting = true;
            },
            Head::Bad(n) => {
                i = i + n;
                assert(rest.skip(n as int) =~= all.skip(i as int));
            },
        }
    }
    proof {
        assert(good@ =~= split_stream(all).0);
        assert(split_stream(all).1 =~= all.skip(i as int));
        stream_text_is_valid(all);
    }
    let rest: Vec<u8> = pending.split_off(i);
    *pending = rest;
    assert(pending@ =~= all.skip(i as int));
    text_of(good)
}

/// A stream that has been split begins as it did when more bytes follow.
proof fn head_is_stable(a: Seq<u8>, b: Seq<u8>)
    requires
        a.len() > 0,
    ensures
        valid_first_scalar(a) ==> valid_first_scalar(a + b) && take_first_scalar(a + b)
            == take_first_scalar(a) && pop_first_scalar(a + b) == pop_first_scalar(a) + b,
        !valid_first_scalar(a) && !unfinished(a) ==> !valid_first_scalar(a + b) && !unfinished(
            a + b,
        ) && bad_run(a + b) == bad_run(a) && bad_run(a) <= a.len(),
{
    let c = a + b;
    ranges_describe_characters(a);
    ranges_describe_characters(c);
    assert(c[0] == a[0]);
    if a.len() >= 2 {
        assert(c[1] == a[1]);
        assert(c.take(2) =~= a.take(2));
    }
    if a.len() >= 3 {
        assert(c[2] == a[2]);
        assert(c.take(3) =~= a.take(3));
    }
    if a.len() >= 4 {
        assert(c[3] == a[3]);
    }
    if valid_first_scalar(a) {
        assert(take_first_scalar(c) =~= take_first_scalar(a));
        assert(pop_first_scalar(c) =~= pop_first_scalar(a) + b);
    }
    if c.len() >= 2 {
        assert(c.take(2)[0] == c[0] && c.take(2)[1] == c[1]);
    }
    if c.len() >= 3 {
        assert(c.take(3)[0] == c[0] && c.take(3)[1] == c[1] && c.take(3)[2] == c[2]);
    }
}

/// Reading in pieces gives the same text as reading at once: the characters of
/// the first piece, then those of its rest followed by the second piece.
pub proof fn reading_in_pieces(a: Seq<u8>, b: Seq<u8>)
    ensures
        ({
            let (text, rest) = split_stream(a);
            let (more, left) = split_stream(rest + b);
            split_stream(a + b) == (text + more, left)
        }),
    decreases a.len(),
{
    let (text, rest) = split_stream(a);
    let (more, left) = split_stream(rest + b);
    if a.len() == 0 {
        assert(rest + b =~= b);
        assert(a + b =~= b);
        assert(text + more =~= more);
    } else {
        head_is_stable(a, b);
        if valid_first_scalar(a) {
            let tail = pop_first_scalar(a);
            reading_in_pieces(tail, b);
            let first = take_first_scalar(a);
            let (tail_text, _) = split_stream(tail);
            assert((first + tail_text) + more =~= first + (tail_text + more));
        } else if unfinished(a) {
            assert(text + more =~= more);
        } else {
            let n = bad_run(a);
            reading_in_pieces(a.skip(n), b);
            assert((a + b).skip(n) =~= a.skip(n) + b);
        }
    }
}

/// At most three bytes wait for the next read.
pub proof fn rest_is_short(bytes: Seq<u8>)
    ensures
        split_stream(bytes).1.len() <= 3,
    decreases bytes.len(),
{
    if bytes.len() == 0 {
    } else if valid_first_scalar(bytes) {
        rest_is_short(pop_first_scalar(bytes));
    } else if unfinished(bytes) {
    } else {
        rest_is_short(bytes.skip(bad_run(bytes)));
    }
}

/// Valid text passes through whole.
pub proof fn valid_text_passes(bytes: Seq<u8>)
    requires
        valid_utf8(bytes),
    ensures
        split_stream(bytes) == (bytes, Seq::<u8>::empty()),
    decreases bytes.len(),
{
    if bytes.len() > 0 {
        valid_text_passes(pop_first_scalar(bytes));
        assert(take_first_scalar(bytes) + pop_first_scalar(bytes) =~= bytes);
    }
}

/// `libc::WIFEXITED`: the low seven bits of a wait status are zero.
pub assume_specification[ libc::WIFEXITED ](status: libc::c_int) -> (b: bool)
    ensures
        b == (status & 0x7f == 0),
;

/// `libc::WEXITSTATUS`: the second byte of a wait status.
pub assume_specification[ libc::WEXITSTATUS ](status: libc::c_int) -> (code: libc::c_int)
    ensures
        code == (status >> 8) & 0xff,
;

/// `libc::WIFSIGNALED`: the low seven bits of a wait status are neither zero
/// nor all set.
pub assume_specification[ libc::WIFSIGNALED ](status: libc::c_int) -> (b: bool)
    ensures
        b == (status & 0x7f != 0 && status & 0x7f != 0x7f),
;

/// `libc::WTERMSIG`: the low seven bits of a wait status.
pub assume_specification[ libc::WTERMSIG ](status: libc::c_int) -> (signal: libc::c_int)
    ensures
        signal == status & 0x7f,
;

/// The exit code for a wait status: the code of a normal exit, 128 and the
/// number of a fatal signal, and -1 for anything else.
pub open spec fn exit_code_of(status: i32) -> int {
    let low = status & 0x7f;
    if low == 0 {
        ((status >> 8) & 0xff) as int
    } else if low != 0x7f {
        128 + low
    } else {
        -1
    }
}

/// The exit code for a wait status.
pub fn exit_code(status: i32) -> (code: i32)
    ensures
        code == exit_code_of(status),
{
    if libc::WIFEXITED(status) {
        libc::WEXITSTATUS(status)
    } else if libc::WIFSIGNALED(status) {
        assert(0 <= status & 0x7f <= 0x7f) by (bit_vector);
        128 + libc::WTERMSIG(status)
    } else {
        -1
    }
}

/// A normal exit reports its code, as the shell saw it.
pub proof fn normal_exit_reports_code(code: i32)
    requires
        0 <= code <= 255,
    ensures
        exit_code_of((code << 8) as i32) == code,
{
    assert((code << 8) & 0x7f == 0 && ((code << 8) >> 8) & 0xff == code) by (bit_vector)
        requires
            0 <= code <= 255,
    ;
}

/// A fatal signal reports 128 and its number, whether or not a core was
/// dumped.
pub proof fn fatal_signal_reports_its_number(signal: i32)
    requires
        1 <= signal <= 126,
    ensures
        exit_code_of(signal) == 128 + signal,
        exit_code_of((signal | 0x80) as i32) == 128 + signal,
{
    assert(signal & 0x7f == signal && (signal | 0x80) & 0x7f == signal) by (bit_vector)
        requires
            1 <= signal <= 126,
    ;
}

/// An exit code is a byte, or -1.
pub proof fn exit_code_in_range(status: i32)
    ensures
        -1 <= exit_code_of(status) <= 255,
{
    assert(0 <= status & 0x7f <= 0x7f && 0 <= (status >> 8) & 0xff <= 0xff) by (bit_vector);
}

/// Where the user's own shell files live: their `ZDOTDIR` where it is set and
/// not empty, their home otherwise, and nowhere without one.
pub fn user_zdotdir(zdotdir: Option<Vec<u8>>, home: Option<Vec<u8>>) -> (dir: Vec<u8>)
    ensures
        dir@ == match (zdotdir, home) {
            (Some(z), _) if z@.len() > 0 => z@,
            (_, Some(h)) => h@,
            (_, None) => Seq::<u8>::empty(),
        },
{
    if let Some(z) = zdotdir {
        if z.len() > 0 {
            return z;
        }
    }
    match home {
        Some(h) => h,
        None => Vec::new(),
    }
}

/// The name that a login shell is started under: a dash and the file name of
/// the shell, or of the plain shell where it has none.
pub fn login_argv0(basename: Option<&str>) -> (argv0: String)
    ensures
        argv0@ == "-"@ + match basename {
            Some(name) => name@,
            None => "sh"@,
        },
{
    let mut argv0: String = "-".to_owned();
    match basename {
        Some(name) => argv0.append(name),
        None => argv0.append("sh"),
    }
    argv0
}

/// The beginning of a character at the end of a stream waits for its rest, and
/// everything before it is handed out.
pub proof fn unfinished_character_waits(
    pending: &mut Vec<u8>,
    text: String,
    complete: Seq<u8>,
    character: Seq<u8>,
    k: int,
)
    requires
        call_ensures(emit_utf8, (pending,), text),
        valid_utf8(complete),
        valid_utf8(character),
        character.len() > 0,
        length_of_first_scalar(character) == character.len(),
        0 < k < character.len(),
        old(pending)@ == complete + character.take(k),
    ensures
        text@ == decode_utf8(complete),
        final(pending)@ == character.take(k),
{
    let start = character.take(k);
    ranges_describe_characters(character);
    ranges_describe_characters(start);
    assert(start[0] == character[0]);
    if k >= 2 {
        assert(start[1] == character[1]);
    }
    if k >= 3 {
        assert(start[2] == character[2]);
    }
    assert(!valid_first_scalar(start) && unfinished(start));
    valid_text_passes(complete);
    reading_in_pieces(complete, start);
    assert(Seq::<u8>::empty() + start =~= start);
    assert(complete + Seq::<u8>::empty() =~= complete);
}

/// A byte that starts no character is dropped, and what follows is read as if it
/// had not been there.
pub proof fn stray_byte_is_dropped(
    pending: &mut Vec<u8>,
    clean: &mut Vec<u8>,
    text: String,
    text_clean: String,
    complete: Seq<u8>,
    stray: u8,
    more: Seq<u8>,
)
    requires
        call_ensures(emit_utf8, (pending,), text),
        call_ensures(emit_utf8, (clean,), text_clean),
        valid_utf8(complete),
        0x80 <= stray <= 0xc1 || 0xf5 <= stray,
        old(pending)@ == complete + seq![stray] + more,
        old(clean)@ == complete + more,
    ensures
        text@ == text_clean@,
        final(pending)@ == final(clean)@,
{
    let bad = seq![stray] + more;
    ranges_describe_characters(bad);
    assert(bad[0] == stray);
    assert(bad_run(bad) == 1) by {
        if bad.len() >= 2 {
            assert(bad.take(2)[0] == stray);
        }
        if bad.len() >= 3 {
            assert(bad.take(3)[0] == stray);
        }
    }
    assert(bad.skip(1) =~= more);
    valid_text_passes(complete);
    reading_in_pieces(complete, bad);
    reading_in_pieces(complete, more);
    assert(old(pending)@ =~= complete + bad);
    assert(Seq::<u8>::empty() + bad =~= bad);
    assert(Seq::<u8>::empty() + more =~= more);
}

/// A character that breaks off, because no character goes on with the byte that
/// follows, is dropped as far as it came.
pub proof fn broken_character_is_dropped(
    pending: &mut Vec<u8>,
    clean: &mut Vec<u8>,
    text: String,
    text_clean: String,
    complete: Seq<u8>,
    character: Seq<u8>,
    k: int,
    more: Seq<u8>,
)
    requires
        call_ensures(emit_utf8, (pending,), text),
        call_ensures(emit_utf8, (clean,), text_clean),
        valid_utf8(complete),
        valid_utf8(character),
        character.len() > 0,
        length_of_first_scalar(character) == character.len(),
        0 < k < character.len(),
        more.len() > 0,
        forall|c: Seq<u8>| #[trigger]
            valid_first_scalar(c) && c.len() > k ==> c.take(k + 1) != character.take(k).push(
                more[0],
            ),
        old(pending)@ == complete + character.take(k) + more,
        old(clean)@ == complete + more,
    ensures
        text@ == text_clean@,
        final(pending)@ == final(clean)@,
{
    let start = character.take(k);
    let bad = start + more;
    ranges_describe_characters(character);
    ranges_describe_characters(bad);
    assert(bad[0] == character[0] && bad[k] == more[0]);
    if k >= 2 {
        assert(bad[1] == character[1]);
    }
    if k >= 3 {
        assert(bad[2] == character[2]);
    }
    let c = start.push(more[0]) + seq![0x80u8, 0x80u8];
    ranges_describe_characters(c);
    assert(c.take(k + 1) =~= start.push(more[0]));
    assert(!valid_first_scalar(c));
    assert(c[0] == bad[0] && c[k] == bad[k]);
    if k >= 2 {
        assert(c[1] == bad[1]);
    }
    if k >= 3 {
        assert(c[2] == bad[2]);
    }
    let (one, two, three) = (bad.take(1), bad.take(2), bad.take(3));
    if bad.len() >= 3 {
        assert(three[0] == bad[0] && three[1] == bad[1] && three[2] == bad[2]);
    }
    assert(two[0] == bad[0] && two[1] == bad[1]);
    assert(bad_run(bad) == k);
    assert(bad.skip(k) =~= more);
    valid_text_passes(complete);
    reading_in_pieces(complete, bad);
    reading_in_pieces(complete, more);
    assert(old(pending)@ =~= complete + bad);
    assert(Seq::<u8>::empty() + bad =~= bad);
    assert(Seq::<u8>::empty() + more =~= more);
}

/// Text that is whole is handed out whole, and nothing waits.
pub proof fn whole_text_is_handed_out(pending: &mut Vec<u8>, text: String)
    requires
        call_ensures(emit_utf8, (pending,), text),
        valid_utf8(old(pending)@),
    ensures
        text@ == decode_utf8(old(pending)@),
        final(pending)@.len() == 0,
{
    valid_text_passes(old(pending)@);
}

/// The exit code is the child's own where it exited, in the status's second byte;
/// 128 and the signal's number where a signal ended it, in the status's low seven
/// bits; and -1 for a child that is only stopped.
pub proof fn exit_code_tells_how_the_child_ended(status: i32, code: i32, n: i32)
    requires
        call_ensures(exit_code, (status,), code),
        0 <= n <= 255,
    ensures
        status == 256 * n ==> code == n,
        1 <= n <= 126 && (status == n || status == n + 128) ==> code == 128 + n,
        status == 256 * n + 127 ==> code == -1,
{
    assert(status == 256 * n ==> status & 0x7f == 0 && (status >> 8) & 0xff == n) by (bit_vector)
        requires
            0 <= n <= 255,
    ;
    assert(1 <= n <= 126 && (status == n || status == n + 128) ==> status & 0x7f == n)
        by (bit_vector);
    assert(status == 256 * n + 127 ==> status & 0x7f == 0x7f) by (bit_vector)
        requires
            0 <= n <= 255,
    ;
}

/// A login shell is started under its own name after a dash, and the user's own
/// files are where they say, or else in their home.
pub proof fn login_shell_has_a_dash_and_a_home(
    basename: Option<&str>,
    argv0: String,
    zdotdir: Option<Vec<u8>>,
    home: Option<Vec<u8>>,
    dir: Vec<u8>,
)
    requires
        call_ensures(login_argv0, (basename,), argv0),
        call_ensures(user_zdotdir, (zdotdir, home), dir),
    ensures
        argv0@.len() > 0 && argv0@[0] == '-',
        basename matches Some(name) ==> argv0@.drop_first() == name@,
        basename is None ==> argv0@ == seq!['-', 's', 'h'],
        zdotdir is Some && zdotdir->0@.len() > 0 ==> dir@ == zdotdir->0@,
        (zdotdir is None || zdotdir->0@.len() == 0) && home is Some ==> dir@ == home->0@,
        (zdotdir is None || zdotdir->0@.len() == 0) && home is None ==> dir@.len() == 0,
{
    reveal_strlit("-");
    reveal_strlit("sh");
    assert("-"@ =~= seq!['-']);
    assert("sh"@ =~= seq!['s', 'h']);
    if basename is Some {
        assert(argv0@.drop_first() =~= basename->0@);
    } else {
        assert(argv0@ =~= seq!['-', 's', 'h']);
    }
}

/// Of a status only the low seven bits and the second byte count.
pub proof fn exit_code_is_in_two_places(status: i32, code: i32)
    requires
        call_ensures(exit_code, (status,), code),
        status >= 0,
    ensures
        status as int % 128 == 0 ==> code == status as int / 256 % 256,
        1 <= status as int % 128 <= 126 ==> code == 128 + status as int % 128,
        status as int % 128 == 127 ==> code == -1,
{
    let bits = status as u32;
    assert((status & 0x7f) as u32 == bits % 128 && ((status >> 8) & 0xff) as u32 == bits / 256
        % 256) by (bit_vector)
        requires
            status >= 0,
            bits == status as u32,
    ;
    assert(0 <= status & 0x7f <= 0x7f && 0 <= (status >> 8) & 0xff <= 0xff) by (bit_vector);
}

} // verus!
