//! Laws of the representations: characters, lines, numbers and encodings.

use crate::bytes::{le32, le64, signed32, signed64};
use crate::hex::{
    decode_hex, from_hex, hex_char, hex_value, law_hex_round_trip, lemma_to_hex_digits, push_hex,
    to_hex,
};
use crate::json::{json_escape, json_read, json_text, law_json_round_trip};
use crate::text::{
    decimal, digits_value, is_digit, is_digits, is_hex_digit, is_white, lemma_decimal,
    lemma_find_behind, lemma_find_none, lemma_first_char_absent, lemma_run_end_is,
    lemma_run_start_is, lines, lower, occurs_at, read_i32, read_unsigned, signed_decimal,
    strip_return, trim, trim_start, upper, upper_text, CharClass,
};
use crate::utf16::{decode16, encode16, encode_char, is_high, is_low};
use vstd::prelude::*;

verus! {

/// White space is what Unicode has as such: 25 characters, and no other.
pub proof fn law_white_space(c: char, r: bool)
    requires
        call_ensures(CharClass::contains, (CharClass::White, c), r),
    ensures
        r <==> {
            let u = c as u32;
            ||| 0x9 <= u <= 0xd
            ||| u == 0x20 || u == 0x85 || u == 0xa0 || u == 0x1680
            ||| 0x2000 <= u <= 0x200a
            ||| u == 0x2028 || u == 0x2029 || u == 0x202f || u == 0x205f || u == 0x3000
        },
        r == is_white(c),
{
}

/// The characters of a descriptor, of a decimal and of a hexadecimal number.
pub proof fn law_character_classes(c: char, descriptor: bool, digit: bool, hex: bool, solid: bool)
    requires
        call_ensures(CharClass::contains, (CharClass::Descriptor, c), descriptor),
        call_ensures(CharClass::contains, (CharClass::Digit, c), digit),
        call_ensures(CharClass::contains, (CharClass::HexDigit, c), hex),
        call_ensures(CharClass::contains, (CharClass::Solid, c), solid),
    ensures
        ({
            let u = c as u32;
            let numeral = 0x30 <= u <= 0x39;
            let large = 0x41 <= u <= 0x5a;
            let small = 0x61 <= u <= 0x7a;
            &&& digit == numeral
            &&& hex == (numeral || 0x41 <= u <= 0x46 || 0x61 <= u <= 0x66)
            &&& descriptor == (numeral || large || small || c == '_' || c == '.')
            &&& solid == !is_white(c)
        }),
{
}

/// White space around a text is trimmed from it, and nothing of the text is.
pub proof fn law_white_space_around_is_trimmed(before: Seq<char>, s: Seq<char>, after: Seq<char>)
    requires
        forall|i: int| 0 <= i < before.len() ==> is_white(#[trigger] before[i]),
        forall|i: int| 0 <= i < after.len() ==> is_white(#[trigger] after[i]),
        s.len() > 0 ==> !is_white(s[0]) && !is_white(s.last()),
    ensures
        trim(before + s + after) == s,
{
    let white = CharClass::White;
    let all = before + s + after;
    if s.len() == 0 {
        assert forall|j: int| 0 <= j < all.len() implies white.holds(all[j]) by {
            if j < before.len() {
                assert(all[j] == before[j]);
            } else {
                assert(all[j] == after[j - before.len()]);
            }
        }
        lemma_run_end_is(all, white, 0, all.len() as int);
        assert(trim_start(all) =~= Seq::<char>::empty());
        assert(trim(all) =~= s);
    } else {
        assert forall|j: int| 0 <= j < before.len() implies white.holds(all[j]) by {
            assert(all[j] == before[j]);
        }
        assert(all[before.len() as int] == s[0]);
        lemma_run_end_is(all, white, 0, before.len() as int);
        let t = trim_start(all);
        assert(t =~= s + after);
        assert forall|j: int| s.len() <= j < t.len() implies white.holds(t[j]) by {
            assert(t[j] == after[j - s.len()]);
        }
        assert(t[s.len() - 1] == s.last());
        lemma_run_start_is(t, white, t.len() as int, s.len() as int);
        assert(trim(all) =~= s);
    }
}

/// The case of a letter does not matter to either form, both forms of a letter are 32
/// apart, and what is no ASCII letter is kept.
pub proof fn law_cases(c: char)
    ensures
        lower(upper(c)) == lower(c),
        upper(lower(c)) == upper(c),
        0x41 <= c as u32 <= 0x5a ==> lower(c) as u32 == c as u32 + 32 && upper(c) == c,
        0x61 <= c as u32 <= 0x7a ==> upper(c) as u32 == c as u32 - 32 && lower(c) == c,
        !(0x41 <= c as u32 <= 0x5a) && !(0x61 <= c as u32 <= 0x7a) ==> lower(c) == c && upper(c)
            == c,
{
}

/// A text is the first of its lines, and the lines of what follows the line feed; a carriage
/// return before the line feed is no part of the line. What has no line feed is one line,
/// and nothing is none.
pub proof fn law_lines_are_parted(line: Seq<char>, rest: Seq<char>)
    requires
        !line.contains('\n'),
    ensures
        line.len() == 0 || line.last() != '\r' ==> lines(line + seq!['\n'] + rest) == seq![line]
            + lines(rest),
        lines(line + seq!['\r', '\n'] + rest) == seq![line] + lines(rest),
        line.len() > 0 ==> lines(line) == seq![line],
        lines(Seq::<char>::empty()) == Seq::<Seq<char>>::empty(),
{
    let feed = seq!['\n'];
    let returned = line.push('\r');
    let s = line + feed + rest;
    let t = line + seq!['\r', '\n'] + rest;
    assert(t =~= returned + feed + rest);
    assert(!returned.contains('\n')) by {
        assert forall|i: int| 0 <= i < returned.len() implies returned[i] != '\n' by {
            if i < line.len() {
                assert(line[i] == returned[i]);
            }
        }
    }
    lemma_first_char_absent(line, feed);
    lemma_find_behind(line, feed, rest);
    lemma_first_char_absent(returned, feed);
    lemma_find_behind(returned, feed, rest);
    assert(returned.drop_last() =~= line);
    assert(strip_return(returned) == line);
    assert forall|j: int| 0 <= j implies !occurs_at(line, feed, j) by {
        if occurs_at(line, feed, j) {
            assert(line.subrange(j, j + 1)[0] == line[j]);
        }
    }
    lemma_find_none(line, feed, 0);
}

/// A number is read by its digits: with zeros before it or not, with a `+` or not, as long
/// as it lies within the limit; anything else is no number.
pub proof fn law_numbers_are_read(text: &[char], max: u32, n: nat, zeros: nat, r: Option<u32>)
    requires
        call_ensures(read_unsigned, (text, max), r),
    ensures
        ({
            let digits = Seq::new(zeros, |i: int| '0') + decimal(n);
            text@ == digits || text@ == seq!['+'] + digits ==> match r {
                Some(m) => m == n && n <= max,
                None => n > max,
            }
        }),
        text@.len() == 0 ==> r is None,
        (exists|i: int| 0 < i < text@.len() && !is_digit(#[trigger] text@[i])) ==> r is None,
        text@.len() > 0 && !is_digit(text@[0]) && text@[0] != '+' ==> r is None,
{
    let digits = Seq::new(zeros, |i: int| '0') + decimal(n);
    lemma_decimal(n);
    lemma_zeros(zeros, decimal(n));
    assert forall|i: int| 0 <= i < digits.len() implies is_digit(#[trigger] digits[i]) by {
        if i >= zeros {
            assert(digits[i] == decimal(n)[i - zeros]);
        }
    }
    assert(is_digits(digits));
    assert(digits[0] != '+');
    if text@ == seq!['+'] + digits {
        assert(text@.skip(1) =~= digits);
    }
    if exists|i: int| 0 < i < text@.len() && !is_digit(#[trigger] text@[i]) {
        let i = choose|i: int| 0 < i < text@.len() && !is_digit(#[trigger] text@[i]);
        assert(text@.skip(1)[i - 1] == text@[i]);
    }
}

/// Zeros before a number do not change its value.
proof fn lemma_zeros(zeros: nat, d: Seq<char>)
    ensures
        digits_value(Seq::new(zeros, |i: int| '0') + d) == digits_value(d),
    decreases zeros + d.len(),
{
    let s = Seq::new(zeros, |i: int| '0') + d;
    if d.len() > 0 {
        lemma_zeros(zeros, d.drop_last());
        assert(s.drop_last() =~= Seq::new(zeros, |i: int| '0') + d.drop_last());
        assert(s.last() == d.last());
    } else if zeros > 0 {
        let less = (zeros - 1) as nat;
        lemma_zeros(less, d);
        assert(s.drop_last() =~= Seq::new(less, |i: int| '0') + d);
        assert(s.last() == '0');
    }
}

/// The lowest byte of a number comes first, and each next one counts 256 times as much.
pub proof fn law_little_endian(b: Seq<u8>, i: int)
    ensures
        le32(b, i) == b[i] + 0x100 * b[i + 1] + 0x1_0000 * b[i + 2] + 0x100_0000 * b[i + 3],
        le64(b, i) == le32(b, i) + 0x1_0000_0000 * le32(b, i + 4),
{
}

/// The two numbers that a bit pattern stands for are equal, or the signed one is less by the
/// size of the range, where the highest bit is set.
pub proof fn law_two_complement(n: nat, m: nat)
    requires
        n < 0x1_0000_0000,
        m < 0x1_0000_0000_0000_0000,
    ensures
        -0x8000_0000 <= signed32(n) < 0x8000_0000,
        signed32(n) == n || signed32(n) == n - 0x1_0000_0000,
        -0x8000_0000_0000_0000 <= signed64(m) < 0x8000_0000_0000_0000,
        signed64(m) == m || signed64(m) == m - 0x1_0000_0000_0000_0000,
{
}

/// Hexadecimal digits are read in either case.
pub proof fn law_hex_in_either_case(s: Seq<char>)
    ensures
        from_hex(upper_text(s)) == from_hex(s),
    decreases s.len(),
{
    let u = upper_text(s);
    if s.len() >= 2 {
        assert(u[0] == upper(s[0]) && u[1] == upper(s[1]));
        assert(is_hex_digit(u[0]) == is_hex_digit(s[0]));
        assert(is_hex_digit(u[1]) == is_hex_digit(s[1]));
        law_hex_in_either_case(s.skip(2));
        assert(u.skip(2) =~= upper_text(s.skip(2)));
        if is_hex_digit(s[0]) && is_hex_digit(s[1]) {
            assert(hex_value(u[0]) == hex_value(s[0]));
            assert(hex_value(u[1]) == hex_value(s[1]));
        }
    }
}

/// Bytes are written in lower-case digits, two for each, the higher half first; half a byte
/// at the end, and whatever follows a character that is no digit, is passed over.
pub proof fn law_hex_ends_with_whole_bytes(bytes: Seq<u8>, c: char, rest: Seq<char>)
    requires
        !is_hex_digit(c),
    ensures
        forall|i: int|
            0 <= i < to_hex(bytes).len() ==> {
                let u = (#[trigger] to_hex(bytes)[i]) as u32;
                0x30 <= u <= 0x39 || 0x61 <= u <= 0x66
            },
        from_hex(to_hex(bytes) + seq![c] + rest) == bytes,
        forall|half: char| #[trigger] from_hex(to_hex(bytes).push(half)) == bytes,
    decreases bytes.len(),
{
    let h = to_hex(bytes);
    if bytes.len() == 0 {
        assert(h + seq![c] + rest =~= seq![c] + rest);
        assert(from_hex(h + seq![c] + rest) =~= bytes);
        assert forall|half: char| #[trigger] from_hex(h.push(half)) == bytes by {
            assert(h.push(half).len() == 1);
            assert(from_hex(h.push(half)) =~= bytes);
        }
    } else {
        let tail = bytes.drop_first();
        law_hex_ends_with_whole_bytes(tail, c, rest);
        lemma_hex_first(bytes);
        let front = seq![hex_char(bytes[0] as nat / 16), hex_char(bytes[0] as nat % 16)];
        lemma_hex_pair(bytes[0]);
        let s = h + seq![c] + rest;
        assert(s.skip(2) =~= to_hex(tail) + seq![c] + rest);
        assert(s[0] == front[0] && s[1] == front[1]);
        assert(seq![bytes[0]] + tail =~= bytes);
        assert forall|half: char| #[trigger] from_hex(h.push(half)) == bytes by {
            let t = h.push(half);
            assert(t.skip(2) =~= to_hex(tail).push(half));
            assert(t[0] == front[0] && t[1] == front[1]);
            assert(from_hex(to_hex(tail).push(half)) == tail);
            assert(from_hex(t) == seq![bytes[0]] + tail);
        }
        assert forall|i: int| 0 <= i < h.len() implies {
            let u = (#[trigger] h[i]) as u32;
            0x30 <= u <= 0x39 || 0x61 <= u <= 0x66
        } by {
            if i >= 2 {
                assert(h[i] == to_hex(tail)[i - 2]);
            }
        }
    }
}

proof fn lemma_hex_pair(b: u8)
    ensures
        ({
            let x = hex_char(b as nat / 16);
            let y = hex_char(b as nat % 16);
            &&& is_hex_digit(x) && is_hex_digit(y)
            &&& hex_value(x) * 16 + hex_value(y) == b
            &&& 0x30 <= x as u32 <= 0x39 || 0x61 <= x as u32 <= 0x66
            &&& 0x30 <= y as u32 <= 0x39 || 0x61 <= y as u32 <= 0x66
        }),
{
}

proof fn lemma_hex_first(bytes: Seq<u8>)
    requires
        bytes.len() > 0,
    ensures
        to_hex(bytes) == seq![hex_char(bytes[0] as nat / 16), hex_char(bytes[0] as nat % 16)]
            + to_hex(bytes.drop_first()),
    decreases bytes.len(),
{
    let front = seq![hex_char(bytes[0] as nat / 16), hex_char(bytes[0] as nat % 16)];
    if bytes.len() == 1 {
        assert(bytes.drop_last() =~= Seq::<u8>::empty());
        assert(bytes.drop_first() =~= Seq::<u8>::empty());
        assert(to_hex(bytes) =~= front + to_hex(bytes.drop_first()));
    } else {
        lemma_hex_first(bytes.drop_last());
        assert(bytes.drop_last().drop_first() =~= bytes.drop_first().drop_last());
        assert(to_hex(bytes) =~= front + to_hex(bytes.drop_first()));
    }
}

/// A character of the basic plane is the code unit of its number, any other a pair of
/// surrogates; and a surrogate without a partner stands for U+FFFD.
pub proof fn law_code_units(c: char, lone: u16, rest: Seq<u16>)
    requires
        is_high(lone) || is_low(lone),
        is_high(lone) && rest.len() > 0 ==> !is_low(rest[0]),
    ensures
        (c as u32) < 0x1_0000 ==> encode16(seq![c]) == seq![c as u32 as u16],
        c as u32 >= 0x1_0000 ==> ({
            let e = encode16(seq![c]);
            &&& e.len() == 2
            &&& 0xd800 <= e[0] <= 0xdbff
            &&& 0xdc00 <= e[1] <= 0xdfff
            &&& 0x1_0000 + 0x400 * (e[0] - 0xd800) + (e[1] - 0xdc00) == c as u32
        }),
        decode16(seq![lone] + rest) == seq!['\u{fffd}'] + decode16(rest),
{
    vstd::utf8::char_is_scalar(c);
    assert(seq![c].drop_first() =~= Seq::<char>::empty());
    assert(encode16(Seq::<char>::empty()) =~= Seq::<u16>::empty());
    assert(encode16(seq![c]) =~= encode_char(c));
    let all = seq![lone] + rest;
    assert(all.skip(1) =~= rest);
    if all.len() >= 2 {
        assert(all[1] == rest[0]);
    }
}

/// A signed number is read with its sign, a `+` or none, within 32 bits.
pub proof fn law_signed_numbers_are_read(text: &[char], n: int, r: Option<i32>)
    requires
        call_ensures(read_i32, (text,), r),
    ensures
        text@ == signed_decimal(n) || (n >= 0 && text@ == seq!['+'] + decimal(n as nat)) ==> (
        match r {
            Some(m) => m == n,
            None => n < i32::MIN || n > i32::MAX,
        }),
        text@.len() == 0 ==> r is None,
        text@.len() > 0 && !is_digit(text@[0]) && text@[0] != '+' && text@[0] != '-' ==> r is None,
{
    let m = (if n < 0 {
        -n
    } else {
        n
    }) as nat;
    let d = decimal(m);
    lemma_decimal(m);
    assert(is_digit(d[0]));
    if n < 0 && text@ == signed_decimal(n) {
        assert(text@.skip(1) =~= d);
    }
    if n >= 0 && text@ == seq!['+'] + d {
        assert(text@.skip(1) =~= d);
    }
}

/// What is appended in hexadecimal or as the inside of a JSON string reads back as it was,
/// and what is decoded from hexadecimal is what was written so.
pub proof fn law_written_forms_read_back(
    out: &mut String,
    bytes: &[u8],
    json: &mut String,
    s: &str,
    hex: &str,
    back: Vec<u8>,
)
    requires
        call_ensures(push_hex, (out, bytes), ()),
        call_ensures(json_escape, (json, s), ()),
        call_ensures(decode_hex, (hex,), back),
    ensures
        final(out)@.len() == old(out)@.len() + 2 * bytes@.len(),
        final(out)@.take(old(out)@.len() as int) == old(out)@,
        hex@ == final(out)@.skip(old(out)@.len() as int) ==> back@ == bytes@,
        final(json)@.len() >= old(json)@.len(),
        final(json)@.take(old(json)@.len() as int) == old(json)@,
        json_read(final(json)@.skip(old(json)@.len() as int)) == Some(s@),
{
    lemma_to_hex_digits(bytes@);
    law_hex_round_trip(bytes@);
    law_json_round_trip(s@);
    assert(final(out)@.take(old(out)@.len() as int) =~= old(out)@);
    assert(final(out)@.skip(old(out)@.len() as int) =~= to_hex(bytes@));
    assert(final(json)@.take(old(json)@.len() as int) =~= old(json)@);
    assert(final(json)@.skip(old(json)@.len() as int) =~= json_text(s@));
}

} // verus!
