//! Character classification and the string escape/unescape rules shared by
//! the lexer, the parser and the serializer.

use vstd::prelude::*;
use vstd::std_specs::cmp::PartialEqSpec;
use vstd::std_specs::iter::IteratorSpec;

verus! {

broadcast use vstd::seq::group_seq_axioms;

/// Whether `c` is a decimal digit.
pub open spec fn spec_is_digit(c: char) -> bool {
    '0' as u32 <= c as u32 && c as u32 <= '9' as u32
}

/// Whether `c` may begin a name: a letter, `$` or `_`.
pub open spec fn spec_is_alpha(c: char) -> bool {
    ('a' as u32 <= c as u32 && c as u32 <= 'z' as u32)
        || ('A' as u32 <= c as u32 && c as u32 <= 'Z' as u32)
        || c == '$' || c == '_'
}

/// Whether `c` may continue a name.
pub open spec fn spec_is_alpha_numeric(c: char) -> bool {
    spec_is_digit(c) || spec_is_alpha(c)
}

#[verifier::when_used_as_spec(spec_is_digit)]
pub fn is_digit(c: char) -> (r: bool)
    ensures
        r == spec_is_digit(c),
{
    c as u32 >= '0' as u32 && c as u32 <= '9' as u32
}

#[verifier::when_used_as_spec(spec_is_alpha)]
pub fn is_alpha(c: char) -> (r: bool)
    ensures
        r == spec_is_alpha(c),
{
    (c as u32 >= 'a' as u32 && c as u32 <= 'z' as u32)
        || (c as u32 >= 'A' as u32 && c as u32 <= 'Z' as u32)
        || c == '$' || c == '_'
}

#[verifier::when_used_as_spec(spec_is_alpha_numeric)]
pub fn is_alpha_numeric(c: char) -> (r: bool)
    ensures
        r == spec_is_alpha_numeric(c),
{
    is_digit(c) || is_alpha(c)
}

/// Builds an owned `String` with the characters of `s`, through vstd's
/// specification of `str::to_string`.
pub fn string_from_str(s: &str) -> (r: String)
    ensures
        r@ == s@,
{
    <String as vstd::string::StringExecFns>::from_str(s)
}

/// An error found while interpreting the escape sequences of a string
/// literal's raw text.  The integer of `UnexpectedCharacter` is the offset of
/// the offending character behind the backslash that opened the escape.
#[derive(Debug, Clone, PartialEq, Eq, Structural)]
pub enum EscapeError {
    UnexpectedEof,
    UnexpectedCharacter(i32, char),
    /// A `\u` escape whose four hex digits did not form a code unit.
    FailedConversion,
    /// A `\u` escape naming a UTF-16 surrogate, which is not a character.
    InvalidCharacter(u16),
}

/// Relies on `char::from_u32` of std: it returns `Some` exactly for the
/// unicode scalar values (everything up to `0x10FFFF` except the surrogate
/// range), and the returned character has the given value.
pub assume_specification[ char::from_u32 ](i: u32) -> (r: Option<char>)
    ensures
        r is None <==> (0xD800 <= i < 0xE000 || i > 0x10FFFF),
        r matches Some(c) ==> c as u32 == i,
;

/// The value of a hex digit, `16` for every other character.
pub open spec fn spec_hex_digit_value(c: char) -> u32 {
    if c == '0' { 0 } else if c == '1' { 1 } else if c == '2' { 2 } else if c == '3' { 3 }
    else if c == '4' { 4 } else if c == '5' { 5 } else if c == '6' { 6 } else if c == '7' { 7 }
    else if c == '8' { 8 } else if c == '9' { 9 }
    else if c == 'a' || c == 'A' { 10 } else if c == 'b' || c == 'B' { 11 }
    else if c == 'c' || c == 'C' { 12 } else if c == 'd' || c == 'D' { 13 }
    else if c == 'e' || c == 'E' { 14 } else if c == 'f' || c == 'F' { 15 }
    else { 16 }
}

/// The lower-case hex digit for a value below sixteen.
pub open spec fn spec_hex_digit_char(v: u32) -> char {
    if v == 0 { '0' } else if v == 1 { '1' } else if v == 2 { '2' } else if v == 3 { '3' }
    else if v == 4 { '4' } else if v == 5 { '5' } else if v == 6 { '6' } else if v == 7 { '7' }
    else if v == 8 { '8' } else if v == 9 { '9' } else if v == 10 { 'a' } else if v == 11 { 'b' }
    else if v == 12 { 'c' } else if v == 13 { 'd' } else if v == 14 { 'e' } else { 'f' }
}

pub fn hex_digit_value(c: char) -> (v: u32)
    ensures
        v == spec_hex_digit_value(c),
{
    if c == '0' { 0 } else if c == '1' { 1 } else if c == '2' { 2 } else if c == '3' { 3 }
    else if c == '4' { 4 } else if c == '5' { 5 } else if c == '6' { 6 } else if c == '7' { 7 }
    else if c == '8' { 8 } else if c == '9' { 9 }
    else if c == 'a' || c == 'A' { 10 } else if c == 'b' || c == 'B' { 11 }
    else if c == 'c' || c == 'C' { 12 } else if c == 'd' || c == 'D' { 13 }
    else if c == 'e' || c == 'E' { 14 } else if c == 'f' || c == 'F' { 15 }
    else { 16 }
}

pub(crate) fn hex_digit_char(v: u32) -> (c: char)
    requires
        v < 16,
    ensures
        c == spec_hex_digit_char(v),
{
    if v == 0 { '0' } else if v == 1 { '1' } else if v == 2 { '2' } else if v == 3 { '3' }
    else if v == 4 { '4' } else if v == 5 { '5' } else if v == 6 { '6' } else if v == 7 { '7' }
    else if v == 8 { '8' } else if v == 9 { '9' } else if v == 10 { 'a' } else if v == 11 { 'b' }
    else if v == 12 { 'c' } else if v == 13 { 'd' } else if v == 14 { 'e' } else { 'f' }
}

/// The character denoted by a two-character escape `\c` (identity for the
/// self-representing ones `"`, `\` and `/`).
pub open spec fn spec_unescaped_simple(c: char) -> char {
    if c == 'n' { '\n' } else if c == 'r' { '\r' } else if c == 't' { '\t' } else { c }
}

/// The unescape rules applied to a whole character sequence: `\` opens an
/// escape and must be followed by `"`, `\`, `/`, `n`, `r`, `t`, or by `u` and
/// four hex digits whose value must not be a surrogate; every other character
/// stands for itself.
pub open spec fn spec_unescape(s: Seq<char>) -> Result<Seq<char>, EscapeError>
    decreases s.len(),
{
    if s.len() == 0 {
        Result::Ok(Seq::empty())
    } else if s[0] != '\\' {
        match spec_unescape(s.drop_first()) {
            Result::Ok(r) => Result::Ok(seq![s[0]] + r),
            Result::Err(e) => Result::Err(e),
        }
    } else if s.len() == 1 {
        Result::Err(EscapeError::UnexpectedEof)
    } else if s[1] == '"' || s[1] == '\\' || s[1] == '/' || s[1] == 'n' || s[1] == 'r'
        || s[1] == 't' {
        match spec_unescape(s.skip(2)) {
            Result::Ok(r) => Result::Ok(seq![spec_unescaped_simple(s[1])] + r),
            Result::Err(e) => Result::Err(e),
        }
    } else if s[1] == 'u' {
        if s.len() <= 2 {
            Result::Err(EscapeError::UnexpectedEof)
        } else if spec_hex_digit_value(s[2]) >= 16 {
            Result::Err(EscapeError::UnexpectedCharacter(1, s[2]))
        } else if s.len() <= 3 {
            Result::Err(EscapeError::UnexpectedEof)
        } else if spec_hex_digit_value(s[3]) >= 16 {
            Result::Err(EscapeError::UnexpectedCharacter(2, s[3]))
        } else if s.len() <= 4 {
            Result::Err(EscapeError::UnexpectedEof)
        } else if spec_hex_digit_value(s[4]) >= 16 {
            Result::Err(EscapeError::UnexpectedCharacter(3, s[4]))
        } else if s.len() <= 5 {
            Result::Err(EscapeError::UnexpectedEof)
        } else if spec_hex_digit_value(s[5]) >= 16 {
            Result::Err(EscapeError::UnexpectedCharacter(4, s[5]))
        } else {
            let n = spec_hex_digit_value(s[2]) * 4096 + spec_hex_digit_value(s[3]) * 256
                + spec_hex_digit_value(s[4]) * 16 + spec_hex_digit_value(s[5]);
            if 0xD800 <= n < 0xE000 {
                Result::Err(EscapeError::InvalidCharacter(n as u16))
            } else {
                match spec_unescape(s.skip(6)) {
                    Result::Ok(r) => Result::Ok(seq![(n as u32) as char] + r),
                    Result::Err(e) => Result::Err(e),
                }
            }
        }
    } else {
        Result::Err(EscapeError::UnexpectedCharacter(0, s[1]))
    }
}

/// The escaped form of one character: `"`, `\` and the three named control
/// characters get a two-character escape; the other printable ASCII
/// characters and every character beyond the basic multilingual plane stand
/// for themselves; the rest of the plane becomes `\u` and the four hex
/// digits of its value.
pub open spec fn spec_escape_char(c: char) -> Seq<char> {
    if c == '"' {
        seq!['\\', '"']
    } else if c == '\\' {
        seq!['\\', '\\']
    } else if c == '\n' {
        seq!['\\', 'n']
    } else if c == '\r' {
        seq!['\\', 'r']
    } else if c == '\t' {
        seq!['\\', 't']
    } else if 0x20 <= c as u32 <= 0x7E || c as u32 >= 0x10000 {
        seq![c]
    } else {
        let code = c as u32;
        seq!['\\', 'u', spec_hex_digit_char(code / 4096), spec_hex_digit_char((code / 256) % 16),
            spec_hex_digit_char((code / 16) % 16), spec_hex_digit_char(code % 16)]
    }
}

/// The escape rules applied to a whole character sequence.
pub open spec fn spec_escape(s: Seq<char>) -> Seq<char>
    decreases s.len(),
{
    if s.len() == 0 {
        Seq::empty()
    } else {
        spec_escape_char(s[0]) + spec_escape(s.drop_first())
    }
}

/// Interprets the escape sequences of `input`, the raw text of a string
/// literal, per the unescape rules.
pub fn unescape_str(input: &str) -> (r: Result<String, EscapeError>)
    ensures
        match r {
            Result::Ok(out) => spec_unescape(input@) == Result::<Seq<char>, EscapeError>::Ok(out@),
            Result::Err(e) => spec_unescape(input@) == Result::<Seq<char>, EscapeError>::Err(e),
        },
{
    let ghost s = input@;
    let n = input.unicode_len();
    let mut out: Vec<char> = Vec::new();
    let mut i: usize = 0;
    proof {
        assert(s.skip(0) =~= s);
    }

    while i < n
        invariant
            n == s.len(),
            0 <= i <= n,
            s == input@,
            spec_unescape(s) == (match spec_unescape(s.skip(i as int)) {
                Result::<Seq<char>, EscapeError>::Ok(rest) =>
                    Result::<Seq<char>, EscapeError>::Ok(out@ + rest),
                Result::<Seq<char>, EscapeError>::Err(e) =>
                    Result::<Seq<char>, EscapeError>::Err(e),
            }),
        decreases n - i,
    {
        let ghost tail = s.skip(i as int);
        proof {
            assert(tail[0] == s[i as int]);
        }
        let c = input.get_char(i);

        if c != '\\' {
            proof {
                assert(tail.drop_first() =~= s.skip(i + 1));
            }
            let ghost prev_out = out@;
            out.push(c);
            i = i + 1;
            proof {
                if let Result::Ok(rest) = spec_unescape(s.skip(i as int)) {
                    assert(out@ + rest =~= prev_out + (seq![c] + rest));
                }
            }
        } else {
            if i + 1 >= n {
                proof {
                    assert(tail.len() == 1);
                }
                return Result::Err(EscapeError::UnexpectedEof);
            }
            proof {
                assert(tail[1] == s[i + 1]);
            }
            let c2 = input.get_char(i + 1);
            if c2 == '"' || c2 == '\\' || c2 == '/' || c2 == 'n' || c2 == 'r' || c2 == 't' {
                proof {
                    assert(tail.skip(2) =~= s.skip(i + 2));
                }
                let u = if c2 == 'n' { '\n' } else if c2 == 'r' { '\r' }
                    else if c2 == 't' { '\t' } else { c2 };
                let ghost prev_out = out@;
                out.push(u);
                i = i + 2;
                proof {
                    if let Result::Ok(rest) = spec_unescape(s.skip(i as int)) {
                        assert(out@ + rest =~= prev_out + (seq![u] + rest));
                    }
                }
            } else if c2 == 'u' {
                let mut acc: u32 = 0;
                let mut k: usize = 0;
                while k < 4
                    invariant
                        0 <= k <= 4,
                        i + 2 + k <= n + 1,
                        i + 1 < n,
                        n == s.len(),
                        s == input@,
                        tail == s.skip(i as int),
                        s[i as int] == '\\', s[i + 1] == 'u',
                        spec_unescape(s) == (match spec_unescape(s.skip(i as int)) {
                            Result::<Seq<char>, EscapeError>::Ok(rest) =>
                                Result::<Seq<char>, EscapeError>::Ok(out@ + rest),
                            Result::<Seq<char>, EscapeError>::Err(e) =>
                                Result::<Seq<char>, EscapeError>::Err(e),
                        }),
                        acc <= 0xFFFF,
                        k <= 3 ==> acc < 0x1000,
                        k == 0 ==> acc == 0,
                        k >= 1 ==> i + 2 < n && spec_hex_digit_value(s[i + 2]) < 16,
                        k >= 2 ==> i + 3 < n && spec_hex_digit_value(s[i + 3]) < 16,
                        k >= 3 ==> i + 4 < n && spec_hex_digit_value(s[i + 4]) < 16,
                        k >= 4 ==> i + 5 < n && spec_hex_digit_value(s[i + 5]) < 16,
                        k == 1 ==> acc == spec_hex_digit_value(s[i + 2]),
                        k == 2 ==> acc == spec_hex_digit_value(s[i + 2]) * 16
                            + spec_hex_digit_value(s[i + 3]),
                        k == 3 ==> acc == spec_hex_digit_value(s[i + 2]) * 256
                            + spec_hex_digit_value(s[i + 3]) * 16
                            + spec_hex_digit_value(s[i + 4]),
                        k == 4 ==> acc == spec_hex_digit_value(s[i + 2]) * 4096
                            + spec_hex_digit_value(s[i + 3]) * 256
                            + spec_hex_digit_value(s[i + 4]) * 16
                            + spec_hex_digit_value(s[i + 5]),
                    decreases 4 - k,
                {
                    proof {
                        assert(tail[0] == s[i as int]);
                        assert(tail[1] == s[i + 1]);
                        if i + 2 < n { assert(tail[2] == s[i + 2]); }
                        if i + 3 < n { assert(tail[3] == s[i + 3]); }
                        if i + 4 < n { assert(tail[4] == s[i + 4]); }
                        if i + 5 < n { assert(tail[5] == s[i + 5]); }
                    }
                    if i + 2 + k >= n {
                        proof {
                            assert(tail.len() <= 2 + k);
                        }
                        return Result::Err(EscapeError::UnexpectedEof);
                    }
                    let d = input.get_char(i + 2 + k);
                    let v = hex_digit_value(d);
                    if v >= 16 {
                        #[verifier::truncate]
                        let off: i32 = (1 + k) as i32;
                        return Result::Err(EscapeError::UnexpectedCharacter(off, d));
                    }
                    acc = acc * 16 + v;
                    k = k + 1;
                }
                proof {
                    assert(tail[2] == s[i + 2]);
                    assert(tail[3] == s[i + 3]);
                    assert(tail[4] == s[i + 4]);
                    assert(tail[5] == s[i + 5]);
                }
                if acc >= 0xD800 && acc < 0xE000 {
                    #[verifier::truncate]
                    let unit: u16 = acc as u16;
                    return Result::Err(EscapeError::InvalidCharacter(unit));
                }
                let ch = match char::from_u32(acc) {
                    Option::Some(ch) => ch,
                    Option::None => {
                        proof {
                            assert(false);
                        }
                        '0'
                    },
                };
                proof {
                    assert(tail.skip(6) =~= s.skip(i + 6));
                    vstd::utf8::char_u32_cast(ch, acc);
                    assert(tail[0] == '\\' && tail[1] == 'u');
                    let n = spec_hex_digit_value(tail[2]) * 4096 + spec_hex_digit_value(tail[3])
                        * 256 + spec_hex_digit_value(tail[4]) * 16 + spec_hex_digit_value(
                        tail[5]);
                    assert(n == acc as int);
                    assert((n as u32) == acc);
                    assert((n as u32) as char == ch);
                    assert(spec_unescape(tail) == (match spec_unescape(s.skip(i + 6)) {
                        Result::<Seq<char>, EscapeError>::Ok(r) =>
                            Result::<Seq<char>, EscapeError>::Ok(seq![ch] + r),
                        Result::<Seq<char>, EscapeError>::Err(e) =>
                            Result::<Seq<char>, EscapeError>::Err(e),
                    }));
                }
                let ghost prev_out = out@;
                out.push(ch);
                i = i + 6;
                proof {
                    if let Result::Ok(rest) = spec_unescape(s.skip(i as int)) {
                        assert(out@ + rest =~= prev_out + (seq![ch] + rest));
                    }
                }
            } else {
                return Result::Err(EscapeError::UnexpectedCharacter(0, c2));
            }
        }
    }
    proof {
        assert(s.skip(n as int) =~= Seq::<char>::empty());
        assert(out@ + Seq::<char>::empty() =~= out@);
    }
    Result::Ok(chars_to_string(out))
}

/// The escaped form of one character, per the escape rules.
pub fn escape_character(c: char) -> (r: String)
    ensures
        r@ == spec_escape_char(c),
{
    let mut out: Vec<char> = Vec::new();
    if c == '"' {
        out.push('\\');
        out.push('"');
    } else if c == '\\' {
        out.push('\\');
        out.push('\\');
    } else if c == '\n' {
        out.push('\\');
        out.push('n');
    } else if c == '\r' {
        out.push('\\');
        out.push('r');
    } else if c == '\t' {
        out.push('\\');
        out.push('t');
    } else if (c as u32 >= 0x20 && c as u32 <= 0x7E) || c as u32 >= 0x10000 {
        out.push(c);
    } else {
        let code = c as u32;
        out.push('\\');
        out.push('u');
        out.push(hex_digit_char(code / 4096));
        out.push(hex_digit_char((code / 256) % 16));
        out.push(hex_digit_char((code / 16) % 16));
        out.push(hex_digit_char(code % 16));
    }
    proof {
        assert(out@ =~= spec_escape_char(c));
    }
    chars_to_string(out)
}

/// The escape rules applied to every character of `s`, concatenated.
pub fn escape_str(s: &str) -> (r: String)
    ensures
        r@ == spec_escape(s@),
{
    let ghost sv = s@;
    let n = s.unicode_len();
    let mut out: Vec<char> = Vec::new();
    let mut i: usize = 0;
    while i < n
        invariant
            n == sv.len(),
            0 <= i <= n,
            sv == s@,
            out@ == spec_escape(sv.take(i as int)),
        decreases n - i,
    {
        let c = s.get_char(i);
        let piece = escape_character(c);
        let ghost old_out = out@;
        append_str_chars(&mut out, piece.as_str());
        i = i + 1;
        proof {
            lemma_escape_snoc(sv.take(i - 1), c);
            assert(sv.take(i - 1).push(c) =~= sv.take(i as int));
        }
    }
    proof {
        assert(sv.take(n as int) =~= sv);
    }
    chars_to_string(out)
}

/// Appends every character of `s` to `out`.
pub(crate) fn append_str_chars(out: &mut Vec<char>, s: &str)
    ensures
        final(out)@ == old(out)@ + s@,
{
    let n = s.unicode_len();
    let mut i: usize = 0;
    while i < n
        invariant
            n == s@.len(),
            0 <= i <= n,
            out@ == old(out)@ + s@.take(i as int),
        decreases n - i,
    {
        let c = s.get_char(i);
        out.push(c);
        i = i + 1;
        proof {
            assert((old(out)@ + s@.take(i - 1)).push(s@[i - 1])
                =~= old(out)@ + s@.take(i as int));
        }
    }
    proof {
        assert(s@.take(n as int) =~= s@);
    }
}

/// Escaping a sequence and then one more character appends that character's
/// escaped form.
proof fn lemma_escape_snoc(s: Seq<char>, c: char)
    ensures
        spec_escape(s.push(c)) == spec_escape(s) + spec_escape_char(c),
    decreases s.len(),
{
    if s.len() == 0 {
        assert(s.push(c).drop_first() =~= Seq::<char>::empty());
        assert(s.push(c)[0] == c);
        assert(spec_escape(s.push(c))
            == spec_escape_char(c) + spec_escape(s.push(c).drop_first()));
        assert(spec_escape(s.push(c).drop_first()) == Seq::<char>::empty());
        assert(spec_escape_char(c) + Seq::<char>::empty() =~= spec_escape_char(c));
        assert(Seq::<char>::empty() + spec_escape_char(c) =~= spec_escape_char(c));
        assert(spec_escape(s) == Seq::<char>::empty());
        assert(spec_escape(s.push(c)) == spec_escape(s) + spec_escape_char(c));
    } else {
        lemma_escape_snoc(s.drop_first(), c);
        assert(s.push(c).drop_first() =~= s.drop_first().push(c));
        assert(s.push(c)[0] == s[0]);
        assert(spec_escape(s.push(c))
            == spec_escape_char(s[0]) + spec_escape(s.drop_first().push(c)));
        assert(spec_escape(s.drop_first().push(c))
            == spec_escape(s.drop_first()) + spec_escape_char(c));
        assert(spec_escape_char(s[0]) + (spec_escape(s.drop_first()) + spec_escape_char(c))
            =~= (spec_escape_char(s[0]) + spec_escape(s.drop_first())) + spec_escape_char(c));
        assert(spec_escape(s) == spec_escape_char(s[0]) + spec_escape(s.drop_first()));
        assert(spec_escape(s.push(c)) == spec_escape(s) + spec_escape_char(c));
    }
}

/// Escaping one character and unescaping the result gives back exactly that
/// character, in front of whatever the rest unescapes to.
proof fn lemma_unescape_escape_char(c: char, t: Seq<char>)
    ensures
        spec_unescape(spec_escape_char(c) + t) == (match spec_unescape(t) {
            Result::<Seq<char>, EscapeError>::Ok(r) =>
                Result::<Seq<char>, EscapeError>::Ok(seq![c] + r),
            Result::<Seq<char>, EscapeError>::Err(e) =>
                Result::<Seq<char>, EscapeError>::Err(e),
        }),
{
    let e = spec_escape_char(c);
    if c == '"' || c == '\\' || c == '\n' || c == '\r' || c == '\t' {
        assert((e + t)[0] == '\\');
        assert((e + t)[1] == e[1]);
        assert((e + t).skip(2) =~= t);
        assert(spec_unescaped_simple(e[1]) == c);
    } else if 0x20 <= c as u32 <= 0x7E || c as u32 >= 0x10000 {
        assert((e + t)[0] == c);
        assert(c != '\\');
        assert(c != '"');
        assert((e + t).drop_first() =~= t);
    } else {
        let code = c as u32;
        let h0 = spec_hex_digit_char(code / 4096);
        let h1 = spec_hex_digit_char((code / 256) % 16);
        let h2 = spec_hex_digit_char((code / 16) % 16);
        let h3 = spec_hex_digit_char(code % 16);
        assert((e + t)[0] == '\\');
        assert((e + t)[1] == 'u');
        assert((e + t)[2] == h0);
        assert((e + t)[3] == h1);
        assert((e + t)[4] == h2);
        assert((e + t)[5] == h3);
        assert((e + t).len() >= 6);
        assert(code / 4096 < 16 && (code / 256) % 16 < 16 && (code / 16) % 16 < 16 && code % 16
            < 16) by (bit_vector)
            requires
                code < 0x10000u32,
        ;
        assert(spec_hex_digit_value(h0) == code / 4096);
        assert(spec_hex_digit_value(h1) == (code / 256) % 16);
        assert(spec_hex_digit_value(h2) == (code / 16) % 16);
        assert(spec_hex_digit_value(h3) == code % 16);
        let n = spec_hex_digit_value(h0) * 4096 + spec_hex_digit_value(h1) * 256
            + spec_hex_digit_value(h2) * 16 + spec_hex_digit_value(h3);
        assert((code / 4096) * 4096 + ((code / 256) % 16) * 256 + ((code / 16) % 16) * 16 + code
            % 16 == code) by (bit_vector)
            requires
                code < 0x10000u32,
        ;
        assert(n == code as int);
        vstd::utf8::char_is_scalar(c);
        assert(!(0xD800 <= n < 0xE000));
        assert((n as u32) == c as u32);
        vstd::utf8::char_u32_cast(c, c as u32);
        assert((n as u32) as char == c);
        assert((e + t).skip(6) =~= t);
    }
}

/// The round-trip law of the escape rules: un-escaping the escaped form of
/// any character sequence gives the sequence back.
pub proof fn lemma_unescape_escape(s: Seq<char>)
    ensures
        spec_unescape(spec_escape(s)) == Result::<Seq<char>, EscapeError>::Ok(s),
    decreases s.len(),
{
    if s.len() == 0 {
        assert(s =~= Seq::<char>::empty());
        assert(spec_escape(s) == Seq::<char>::empty());
    } else {
        lemma_unescape_escape(s.drop_first());
        lemma_unescape_escape_char(s[0], spec_escape(s.drop_first()));
        assert(spec_escape(s) == spec_escape_char(s[0]) + spec_escape(s.drop_first()));
        assert(seq![s[0]] + s.drop_first() =~= s);
    }
}

/// `acc` extended by `x` unless an element equal to `x` is already there.
pub open spec fn spec_distinct_push<T: PartialEq>(acc: Seq<T>, x: T) -> Seq<T> {
    if exists|j: int| 0 <= j < acc.len() && acc[j].eq_spec(&x) {
        acc
    } else {
        acc.push(x)
    }
}

/// The first occurrences of the values of `s`, in order: each element is
/// kept unless an earlier kept element equals it.
pub open spec fn spec_distinct<T: PartialEq>(s: Seq<T>) -> Seq<T>
    decreases s.len(),
{
    if s.len() == 0 {
        Seq::empty()
    } else {
        spec_distinct_push(spec_distinct(s.drop_last()), s.last())
    }
}

/// Removes every element that equals an earlier element, keeping first
/// occurrences and their order, and hands the vector back.
pub fn distinct<T: PartialEq>(vector: &mut Vec<T>) -> (r: &mut Vec<T>)
    ensures
        T::obeys_eq_spec() ==> (*r)@ == spec_distinct(old(vector)@),
        *final(vector) == *final(r),
{
    let ghost orig = vector@;
    if vector.len() == 0 {
        proof {
            if T::obeys_eq_spec() {
                assert(orig =~= Seq::<T>::empty());
                assert(spec_distinct(orig) =~= Seq::<T>::empty());
                assert(vector@ =~= Seq::<T>::empty());
            }
        }
        return vector;
    }
    let mut i: usize = 1;
    let ghost m: int = 1int;
    proof {
        if T::obeys_eq_spec() {
            assert(orig.take(1).drop_last() =~= Seq::<T>::empty());
            assert(orig.take(1).last() == orig[0]);
            assert(orig.take(1).len() == 1);
            assert(spec_distinct(orig.take(1).drop_last()) == Seq::<T>::empty());
            assert(spec_distinct(orig.take(1))
                == spec_distinct_push(Seq::<T>::empty(), orig[0]));
            assert(spec_distinct(orig.take(1)) =~= vector@.take(1));
            assert(vector@.skip(1) =~= orig.skip(1));
        }
    }

    while i < vector.len()
        invariant
            1 <= i <= vector.len(),
            T::obeys_eq_spec() ==> {
                &&& 0 <= m <= orig.len()
                &&& vector@.take(i as int) == spec_distinct(orig.take(m))
                &&& vector@.skip(i as int) == orig.skip(m)
            },
        decreases vector.len() - i,
    {
        let ghost pre = vector@;
        let mut j: usize = 0;
        let mut duplicate = false;

        while j < i
            invariant
                0 <= j <= i < vector.len(),
                vector@ == pre,
                T::obeys_eq_spec() ==> (duplicate <==> exists|j2: int|
                    0 <= j2 < j && pre[j2].eq_spec(&pre[i as int])),
            decreases i - j,
        {
            if vector[j] == vector[i] {
                duplicate = true;
            }
            j = j + 1;
        }

        proof {
            if T::obeys_eq_spec() {
                assert(pre.skip(i as int).len() > 0);
                assert(orig.skip(m).len() > 0);
                assert(m < orig.len());
                assert(pre[i as int] == orig[m]) by {
                    assert(pre.skip(i as int)[0] == pre[i as int]);
                    assert(orig.skip(m)[0] == orig[m]);
                }
                assert(orig.take(m + 1).drop_last() =~= orig.take(m));
                assert(orig.take(m + 1).last() == orig[m]);
                assert(spec_distinct(orig.take(m + 1))
                    == spec_distinct_push(spec_distinct(orig.take(m)), orig[m]));
                assert(forall|j2: int| 0 <= j2 < i
                    ==> #[trigger] spec_distinct(orig.take(m))[j2] == pre.take(i as int)[j2]);
                assert(forall|j2: int| 0 <= j2 < i ==> pre.take(i as int)[j2]
                    == #[trigger] pre[j2]);
            }
        }

        if duplicate {
            let ghost before = vector@;
            vector.remove(i);
            proof {
                if T::obeys_eq_spec() {
                    let j2 = choose|j2: int| 0 <= j2 < i && before[j2].eq_spec(
                        &before[i as int]);
                    assert(spec_distinct(orig.take(m))[j2] == before[j2]);
                    assert(spec_distinct(orig.take(m))[j2].eq_spec(&orig[m]));
                    assert(spec_distinct(orig.take(m + 1)) == spec_distinct(orig.take(m)));
                    assert(vector@.take(i as int) =~= before.take(i as int));
                    assert(before.skip(i + 1) =~= before.skip(i as int).drop_first());
                    assert(orig.skip(m + 1) =~= orig.skip(m).drop_first());
                    assert(vector@.skip(i as int) =~= before.skip(i + 1));
                }
                m = m + 1;
            }
        } else {
            i = i + 1;
            proof {
                if T::obeys_eq_spec() {
                    assert(forall|j2: int| 0 <= j2 < i - 1
                        ==> !(#[trigger] pre[j2]).eq_spec(&pre[i - 1]));
                    assert forall|j2: int| 0 <= j2 < spec_distinct(orig.take(m)).len()
                        implies !(#[trigger] spec_distinct(orig.take(m))[j2]).eq_spec(&orig[m])
                        by {
                        assert(spec_distinct(orig.take(m))[j2] == pre[j2]);
                    }
                    assert(spec_distinct(orig.take(m + 1))
                        == spec_distinct(orig.take(m)).push(orig[m]));
                    assert(vector@.take(i as int) =~= pre.take(i - 1).push(pre[i - 1]));
                    assert(pre.skip(i - 1).drop_first() =~= pre.skip(i as int));
                    assert(orig.skip(m + 1) =~= orig.skip(m).drop_first());
                    assert(vector@.skip(i as int) =~= orig.skip(m + 1));
                }
                m = m + 1;
            }
        }
    }
    proof {
        if T::obeys_eq_spec() {
            assert(vector@.skip(i as int).len() == 0);
            assert(orig.skip(m).len() == 0);
            assert(m == orig.len());
            assert(orig.take(m) =~= orig);
            assert(vector@.take(i as int) =~= vector@);
        }
    }
    vector
}

/// The escaped form of a character never contains a bare quote or a bare
/// backslash-at-the-end, so a string-literal scan walks over it whole.
proof fn lemma_escape_char_scans(c: char, t: Seq<char>)
    requires
        crate::parser::lexer::spec_string_body_len(t) matches Option::Some(b),
    ensures
        crate::parser::lexer::spec_string_body_len(spec_escape_char(c) + t)
            == Option::Some(spec_escape_char(c).len()
            + crate::parser::lexer::spec_string_body_len(t).unwrap()),
{
    let e = spec_escape_char(c);
    if c == '"' || c == '\\' || c == '\n' || c == '\r' || c == '\t' {
        assert((e + t)[0] == '\\');
        assert((e + t).len() >= 2);
        assert((e + t).skip(2) =~= t);
    } else if 0x20 <= c as u32 <= 0x7E || c as u32 >= 0x10000 {
        assert((e + t)[0] == c);
        assert(c != '"' && c != '\\');
        assert((e + t).drop_first() =~= t);
    } else {
        let code = c as u32;
        assert((e + t)[0] == '\\');
        assert((e + t).len() >= 6);
        assert((e + t).skip(2) =~= seq![spec_hex_digit_char(code / 4096), spec_hex_digit_char(
            (code / 256) % 16), spec_hex_digit_char((code / 16) % 16), spec_hex_digit_char(
            code % 16)] + t);
        assert(code / 4096 < 16 && (code / 256) % 16 < 16 && (code / 16) % 16 < 16 && code % 16
            < 16) by (bit_vector)
            requires
                code < 0x10000u32,
        ;
        lemma_hex_run_scans(seq![spec_hex_digit_char(code / 4096), spec_hex_digit_char(
            (code / 256) % 16), spec_hex_digit_char((code / 16) % 16), spec_hex_digit_char(
            code % 16)], t);
    }
}

/// A run of hex digits in a string literal is walked over one character at
/// a time.
proof fn lemma_hex_run_scans(h: Seq<char>, t: Seq<char>)
    requires
        crate::parser::lexer::spec_string_body_len(t) matches Option::Some(b),
        forall|i: int| 0 <= i < h.len() ==> spec_hex_digit_value(#[trigger] h[i]) < 16,
    ensures
        crate::parser::lexer::spec_string_body_len(h + t) == Option::Some(h.len()
            + crate::parser::lexer::spec_string_body_len(t).unwrap()),
    decreases h.len(),
{
    if h.len() == 0 {
        assert(h + t =~= t);
    } else {
        lemma_hex_run_scans(h.drop_first(), t);
        assert((h + t)[0] == h[0]);
        assert(spec_hex_digit_value(h[0]) < 16);
        assert(h[0] != '"' && h[0] != '\\');
        assert((h + t).drop_first() =~= h.drop_first() + t);
    }
}

/// The escaped form of a whole sequence is walked over by a string-literal
/// scan, stopping exactly at what follows it.
pub proof fn lemma_escape_scans(s: Seq<char>, t: Seq<char>)
    requires
        crate::parser::lexer::spec_string_body_len(t) matches Option::Some(b),
    ensures
        crate::parser::lexer::spec_string_body_len(spec_escape(s) + t) == Option::Some(
            spec_escape(s).len() + crate::parser::lexer::spec_string_body_len(t).unwrap()),
    decreases s.len(),
{
    if s.len() == 0 {
        assert(spec_escape(s) + t =~= t);
    } else {
        lemma_escape_scans(s.drop_first(), t);
        lemma_escape_char_scans(s[0], spec_escape(s.drop_first()) + t);
        assert(spec_escape(s) + t =~= spec_escape_char(s[0]) + (spec_escape(s.drop_first())
            + t));
    }
}

/// Relies on `String`'s `FromIterator<char>` of std: collecting an iterator
/// of characters yields the string of exactly those characters in order.
#[verifier::external_body]
pub(crate) fn chars_to_string(v: Vec<char>) -> (r: String)
    ensures
        r@ == v@,
{
    v.into_iter().collect()
}

/// Collects the characters of `s` into a vector, through vstd's
/// specification of the `Chars` iterator.
pub fn str_to_chars(s: &str) -> (v: Vec<char>)
    ensures
        v@ == s@,
{
    broadcast use vstd::string::group_string_axioms;

    let mut it = s.chars();
    let mut v: Vec<char> = Vec::new();
    loop
        invariant
            it.obeys_prophetic_iter_laws(),
            it.decrease() is Some,
            v@ + it.remaining() == s@,
        decreases it.decrease().unwrap(),
    {
        match it.next() {
            Option::Some(c) => {
                proof {
                    assert(v@.push(c) + it.remaining() =~= v@ + (seq![c] + it.remaining()));
                }
                v.push(c);
            },
            Option::None => {
                proof {
                    assert(v@ + it.remaining() =~= v@);
                }
                return v;
            },
        }
    }
}

/// Whether two strings hold exactly the same characters.
pub fn str_eq(a: &str, b: &str) -> (r: bool)
    ensures
        r == (a@ == b@),
{
    let na = a.unicode_len();
    let nb = b.unicode_len();
    if na != nb {
        proof {
            assert(a@.len() != b@.len());
        }
        return false;
    }
    let mut i: usize = 0;
    while i < na
        invariant
            na == a@.len(),
            na == b@.len(),
            0 <= i <= na,
            forall|j: int| 0 <= j < i ==> a@[j] == b@[j],
        decreases na - i,
    {
        if a.get_char(i) != b.get_char(i) {
            proof {
                assert(a@[i as int] != b@[i as int]);
            }
            return false;
        }
        i = i + 1;
    }
    proof {
        assert(a@ =~= b@);
    }
    true
}

} // verus!
