//! Small text helpers shared by the registries and the protocol frames:
//! the decimal form of a signed 8-bit index, parsing such an index back
//! from a request string, and ASCII-case-insensitive matching of enum names.

use vstd::prelude::*;

verus! {

/// The character for one decimal digit.
pub open spec fn digit_char(d: int) -> char {
    if d == 0 {
        '0'
    } else if d == 1 {
        '1'
    } else if d == 2 {
        '2'
    } else if d == 3 {
        '3'
    } else if d == 4 {
        '4'
    } else if d == 5 {
        '5'
    } else if d == 6 {
        '6'
    } else if d == 7 {
        '7'
    } else if d == 8 {
        '8'
    } else {
        '9'
    }
}

/// The decimal digits of a non-negative integer, most significant first;
/// empty for zero.
pub open spec fn dec_digits(n: int) -> Seq<char>
    decreases n,
{
    if n <= 0 {
        Seq::empty()
    } else {
        dec_digits(n / 10).push(digit_char(n % 10))
    }
}

/// The decimal form of an integer, with a leading minus sign when negative.
pub open spec fn int_repr(n: int) -> Seq<char> {
    if n == 0 {
        seq!['0']
    } else if n < 0 {
        seq!['-'] + dec_digits(-n)
    } else {
        dec_digits(n)
    }
}

fn digit_str(d: u32) -> (r: &'static str)
    requires
        d < 10,
    ensures
        r@ == seq![digit_char(d as int)],
{
    proof {
        reveal_strlit("0");
        reveal_strlit("1");
        reveal_strlit("2");
        reveal_strlit("3");
        reveal_strlit("4");
        reveal_strlit("5");
        reveal_strlit("6");
        reveal_strlit("7");
        reveal_strlit("8");
        reveal_strlit("9");
    }
    let r = match d {
        0 => "0",
        1 => "1",
        2 => "2",
        3 => "3",
        4 => "4",
        5 => "5",
        6 => "6",
        7 => "7",
        8 => "8",
        _ => "9",
    };
    proof {
        assert(r@ =~= seq![digit_char(d as int)]);
    }
    r
}

/// The decimal string of a signed 8-bit index, as it is shown to clients
/// and written into protocol frames.
pub fn i8_to_string(n: i8) -> (r: String)
    ensures
        r@ == int_repr(n as int),
{
    let v: i32 = n as i32;
    if v == 0 {
        proof {
            reveal_strlit("0");
            assert("0"@ =~= seq!['0']);
        }
        return String::from_str("0");
    }
    let mag0: u32 = if v < 0 {
        (-v) as u32
    } else {
        v as u32
    };
    let mut m: u32 = mag0;
    let mut acc = String::new();
    proof {
        assert(dec_digits(mag0 as int) =~= dec_digits(m as int) + acc@);
    }
    while m > 0
        invariant
            dec_digits(mag0 as int) == dec_digits(m as int) + acc@,
        decreases m,
    {
        let d: u32 = m % 10;
        let ghost pre_m = m as int;
        let ghost pre_acc = acc@;
        let piece = String::from_str(digit_str(d));
        let next = piece.concat(acc.as_str());
        acc = next;
        m = m / 10;
        proof {
            assert(dec_digits(pre_m) =~= dec_digits(pre_m / 10) + seq![digit_char(pre_m % 10)]);
            assert(dec_digits(pre_m / 10) + (seq![digit_char(pre_m % 10)] + pre_acc) =~= (
            dec_digits(pre_m / 10) + seq![digit_char(pre_m % 10)]) + pre_acc);
            assert(dec_digits(mag0 as int) =~= dec_digits(m as int) + acc@);
        }
    }
    proof {
        assert(dec_digits(mag0 as int) =~= acc@);
    }
    if v < 0 {
        proof {
            reveal_strlit("-");
            assert("-"@ =~= seq!['-']);
        }
        let signed = String::from_str("-").concat(acc.as_str());
        proof {
            assert(signed@ =~= int_repr(n as int));
        }
        signed
    } else {
        proof {
            assert(acc@ =~= int_repr(n as int));
        }
        acc
    }
}

/// Whether a character is an ASCII decimal digit.
pub open spec fn is_digit(c: char) -> bool {
    48 <= c as u32 <= 57
}

/// The numeric value of an ASCII decimal digit.
pub open spec fn digit_val(c: char) -> int {
    c as u32 - 48
}

/// The value of a string of decimal digits, most significant first.
pub open spec fn digits_val(s: Seq<char>) -> int
    decreases s.len(),
{
    if s.len() == 0 {
        0
    } else {
        digits_val(s.drop_last()) * 10 + digit_val(s.last())
    }
}

/// Whether every character of a string is an ASCII decimal digit.
pub open spec fn all_digits(s: Seq<char>) -> bool {
    forall|i: int| 0 <= i < s.len() ==> is_digit(#[trigger] s[i])
}

/// The digits of a signed decimal literal: everything after an optional
/// leading sign.
pub open spec fn signed_body(s: Seq<char>) -> Seq<char> {
    if s.len() > 0 && (s[0] == '-' || s[0] == '+') {
        s.drop_first()
    } else {
        s
    }
}

/// The sign of a signed decimal literal.
pub open spec fn sign_of(s: Seq<char>) -> int {
    if s.len() > 0 && s[0] == '-' {
        -1
    } else {
        1
    }
}

/// The integer denoted by a signed decimal literal: an optional sign,
/// then one or more ASCII digits.  `None` for anything else.
pub open spec fn parse_int_spec(s: Seq<char>) -> Option<int> {
    if signed_body(s).len() > 0 && all_digits(signed_body(s)) {
        Some(sign_of(s) * digits_val(signed_body(s)))
    } else {
        None
    }
}

/// The signed 8-bit index a request string denotes, if its value fits.
pub open spec fn parse_i8_spec(s: Seq<char>) -> Option<i8> {
    if parse_int_spec(s) matches Some(v) && i8::MIN <= v <= i8::MAX {
        Some(parse_int_spec(s)->Some_0 as i8)
    } else {
        None
    }
}

proof fn lemma_digits_val_step(s: Seq<char>, i: int)
    requires
        0 <= i < s.len(),
    ensures
        digits_val(s.subrange(0, i + 1)) == digits_val(s.subrange(0, i)) * 10 + digit_val(s[i]),
{
    let pre = s.subrange(0, i + 1);
    assert(pre.drop_last() =~= s.subrange(0, i));
    assert(pre.last() == s[i]);
}

/// Parses a signed 8-bit index from a request string: an optional sign,
/// then decimal digits, accepted exactly when the denoted value fits.
pub fn parse_i8(s: &str) -> (r: Option<i8>)
    ensures
        r is Some <==> (parse_int_spec(s@) matches Some(v) && i8::MIN <= v <= i8::MAX),
        r matches Some(n) ==> parse_int_spec(s@) == Some(n as int),
{
    let n = s.unicode_len();
    let mut start: usize = 0;
    let mut negative = false;
    if n > 0 {
        let c0 = s.get_char(0);
        if c0 == '-' {
            negative = true;
            start = 1;
        } else if c0 == '+' {
            start = 1;
        }
    }
    proof {
        assert(signed_body(s@) =~= s@.subrange(start as int, n as int));
        assert(sign_of(s@) == if negative { -1int } else { 1int });
    }
    if start == n {
        // no digits at all
        return None;
    }
    let ghost body = signed_body(s@);
    let mut acc: u32 = 0;
    let mut i: usize = start;
    while i < n
        invariant
            start <= i <= n,
            n == s@.len(),
            start < n,
            body == s@.subrange(start as int, n as int),
            body == signed_body(s@),
            negative == (s@.len() > 0 && s@[0] == '-'),
            all_digits(s@.subrange(start as int, i as int)),
            acc <= 9999,
            digits_val(s@.subrange(start as int, i as int)) < 1000 ==> acc == digits_val(
                s@.subrange(start as int, i as int),
            ),
            digits_val(s@.subrange(start as int, i as int)) >= 1000 ==> acc >= 1000,
            digits_val(s@.subrange(start as int, i as int)) >= 0,
        decreases n - i,
    {
        let c = s.get_char(i);
        let u = c as u32;
        if u < 48 || u > 57 {
            proof {
                assert(body[i - start] == s@[i as int]);
                assert(!is_digit(body[i - start]));
                assert(!all_digits(body));
                assert(parse_int_spec(s@) is None);
            }
            return None;
        }
        let ghost pre = s@.subrange(start as int, i as int);
        proof {
            lemma_digits_val_step(s@.subrange(start as int, n as int), i - start);
            assert(s@.subrange(start as int, n as int).subrange(0, i - start) =~= pre);
            assert(s@.subrange(start as int, n as int).subrange(0, i - start + 1) =~= s@.subrange(
                start as int,
                i as int + 1,
            ));
            assert(s@.subrange(start as int, i as int + 1) =~= pre.push(s@[i as int]));
            assert(forall|j: int|
                0 <= j < pre.push(s@[i as int]).len() ==> is_digit(
                    #[trigger] pre.push(s@[i as int])[j],
                ));
        }
        if acc < 1000 {
            acc = acc * 10 + (u - 48);
        }
        i = i + 1;
    }
    proof {
        assert(s@.subrange(start as int, i as int) =~= body);
        assert(parse_int_spec(s@) == Some(sign_of(s@) * digits_val(body)));
    }
    proof {
        if digits_val(body) >= 1000 {
            assert(acc >= 1000);
        } else {
            assert(acc == digits_val(body));
        }
    }
    if negative {
        if acc > 128 {
            proof {
                assert(digits_val(body) > 128);
            }
            return None;
        }
        let v: i32 = -(acc as i32);
        Some(v as i8)
    } else {
        if acc > 127 {
            proof {
                assert(digits_val(body) > 127);
            }
            return None;
        }
        Some(acc as i8)
    }
}

/// A character folded to ASCII lower case.
pub open spec fn lower_char(c: char) -> char {
    if 65 <= c as u32 <= 90 {
        ((c as u8) + 32) as char
    } else {
        c
    }
}

/// A string folded to ASCII lower case.
pub open spec fn lower_seq(s: Seq<char>) -> Seq<char> {
    s.map_values(|c: char| lower_char(c))
}

fn lower_char_exec(c: char) -> (r: char)
    ensures
        r == lower_char(c),
{
    let u = c as u32;
    if 65 <= u && u <= 90 {
        (((u as u8)) + 32) as char
    } else {
        c
    }
}

/// Whether two strings are equal up to ASCII case; used to match the
/// human-readable protocol and device-kind names in requests.
pub fn eq_ignore_ascii_case(s: &str, t: &str) -> (r: bool)
    ensures
        r == (lower_seq(s@) == lower_seq(t@)),
{
    let n = s.unicode_len();
    let m = t.unicode_len();
    if n != m {
        proof {
            assert(lower_seq(s@).len() != lower_seq(t@).len());
        }
        return false;
    }
    let mut i: usize = 0;
    while i < n
        invariant
            0 <= i <= n,
            n == s@.len(),
            n == t@.len(),
            forall|j: int| 0 <= j < i ==> lower_seq(s@)[j] == lower_seq(t@)[j],
        decreases n - i,
    {
        let a = lower_char_exec(s.get_char(i));
        let b = lower_char_exec(t.get_char(i));
        if a != b {
            proof {
                assert(lower_seq(s@)[i as int] != lower_seq(t@)[i as int]);
            }
            return false;
        }
        i = i + 1;
    }
    proof {
        assert(lower_seq(s@) =~= lower_seq(t@));
    }
    true
}

} // verus!
