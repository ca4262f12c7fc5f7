//! The save path. A capture is written to
//! `W<screen width>H<screen height>/screenshot_<milliseconds>_Lx<x>Ty<y>W<w>H<h>.webp`,
//! where the four numbers after the underscore are the committed red
//! rectangle, whatever sub-rectangle supplies the pixels. The formatting is
//! verified digit by digit, and a specification-level parser proves that the
//! red rectangle can be recovered from the name exactly.

use vstd::prelude::*;
use crate::geom::Rect;

verus! {

/// `c` is a decimal digit.
pub open spec fn is_digit(c: char) -> bool {
    c == '0' || c == '1' || c == '2' || c == '3' || c == '4' || c == '5' || c == '6' || c == '7'
        || c == '8' || c == '9'
}

/// The digit character for a value below ten.
pub open spec fn digit_char(d: int) -> char {
    if d == 0 {
        '0'
    } else if d == 1 {
        '1'
    } else if d == 2 {
        '2'
    } else if d == 3 {
        '3'
    } else if d == 4 {
        '4'
    } else if d == 5 {
        '5'
    } else if d == 6 {
        '6'
    } else if d == 7 {
        '7'
    } else if d == 8 {
        '8'
    } else {
        '9'
    }
}

/// The value of a digit character.
pub open spec fn digit_val(c: char) -> int {
    if c == '0' {
        0
    } else if c == '1' {
        1
    } else if c == '2' {
        2
    } else if c == '3' {
        3
    } else if c == '4' {
        4
    } else if c == '5' {
        5
    } else if c == '6' {
        6
    } else if c == '7' {
        7
    } else if c == '8' {
        8
    } else {
        9
    }
}

/// The decimal digits of `n`, most significant first, without leading zeros
/// (`0` itself is written `"0"`).
pub open spec fn dec_digits(n: nat) -> Seq<char>
    decreases n,
{
    if n < 10 {
        seq![digit_char(n as int)]
    } else {
        dec_digits(n / 10) + seq![digit_char((n % 10) as int)]
    }
}

/// The number a digit string denotes.
pub open spec fn val_of(s: Seq<char>) -> int
    decreases s.len(),
{
    if s.len() == 0 {
        0
    } else {
        val_of(s.drop_last()) * 10 + digit_val(s.last())
    }
}

/// A decimal rendering is nonempty and holds digits only.
pub proof fn lemma_dec_digits_are_digits(n: nat)
    ensures
        dec_digits(n).len() >= 1,
        forall|i: int| 0 <= i < dec_digits(n).len() ==> is_digit(#[trigger] dec_digits(n)[i]),
    decreases n,
{
    if n >= 10 {
        lemma_dec_digits_are_digits(n / 10);
        assert forall|i: int| 0 <= i < dec_digits(n).len() implies is_digit(
            #[trigger] dec_digits(n)[i],
        ) by {
            if i < dec_digits(n / 10).len() {
                assert(dec_digits(n)[i] == dec_digits(n / 10)[i]);
            }
        }
    }
}

/// A digit character reads back as its value.
proof fn lemma_digit_round_trip(d: int)
    requires
        0 <= d < 10,
    ensures
        digit_val(digit_char(d)) == d,
        is_digit(digit_char(d)),
{
}

/// Reading the decimal rendering back gives the number.
pub proof fn lemma_val_of_dec_digits(n: nat)
    ensures
        val_of(dec_digits(n)) == n,
    decreases n,
{
    if n < 10 {
        lemma_digit_round_trip(n as int);
        let s = dec_digits(n);
        assert(s == seq![digit_char(n as int)]);
        assert(s.drop_last() =~= Seq::<char>::empty());
        assert(val_of(s.drop_last()) == 0);
        assert(s.last() == digit_char(n as int));
        assert(val_of(s) == val_of(s.drop_last()) * 10 + digit_val(s.last()));
    } else {
        lemma_val_of_dec_digits(n / 10);
        lemma_digit_round_trip((n % 10) as int);
        let s = dec_digits(n);
        assert(s == dec_digits(n / 10) + seq![digit_char((n % 10) as int)]);
        assert(s.drop_last() =~= dec_digits(n / 10));
        assert(s.last() == digit_char((n % 10) as int));
        assert(val_of(s) == val_of(s.drop_last()) * 10 + digit_val(s.last()));
        assert(n / 10 * 10 + n % 10 == n) by (nonlinear_arith);
    }
}

/// Append one digit to `s`.
fn push_digit(s: &mut String, d: u8)
    requires
        d < 10,
    ensures
        final(s)@ == old(s)@ + seq![digit_char(d as int)],
{
    match d {
        0 => {
            proof { reveal_strlit("0"); }
            s.append("0");
            proof { assert(old(s)@ + "0"@ =~= old(s)@ + seq![digit_char(d as int)]); }
        },
        1 => {
            proof { reveal_strlit("1"); }
            s.append("1");
            proof { assert(old(s)@ + "1"@ =~= old(s)@ + seq![digit_char(d as int)]); }
        },
        2 => {
            proof { reveal_strlit("2"); }
            s.append("2");
            proof { assert(old(s)@ + "2"@ =~= old(s)@ + seq![digit_char(d as int)]); }
        },
        3 => {
            proof { reveal_strlit("3"); }
            s.append("3");
            proof { assert(old(s)@ + "3"@ =~= old(s)@ + seq![digit_char(d as int)]); }
        },
        4 => {
            proof { reveal_strlit("4"); }
            s.append("4");
            proof { assert(old(s)@ + "4"@ =~= old(s)@ + seq![digit_char(d as int)]); }
        },
        5 => {
            proof { reveal_strlit("5"); }
            s.append("5");
            proof { assert(old(s)@ + "5"@ =~= old(s)@ + seq![digit_char(d as int)]); }
        },
        6 => {
            proof { reveal_strlit("6"); }
            s.append("6");
            proof { assert(old(s)@ + "6"@ =~= old(s)@ + seq![digit_char(d as int)]); }
        },
        7 => {
            proof { reveal_strlit("7"); }
            s.append("7");
            proof { assert(old(s)@ + "7"@ =~= old(s)@ + seq![digit_char(d as int)]); }
        },
        8 => {
            proof { reveal_strlit("8"); }
            s.append("8");
            proof { assert(old(s)@ + "8"@ =~= old(s)@ + seq![digit_char(d as int)]); }
        },
        _ => {
            proof { reveal_strlit("9"); }
            s.append("9");
            proof { assert(old(s)@ + "9"@ =~= old(s)@ + seq![digit_char(d as int)]); }
        },
    }
}

/// Append the decimal rendering of `n` to `s`.
fn push_number(s: &mut String, n: u64)
    ensures
        final(s)@ == old(s)@ + dec_digits(n as nat),
    decreases n,
{
    if n < 10 {
        push_digit(s, n as u8);
    } else {
        push_number(s, n / 10);
        push_digit(s, (n % 10) as u8);
        proof {
            assert((old(s)@ + dec_digits((n / 10) as nat)) + seq![
                digit_char((n % 10) as int),
            ] =~= old(s)@ + dec_digits(n as nat));
        }
    }
}

/// The output directory name, `W<screen width>H<screen height>`.
pub open spec fn dir_name(sw: u32, sh: u32) -> Seq<char> {
    "W"@ + dec_digits(sw as nat) + "H"@ + dec_digits(sh as nat)
}

/// The tail of a save path, `_Lx<x>Ty<y>W<w>H<h>.webp`, from the red
/// rectangle's four numbers.
pub open spec fn rect_suffix(x: nat, y: nat, w: nat, h: nat) -> Seq<char> {
    "_Lx"@ + dec_digits(x) + "Ty"@ + dec_digits(y) + "W"@ + dec_digits(w) + "H"@ + dec_digits(h)
        + ".webp"@
}

/// The full save path for one write: the directory, then
/// `screenshot_<milliseconds>_Lx<x>Ty<y>W<w>H<h>.webp` with the committed
/// red rectangle's coordinates.
pub open spec fn save_name(sw: u32, sh: u32, millis: u64, red: Rect) -> Seq<char> {
    dir_name(sw, sh) + "/screenshot_"@ + dec_digits(millis as nat) + rect_suffix(
        red.x as nat,
        red.y as nat,
        red.w as nat,
        red.h as nat,
    )
}

/// Build the output directory name and the full save path.
pub fn format_save_name(sw: u32, sh: u32, millis: u64, red: &Rect) -> (r: (String, String))
    requires
        red.x >= 0,
        red.y >= 0,
        red.w >= 0,
        red.h >= 0,
    ensures
        r.0@ == dir_name(sw, sh),
        r.1@ == save_name(sw, sh, millis, *red),
{
    let mut dir = String::new();
    proof {
        reveal_strlit("W");
        reveal_strlit("H");
        reveal_strlit("/screenshot_");
        reveal_strlit("_Lx");
        reveal_strlit("Ty");
        reveal_strlit(".webp");
    }
    dir.append("W");
    push_number(&mut dir, sw as u64);
    dir.append("H");
    push_number(&mut dir, sh as u64);
    proof {
        assert(dir@ =~= dir_name(sw, sh));
    }
    let mut path = dir.clone();
    path.append("/screenshot_");
    push_number(&mut path, millis);
    path.append("_Lx");
    push_number(&mut path, red.x as u64);
    path.append("Ty");
    push_number(&mut path, red.y as u64);
    path.append("W");
    push_number(&mut path, red.w as u64);
    path.append("H");
    push_number(&mut path, red.h as u64);
    path.append(".webp");
    proof {
        assert(path@ =~= save_name(sw, sh, millis, *red));
    }
    (dir, path)
}

/// The longest all-digit prefix of `s`.
pub open spec fn digits_prefix(s: Seq<char>) -> Seq<char>
    decreases s.len(),
{
    if s.len() == 0 || !is_digit(s[0]) {
        Seq::empty()
    } else {
        seq![s[0]] + digits_prefix(s.drop_first())
    }
}

/// Strip an expected literal from the front of `s`.
pub open spec fn strip_lit(s: Seq<char>, lit: Seq<char>) -> Option<Seq<char>> {
    if s.len() >= lit.len() && s.take(lit.len() as int) == lit {
        Some(s.skip(lit.len() as int))
    } else {
        None
    }
}

/// Read a number off the front of `s`: its value and what follows the
/// digits; nothing if `s` does not start with a digit.
pub open spec fn read_number(s: Seq<char>) -> Option<(nat, Seq<char>)> {
    if digits_prefix(s).len() == 0 {
        None
    } else {
        Some((val_of(digits_prefix(s)) as nat, s.skip(digits_prefix(s).len() as int)))
    }
}

/// Parse the tail of a save path, `_Lx<x>Ty<y>W<w>H<h>.webp`, into the
/// red rectangle's four numbers; nothing unless the string has exactly that
/// shape.
pub open spec fn parse_rect_suffix(s: Seq<char>) -> Option<(nat, nat, nat, nat)> {
    match strip_lit(s, "_Lx"@) {
        None => None,
        Some(s1) => match read_number(s1) {
            None => None,
            Some((x, s2)) => match strip_lit(s2, "Ty"@) {
                None => None,
                Some(s3) => match read_number(s3) {
                    None => None,
                    Some((y, s4)) => match strip_lit(s4, "W"@) {
                        None => None,
                        Some(s5) => match read_number(s5) {
                            None => None,
                            Some((w, s6)) => match strip_lit(s6, "H"@) {
                                None => None,
                                Some(s7) => match read_number(s7) {
                                    None => None,
                                    Some((h, s8)) => if s8 == ".webp"@ {
                                        Some((x, y, w, h))
                                    } else {
                                        None
                                    },
                                },
                            },
                        },
                    },
                },
            },
        },
    }
}

/// Parse the head of a save path, `W<sw>H<sh>/screenshot_<millis>`, into
/// the screen size and the timestamp, with whatever follows the timestamp's
/// digits.
pub open spec fn parse_header(s: Seq<char>) -> Option<(nat, nat, nat, Seq<char>)> {
    match strip_lit(s, "W"@) {
        None => None,
        Some(s1) => match read_number(s1) {
            None => None,
            Some((sw, s2)) => match strip_lit(s2, "H"@) {
                None => None,
                Some(s3) => match read_number(s3) {
                    None => None,
                    Some((sh, s4)) => match strip_lit(s4, "/screenshot_"@) {
                        None => None,
                        Some(s5) => match read_number(s5) {
                            None => None,
                            Some((millis, s6)) => Some((sw, sh, millis, s6)),
                        },
                    },
                },
            },
        },
    }
}

/// Parse a save path back into the screen size, the timestamp, and the red
/// rectangle's four numbers, in that order; nothing unless the whole string
/// has exactly the shape `format_save_name` produces.
pub open spec fn parse_save_name(s: Seq<char>) -> Option<(nat, nat, nat, nat, nat, nat, nat)> {
    match parse_header(s) {
        None => None,
        Some((sw, sh, millis, rest)) => match parse_rect_suffix(rest) {
            None => None,
            Some((x, y, w, h)) => Some((sw, sh, millis, x, y, w, h)),
        },
    }
}

/// Stripping a literal off a string that starts with it leaves the rest.
proof fn lemma_strip_lit(lit: Seq<char>, rest: Seq<char>)
    ensures
        strip_lit(lit + rest, lit) == Some(rest),
{
    assert((lit + rest).take(lit.len() as int) =~= lit);
    assert((lit + rest).skip(lit.len() as int) =~= rest);
}

/// The all-digit prefix of a digit string followed by a non-digit is the
/// digit string itself.
proof fn lemma_digits_prefix(d: Seq<char>, rest: Seq<char>)
    requires
        forall|i: int| 0 <= i < d.len() ==> is_digit(#[trigger] d[i]),
        rest.len() == 0 || !is_digit(rest[0]),
    ensures
        digits_prefix(d + rest) == d,
    decreases d.len(),
{
    if d.len() == 0 {
        assert(d + rest =~= rest);
        assert(digits_prefix(d + rest) =~= d);
    } else {
        assert((d + rest)[0] == d[0]);
        assert forall|i: int| 0 <= i < d.drop_first().len() implies is_digit(
            #[trigger] d.drop_first()[i],
        ) by {
            assert(d.drop_first()[i] == d[i + 1]);
        }
        lemma_digits_prefix(d.drop_first(), rest);
        assert((d + rest).drop_first() =~= d.drop_first() + rest);
        assert(seq![d[0]] + d.drop_first() =~= d);
    }
}

/// Reading a number off a decimal rendering followed by a non-digit yields
/// the number and the rest.
proof fn lemma_read_number(n: nat, rest: Seq<char>)
    requires
        rest.len() == 0 || !is_digit(rest[0]),
    ensures
        read_number(dec_digits(n) + rest) == Some((n, rest)),
{
    lemma_dec_digits_are_digits(n);
    lemma_digits_prefix(dec_digits(n), rest);
    lemma_val_of_dec_digits(n);
    assert((dec_digits(n) + rest).skip(dec_digits(n).len() as int) =~= rest);
}

/// Parsing the rectangle suffix recovers the four numbers exactly.
#[verifier::rlimit(100)]
proof fn lemma_rect_suffix_round_trip(x: nat, y: nat, w: nat, h: nat)
    ensures
        parse_rect_suffix(rect_suffix(x, y, w, h)) == Some((x, y, w, h)),
{
    reveal_strlit("_Lx");
    reveal_strlit("Ty");
    reveal_strlit("W");
    reveal_strlit("H");
    reveal_strlit(".webp");
    let t8 = ".webp"@;
    let t7 = dec_digits(h) + t8;
    let t6 = "H"@ + t7;
    let t5 = dec_digits(w) + t6;
    let t4 = "W"@ + t5;
    let t3 = dec_digits(y) + t4;
    let t2 = "Ty"@ + t3;
    let t1 = dec_digits(x) + t2;
    let t0 = "_Lx"@ + t1;
    assert(rect_suffix(x, y, w, h) =~= t0);
    assert(strip_lit(t0, "_Lx"@) == Some(t1)) by {
        lemma_strip_lit("_Lx"@, t1);
    }
    assert(read_number(t1) == Some((x, t2))) by {
        lemma_read_number(x, t2);
    }
    assert(strip_lit(t2, "Ty"@) == Some(t3)) by {
        lemma_strip_lit("Ty"@, t3);
    }
    assert(read_number(t3) == Some((y, t4))) by {
        lemma_read_number(y, t4);
    }
    assert(strip_lit(t4, "W"@) == Some(t5)) by {
        lemma_strip_lit("W"@, t5);
    }
    assert(read_number(t5) == Some((w, t6))) by {
        lemma_read_number(w, t6);
    }
    assert(strip_lit(t6, "H"@) == Some(t7)) by {
        lemma_strip_lit("H"@, t7);
    }
    assert(read_number(t7) == Some((h, t8))) by {
        lemma_read_number(h, t8);
    }
}

/// Parsing the head of a save path recovers the screen size and the
/// timestamp, and leaves the rest, whenever the rest does not begin with a
/// digit.
#[verifier::rlimit(100)]
proof fn lemma_header_round_trip(sw: nat, sh: nat, millis: nat, rest: Seq<char>)
    requires
        rest.len() == 0 || !is_digit(rest[0]),
    ensures
        parse_header("W"@ + dec_digits(sw) + "H"@ + dec_digits(sh) + "/screenshot_"@ + dec_digits(
            millis,
        ) + rest) == Some((sw, sh, millis, rest)),
{
    reveal_strlit("W");
    reveal_strlit("H");
    reveal_strlit("/screenshot_");
    let t6 = rest;
    let t5 = dec_digits(millis) + t6;
    let t4 = "/screenshot_"@ + t5;
    let t3 = dec_digits(sh) + t4;
    let t2 = "H"@ + t3;
    let t1 = dec_digits(sw) + t2;
    let t0 = "W"@ + t1;
    assert("W"@ + dec_digits(sw) + "H"@ + dec_digits(sh) + "/screenshot_"@ + dec_digits(millis)
        + rest =~= t0);
    assert(strip_lit(t0, "W"@) == Some(t1)) by {
        lemma_strip_lit("W"@, t1);
    }
    assert(read_number(t1) == Some((sw, t2))) by {
        lemma_read_number(sw, t2);
    }
    assert(strip_lit(t2, "H"@) == Some(t3)) by {
        lemma_strip_lit("H"@, t3);
    }
    assert(read_number(t3) == Some((sh, t4))) by {
        lemma_read_number(sh, t4);
    }
    assert(strip_lit(t4, "/screenshot_"@) == Some(t5)) by {
        lemma_strip_lit("/screenshot_"@, t5);
    }
    assert(read_number(t5) == Some((millis, t6))) by {
        lemma_read_number(millis, t6);
    }
}

/// Parsing a save path recovers the screen size, the timestamp and the red
/// rectangle exactly.
#[verifier::rlimit(100)]
pub proof fn lemma_save_name_round_trip(sw: u32, sh: u32, millis: u64, red: Rect)
    requires
        red.x >= 0,
        red.y >= 0,
        red.w >= 0,
        red.h >= 0,
    ensures
        parse_save_name(save_name(sw, sh, millis, red)) == Some(
            (
                sw as nat,
                sh as nat,
                millis as nat,
                red.x as nat,
                red.y as nat,
                red.w as nat,
                red.h as nat,
            ),
        ),
{
    let rest = rect_suffix(red.x as nat, red.y as nat, red.w as nat, red.h as nat);
    assert(rest.len() > 0 && !is_digit(rest[0])) by {
        reveal_strlit("_Lx");
        assert(rest[0] == '_');
    }
    assert(save_name(sw, sh, millis, red) =~= "W"@ + dec_digits(sw as nat) + "H"@ + dec_digits(
        sh as nat,
    ) + "/screenshot_"@ + dec_digits(millis as nat) + rest);
    lemma_header_round_trip(sw as nat, sh as nat, millis as nat, rest);
    lemma_rect_suffix_round_trip(red.x as nat, red.y as nat, red.w as nat, red.h as nat);
}

} // verus!
