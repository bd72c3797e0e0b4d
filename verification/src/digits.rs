//! Digit characters and canonical decimal text for byte values.
//!
//! Both the hexadecimal zone-identifier text and the dotted-quad IPv4 text
//! are built from the digit characters defined here.  `dec_str` is the
//! canonical base-ten rendering of a byte: one to three digits with no
//! leading zero, which is exactly the set of octet texts that a strict
//! dotted-quad parser accepts.

use vstd::prelude::*;

verus! {

/// True for the ten ASCII digit characters '0' through '9'.
pub open spec fn is_digit(c: char) -> bool {
    48 <= c as u32 && c as u32 <= 57
}

/// Numeric value of an ASCII digit character.
pub open spec fn digit_val(c: char) -> u8 {
    (c as u32 - 48) as u8
}

/// True for the characters of lowercase or uppercase hexadecimal digits.
pub open spec fn is_hex_digit(c: char) -> bool {
    is_digit(c) || (97 <= c as u32 && c as u32 <= 102) || (65 <= c as u32 && c as u32 <= 70)
}

/// Numeric value of a hexadecimal digit character, either case.
pub open spec fn hex_digit_val(c: char) -> u8 {
    if is_digit(c) {
        digit_val(c)
    } else if 97 <= c as u32 && c as u32 <= 102 {
        (c as u32 - 97 + 10) as u8
    } else {
        (c as u32 - 65 + 10) as u8
    }
}

/// The lowercase digit character for a value below sixteen.
pub open spec fn digit_char(v: u8) -> char {
    if v == 0 {
        '0'
    } else if v == 1 {
        '1'
    } else if v == 2 {
        '2'
    } else if v == 3 {
        '3'
    } else if v == 4 {
        '4'
    } else if v == 5 {
        '5'
    } else if v == 6 {
        '6'
    } else if v == 7 {
        '7'
    } else if v == 8 {
        '8'
    } else if v == 9 {
        '9'
    } else if v == 10 {
        'a'
    } else if v == 11 {
        'b'
    } else if v == 12 {
        'c'
    } else if v == 13 {
        'd'
    } else if v == 14 {
        'e'
    } else {
        'f'
    }
}

/// Canonical decimal text of a byte value: one to three digits, no
/// leading zero.
pub open spec fn dec_str(v: u8) -> Seq<char> {
    if v < 10 {
        seq![digit_char(v)]
    } else if v < 100 {
        seq![digit_char((v / 10) as u8), digit_char((v % 10) as u8)]
    } else {
        seq![
            digit_char((v / 100) as u8),
            digit_char(((v / 10) % 10) as u8),
            digit_char((v % 10) as u8),
        ]
    }
}

/// A digit character below sixteen carries its own value.
pub proof fn lemma_digit_char_val(v: u8)
    requires
        v < 16,
    ensures
        is_hex_digit(digit_char(v)),
        hex_digit_val(digit_char(v)) == v,
        v < 10 ==> is_digit(digit_char(v)) && digit_val(digit_char(v)) == v,
        v >= 10 ==> !is_digit(digit_char(v)),
        (digit_char(v) == '0') == (v == 0),
{
}

/// A decimal or lowercase hexadecimal digit character is recovered from
/// its value.
pub proof fn lemma_digit_val_char(c: char)
    requires
        is_digit(c) || (97 <= c as u32 && c as u32 <= 102),
    ensures
        digit_char(hex_digit_val(c)) == c,
{
}

/// Shape and value of the canonical decimal text of a byte: its length
/// class, that all its characters are digits, that it never starts with a
/// superfluous zero, and that its digits read back to the byte itself.
pub proof fn lemma_dec_str_props(v: u8)
    ensures
        1 <= dec_str(v).len() <= 3,
        forall|i: int| 0 <= i < dec_str(v).len() ==> is_digit(#[trigger] dec_str(v)[i]),
        (dec_str(v).len() == 1) == (v < 10),
        (dec_str(v).len() == 2) == (10 <= v && v < 100),
        (dec_str(v).len() == 3) == (v >= 100),
        v >= 10 ==> dec_str(v)[0] != '0',
        dec_str(v).len() == 1 ==> v == digit_val(dec_str(v)[0]),
        dec_str(v).len() == 2 ==> v == 10 * digit_val(dec_str(v)[0]) + digit_val(dec_str(v)[1]),
        dec_str(v).len() == 3 ==> v == 100 * digit_val(dec_str(v)[0]) + 10 * digit_val(
            dec_str(v)[1],
        ) + digit_val(dec_str(v)[2]),
{
    if v < 10 {
        lemma_digit_char_val(v);
    } else if v < 100 {
        let q = (v / 10) as u8;
        let r = (v % 10) as u8;
        assert(v == 10 * q + r && 1 <= q < 10 && r < 10) by (nonlinear_arith)
            requires
                10 <= v < 100,
                q == v / 10,
                r == v % 10,
        ;
        lemma_digit_char_val(q);
        lemma_digit_char_val(r);
    } else {
        let q = (v / 100) as u8;
        let m = ((v / 10) % 10) as u8;
        let r = (v % 10) as u8;
        assert(v == 100 * q + 10 * m + r && 1 <= q < 10 && m < 10 && r < 10) by (nonlinear_arith)
            requires
                100 <= v < 256,
                q == v / 100,
                m == (v / 10) % 10,
                r == v % 10,
        ;
        lemma_digit_char_val(q);
        lemma_digit_char_val(m);
        lemma_digit_char_val(r);
    }
}

/// Two bytes with the same canonical decimal text are equal.
pub proof fn lemma_dec_str_unique(v1: u8, v2: u8)
    requires
        dec_str(v1) == dec_str(v2),
    ensures
        v1 == v2,
{
    lemma_dec_str_props(v1);
    lemma_dec_str_props(v2);
    assert(dec_str(v1)[0] == dec_str(v2)[0]);
    if dec_str(v1).len() >= 2 {
        assert(dec_str(v1)[1] == dec_str(v2)[1]);
    }
    if dec_str(v1).len() == 3 {
        assert(dec_str(v1)[2] == dec_str(v2)[2]);
    }
}

/// The digit character of a value below sixteen, as a one-character text.
pub(crate) fn digit_char_str(v: u8) -> (r: &'static str)
    requires
        v < 16,
    ensures
        r@ == seq![digit_char(v)],
{
    let r: &'static str = if v == 0 {
        "0"
    } else if v == 1 {
        "1"
    } else if v == 2 {
        "2"
    } else if v == 3 {
        "3"
    } else if v == 4 {
        "4"
    } else if v == 5 {
        "5"
    } else if v == 6 {
        "6"
    } else if v == 7 {
        "7"
    } else if v == 8 {
        "8"
    } else if v == 9 {
        "9"
    } else if v == 10 {
        "a"
    } else if v == 11 {
        "b"
    } else if v == 12 {
        "c"
    } else if v == 13 {
        "d"
    } else if v == 14 {
        "e"
    } else {
        "f"
    };
    proof {
        reveal_strlit("0");
        reveal_strlit("1");
        reveal_strlit("2");
        reveal_strlit("3");
        reveal_strlit("4");
        reveal_strlit("5");
        reveal_strlit("6");
        reveal_strlit("7");
        reveal_strlit("8");
        reveal_strlit("9");
        reveal_strlit("a");
        reveal_strlit("b");
        reveal_strlit("c");
        reveal_strlit("d");
        reveal_strlit("e");
        reveal_strlit("f");
        assert(r@ =~= seq![digit_char(v)]);
    }
    r
}

/// Appends the canonical decimal text of a byte value to a string.
pub(crate) fn append_dec(out: &mut String, v: u8)
    ensures
        final(out)@ == old(out)@ + dec_str(v),
{
    if v < 10 {
        out.append(digit_char_str(v));
    } else if v < 100 {
        out.append(digit_char_str(v / 10));
        out.append(digit_char_str(v % 10));
    } else {
        out.append(digit_char_str(v / 100));
        out.append(digit_char_str((v / 10) % 10));
        out.append(digit_char_str(v % 10));
    }
    assert(final(out)@ =~= old(out)@ + dec_str(v));
}

/// Relies on `String::push` from std: appends exactly the given character
/// at the end of the string.
#[verifier::external_body]
pub(crate) fn push_char(out: &mut String, c: char)
    ensures
        final(out)@ == old(out)@.push(c),
{
    out.push(c);
}

} // verus!
