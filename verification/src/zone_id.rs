//! Fixed-width zone identifiers with a canonical hexadecimal text form.
//!
//! A zone identifier is sixteen bytes.  Its text form is exactly 32
//! hexadecimal characters, two per byte; rendering always produces
//! lowercase digits, and parsing accepts either case, so that rendering a
//! parsed identifier gives the input back case-normalized to lowercase.

use crate::digits::{
    append_dec, dec_str, digit_char, digit_char_str, hex_digit_val, is_hex_digit,
    lemma_digit_char_val, lemma_digit_val_char, push_char,
};
use vstd::array::ArrayAdditionalExecFns;
use vstd::prelude::*;

verus! {

/// A zone identifier: sixteen fixed bytes, immutable once constructed.
pub struct ZoneId {
    id: [u8; 16],
}

/// Errors from parsing a zone identifier out of hexadecimal text.
#[derive(Debug)]
pub enum ZoneIdError {
    /// The input did not have exactly 32 characters.
    MalformedLength,
    /// The two-character group for the byte at `position` was not a valid
    /// hexadecimal pair; `first` and `second` are the offending characters.
    InvalidHexByte { position: u8, first: char, second: char },
}

impl View for ZoneId {
    type V = Seq<u8>;

    closed spec fn view(&self) -> Seq<u8> {
        self.id@
    }
}

/// True when the text is exactly 32 hexadecimal digit characters.
pub open spec fn valid_hex32(s: Seq<char>) -> bool {
    s.len() == 32 && forall|i: int| 0 <= i < 32 ==> is_hex_digit(#[trigger] s[i])
}

/// The sixteen byte values read from 32 hexadecimal digit characters.
pub open spec fn bytes_of_hex(s: Seq<char>) -> Seq<u8> {
    Seq::new(16, |i: int| (16 * hex_digit_val(s[2 * i]) + hex_digit_val(s[2 * i + 1])) as u8)
}

/// The lowercase hexadecimal text of a byte sequence, two characters per byte.
pub open spec fn render_hex(bytes: Seq<u8>) -> Seq<char> {
    Seq::new(
        bytes.len() * 2,
        |i: int|
            if i % 2 == 0 {
                digit_char((bytes[i / 2] / 16) as u8)
            } else {
                digit_char((bytes[i / 2] % 16) as u8)
            },
    )
}

/// An uppercase hexadecimal digit character, replaced by its lowercase
/// form; every other character is kept.
pub open spec fn to_lower_hex(c: char) -> char {
    if c == 'A' {
        'a'
    } else if c == 'B' {
        'b'
    } else if c == 'C' {
        'c'
    } else if c == 'D' {
        'd'
    } else if c == 'E' {
        'e'
    } else if c == 'F' {
        'f'
    } else {
        c
    }
}

/// Each character of the text, case-normalized by `to_lower_hex`.
pub open spec fn lower_hex(s: Seq<char>) -> Seq<char> {
    Seq::new(s.len(), |i: int| to_lower_hex(s[i]))
}

/// The value of a hexadecimal digit character is below sixteen.
pub proof fn lemma_hex_digit_val_bound(c: char)
    requires
        is_hex_digit(c),
    ensures
        hex_digit_val(c) < 16,
{
}

/// The lowercase digit character of a hexadecimal digit's value is that
/// digit, case-normalized to lowercase.
pub proof fn lemma_to_lower_hex(c: char)
    requires
        is_hex_digit(c),
    ensures
        digit_char(hex_digit_val(c)) == to_lower_hex(c),
        is_hex_digit(to_lower_hex(c)),
        hex_digit_val(to_lower_hex(c)) == hex_digit_val(c),
{
    if c as u32 <= 57 || c as u32 >= 97 {
        lemma_digit_val_char(c);
    } else {
        lemma_digit_char_val(hex_digit_val(c));
    }
}

/// The numeric value of a hexadecimal digit character, as an option.
fn hex_val(c: char) -> (r: Option<u8>)
    ensures
        is_hex_digit(c) ==> r == Some(hex_digit_val(c)),
        !is_hex_digit(c) ==> r is None,
{
    let u = c as u32;
    if 48 <= u && u <= 57 {
        Some((u - 48) as u8)
    } else if 97 <= u && u <= 102 {
        Some((u - 97 + 10) as u8)
    } else if 65 <= u && u <= 70 {
        Some((u - 65 + 10) as u8)
    } else {
        None
    }
}

impl ZoneId {
    /// Parses a zone identifier from its 32-character hexadecimal text.
    ///
    /// Fails with `MalformedLength` when the input is not exactly 32
    /// characters, and with `InvalidHexByte` for the first two-character
    /// group that is not a valid hexadecimal pair.
    pub fn new(hex_string: &str) -> (r: Result<ZoneId, ZoneIdError>)
        ensures
            match r {
                Ok(z) => valid_hex32(hex_string@) && z@ == bytes_of_hex(hex_string@),
                Err(ZoneIdError::MalformedLength) => hex_string@.len() != 32,
                Err(ZoneIdError::InvalidHexByte { position, first, second }) => {
                    &&& hex_string@.len() == 32
                    &&& position < 16
                    &&& first == hex_string@[2 * position as int]
                    &&& second == hex_string@[2 * position as int + 1]
                    &&& !(is_hex_digit(first) && is_hex_digit(second))
                    &&& forall|j: int|
                        0 <= j < position ==> is_hex_digit(#[trigger] hex_string@[2 * j])
                            && is_hex_digit(hex_string@[2 * j + 1])
                },
            },
    {
        let n = hex_string.unicode_len();
        if n != 32 {
            return Err(ZoneIdError::MalformedLength);
        }
        let mut bytes: [u8; 16] = [0u8; 16];
        let mut i: usize = 0;
        while i < 16
            invariant
                i <= 16,
                hex_string@.len() == 32,
                forall|j: int|
                    0 <= j < i ==> is_hex_digit(#[trigger] hex_string@[2 * j]) && is_hex_digit(
                        hex_string@[2 * j + 1],
                    ),
                forall|j: int| 0 <= j < i ==> bytes@[j] == bytes_of_hex(hex_string@)[j],
            decreases 16 - i,
        {
            let c1 = hex_string.get_char(2 * i);
            let c2 = hex_string.get_char(2 * i + 1);
            match (hex_val(c1), hex_val(c2)) {
                (Some(a), Some(b)) => {
                    proof {
                        lemma_hex_digit_val_bound(c1);
                        lemma_hex_digit_val_bound(c2);
                    }
                    bytes[i] = 16 * a + b;
                },
                _ => {
                    return Err(
                        ZoneIdError::InvalidHexByte { position: i as u8, first: c1, second: c2 },
                    );
                },
            }
            i = i + 1;
        }
        proof {
            assert forall|k: int| 0 <= k < 32 implies is_hex_digit(#[trigger] hex_string@[k]) by {
                let j = k / 2;
                assert(0 <= j < 16);
                assert(is_hex_digit(hex_string@[2 * j]) && is_hex_digit(hex_string@[2 * j + 1]));
                assert(k == 2 * j || k == 2 * j + 1);
            };
            assert(bytes@ =~= bytes_of_hex(hex_string@));
        }
        Ok(ZoneId { id: bytes })
    }

    /// Renders the identifier as its canonical 32-character lowercase
    /// hexadecimal text.
    pub fn render(&self) -> (r: String)
        ensures
            r@ == render_hex(self@),
    {
        let mut out = String::new();
        let mut i: usize = 0;
        while i < 16
            invariant
                i <= 16,
                out@ =~= render_hex(self.id@).take(2 * i as int),
            decreases 16 - i,
        {
            out.append(digit_char_str(self.id[i] / 16));
            out.append(digit_char_str(self.id[i] % 16));
            i = i + 1;
            proof {
                assert(out@ =~= render_hex(self.id@).take(2 * i as int));
            }
        }
        proof {
            assert(out@ =~= render_hex(self@));
        }
        out
    }
}

impl ZoneIdError {
    /// The diagnostic text of the error: a fixed sentence for a length
    /// error; for an invalid pair, the byte position in decimal followed
    /// by the two offending characters.
    pub open spec fn spec_message(&self) -> Seq<char> {
        match self {
            ZoneIdError::MalformedLength => "Hex string must be 32 characters long"@,
            ZoneIdError::InvalidHexByte { position, first, second } => "Invalid hex byte at position "@
                + dec_str(*position) + ": "@ + seq![*first, *second],
        }
    }

    /// Renders the diagnostic text of the error.
    pub fn message(&self) -> (r: String)
        ensures
            r@ == self.spec_message(),
    {
        match self {
            ZoneIdError::MalformedLength => String::from_str(
                "Hex string must be 32 characters long",
            ),
            ZoneIdError::InvalidHexByte { position, first, second } => {
                let mut out = String::from_str("Invalid hex byte at position ");
                append_dec(&mut out, *position);
                out.append(": ");
                push_char(&mut out, *first);
                push_char(&mut out, *second);
                proof {
                    assert(out@ =~= self.spec_message());
                }
                out
            },
        }
    }
}

/// Rendering a parsed identifier gives the text back, case-normalized to
/// lowercase: for every valid 32-character hexadecimal text, the bytes it
/// denotes render to its lowercase form.
pub proof fn lemma_render_parse_roundtrip(s: Seq<char>)
    requires
        valid_hex32(s),
    ensures
        render_hex(bytes_of_hex(s)) == lower_hex(s),
{
    let b = bytes_of_hex(s);
    assert forall|i: int| 0 <= i < 32 implies render_hex(b)[i] == lower_hex(s)[i] by {
        let k = i / 2;
        let h1 = hex_digit_val(s[2 * k]);
        let h2 = hex_digit_val(s[2 * k + 1]);
        lemma_hex_digit_val_bound(s[2 * k]);
        lemma_hex_digit_val_bound(s[2 * k + 1]);
        assert(b[k] == (16 * h1 + h2) as u8);
        assert((16 * h1 + h2) / 16 == h1 && (16 * h1 + h2) % 16 == h2) by (nonlinear_arith)
            requires
                h1 < 16,
                h2 < 16,
        ;
        lemma_to_lower_hex(s[i]);
        if i % 2 == 0 {
            assert(2 * k == i);
        } else {
            assert(2 * k + 1 == i);
        }
    };
    assert(render_hex(b) =~= lower_hex(s));
}

/// Parsing a rendered identifier gives the identifier back: the lowercase
/// hexadecimal text of any sixteen bytes is valid, and denotes those bytes.
pub proof fn lemma_parse_render_roundtrip(bytes: Seq<u8>)
    requires
        bytes.len() == 16,
    ensures
        valid_hex32(render_hex(bytes)),
        bytes_of_hex(render_hex(bytes)) == bytes,
{
    let s = render_hex(bytes);
    assert forall|i: int| 0 <= i < 32 implies is_hex_digit(#[trigger] s[i]) by {
        lemma_digit_char_val((bytes[i / 2] / 16) as u8);
        lemma_digit_char_val((bytes[i / 2] % 16) as u8);
    };
    assert forall|k: int| 0 <= k < 16 implies bytes_of_hex(s)[k] == bytes[k] by {
        let v = bytes[k];
        assert(s[2 * k] == digit_char((v / 16) as u8));
        assert(s[2 * k + 1] == digit_char((v % 16) as u8));
        lemma_digit_char_val((v / 16) as u8);
        lemma_digit_char_val((v % 16) as u8);
        assert(16 * ((v as int) / 16) + (v as int) % 16 == v as int) by (nonlinear_arith);
    };
    assert(bytes_of_hex(s) =~= bytes);
}

} // verus!
