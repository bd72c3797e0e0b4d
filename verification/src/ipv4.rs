//! IPv4 addresses as four octets, with strict dotted-quad text.
//!
//! The dotted-quad text of an address is canonical: each octet is written
//! in decimal with no leading zero.  A strict parse therefore accepts
//! exactly the canonical texts, and text and address determine each other.
//! The parser here says so in its contract: it succeeds precisely on the
//! texts that some address renders to, and returns that address.

use crate::digits::{
    append_dec, dec_str, digit_val, is_digit, lemma_dec_str_props, lemma_dec_str_unique,
    lemma_digit_val_char,
};
use vstd::prelude::*;

verus! {

/// An IPv4 address: four octets, most significant first.
#[derive(Clone, Copy, PartialEq, Eq, Structural, Debug)]
pub struct Ipv4 {
    pub a: u8,
    pub b: u8,
    pub c: u8,
    pub d: u8,
}

/// The canonical dotted-quad text of an address: the decimal text of its
/// four octets, separated by dots.
pub open spec fn ipv4_text(ip: Ipv4) -> Seq<char> {
    dec_str(ip.a) + seq!['.'] + dec_str(ip.b) + seq!['.'] + dec_str(ip.c) + seq!['.'] + dec_str(
        ip.d,
    )
}

/// True when the text is the dotted-quad form of some address.
pub open spec fn is_ipv4_text(s: Seq<char>) -> bool {
    exists|ip: Ipv4| s == ipv4_text(ip)
}

/// True when the decimal text of `v` stands at `start` in `s` and is
/// ended there by the end of the text or by a character that is not a
/// digit — the boundary a greedy scan of digits stops at.
pub open spec fn octet_at(s: Seq<char>, start: int, v: u8) -> bool {
    let e = start + dec_str(v).len();
    &&& 0 <= start
    &&& e <= s.len()
    &&& s.subrange(start, e) == dec_str(v)
    &&& (e == s.len() || !is_digit(s[e]))
}

/// At one position, at most one octet value can be read.
proof fn lemma_octet_at_unique(s: Seq<char>, start: int, v1: u8, v2: u8)
    requires
        octet_at(s, start, v1),
        octet_at(s, start, v2),
    ensures
        v1 == v2,
        dec_str(v1).len() == dec_str(v2).len(),
{
    lemma_dec_str_props(v1);
    lemma_dec_str_props(v2);
    let l1 = dec_str(v1).len() as int;
    let l2 = dec_str(v2).len() as int;
    if l1 < l2 {
        assert(s[start + l1] == s.subrange(start, start + l2)[l1]);
        assert(is_digit(dec_str(v2)[l1]));
        assert(false);
    } else if l2 < l1 {
        assert(s[start + l2] == s.subrange(start, start + l1)[l2]);
        assert(is_digit(dec_str(v1)[l2]));
        assert(false);
    } else {
        assert(dec_str(v1) =~= dec_str(v2));
        lemma_dec_str_unique(v1, v2);
    }
}

/// Where each piece of the dotted-quad text of an address stands in it.
#[verifier::rlimit(60)]
proof fn lemma_ipv4_text_parts(ip: Ipv4)
    ensures
        ipv4_text(ip).len() == dec_str(ip.a).len() + dec_str(ip.b).len() + dec_str(ip.c).len()
            + dec_str(ip.d).len() + 3,
        octet_at(ipv4_text(ip), 0, ip.a),
        ipv4_text(ip)[dec_str(ip.a).len() as int] == '.',
        octet_at(ipv4_text(ip), dec_str(ip.a).len() as int + 1, ip.b),
        ipv4_text(ip)[dec_str(ip.a).len() as int + dec_str(ip.b).len() as int + 1] == '.',
        octet_at(ipv4_text(ip), dec_str(ip.a).len() as int + dec_str(ip.b).len() as int + 2, ip.c),
        ipv4_text(ip)[dec_str(ip.a).len() as int + dec_str(ip.b).len() as int + dec_str(
            ip.c,
        ).len() as int + 2] == '.',
        octet_at(
            ipv4_text(ip),
            dec_str(ip.a).len() as int + dec_str(ip.b).len() as int + dec_str(ip.c).len() as int
                + 3,
            ip.d,
        ),
{
    let t = ipv4_text(ip);
    let la = dec_str(ip.a).len() as int;
    let lb = dec_str(ip.b).len() as int;
    let lc = dec_str(ip.c).len() as int;
    let ld = dec_str(ip.d).len() as int;
    lemma_dec_str_props(ip.a);
    lemma_dec_str_props(ip.b);
    lemma_dec_str_props(ip.c);
    lemma_dec_str_props(ip.d);
    assert(t.subrange(0, la) =~= dec_str(ip.a));
    assert(t.subrange(la + 1, la + 1 + lb) =~= dec_str(ip.b));
    assert(t.subrange(la + lb + 2, la + lb + 2 + lc) =~= dec_str(ip.c));
    assert(t.subrange(la + lb + lc + 3, la + lb + lc + 3 + ld) =~= dec_str(ip.d));
    assert(t[la] == '.');
    assert(t[la + lb + 1] == '.');
    assert(t[la + lb + lc + 2] == '.');
}

/// Two addresses with the same dotted-quad text are equal.
pub proof fn lemma_ipv4_text_injective(ip1: Ipv4, ip2: Ipv4)
    requires
        ipv4_text(ip1) == ipv4_text(ip2),
    ensures
        ip1 == ip2,
{
    let t = ipv4_text(ip1);
    lemma_ipv4_text_parts(ip1);
    lemma_ipv4_text_parts(ip2);
    lemma_octet_at_unique(t, 0, ip1.a, ip2.a);
    let la = dec_str(ip1.a).len() as int;
    lemma_octet_at_unique(t, la + 1, ip1.b, ip2.b);
    let lb = dec_str(ip1.b).len() as int;
    lemma_octet_at_unique(t, la + lb + 2, ip1.c, ip2.c);
    let lc = dec_str(ip1.c).len() as int;
    lemma_octet_at_unique(t, la + lb + lc + 3, ip1.d, ip2.d);
}

impl Ipv4 {
    /// An address from its four octets.
    pub fn new(a: u8, b: u8, c: u8, d: u8) -> (r: Ipv4)
        ensures
            r == (Ipv4 { a, b, c, d }),
    {
        Ipv4 { a, b, c, d }
    }

    /// Renders the address as its canonical dotted-quad text.
    pub fn render(&self) -> (r: String)
        ensures
            r@ == ipv4_text(*self),
    {
        let mut out = String::new();
        append_dec(&mut out, self.a);
        out.append(".");
        append_dec(&mut out, self.b);
        out.append(".");
        append_dec(&mut out, self.c);
        out.append(".");
        append_dec(&mut out, self.d);
        proof {
            reveal_strlit(".");
            assert("."@ =~= seq!['.']);
            assert(out@ =~= ipv4_text(*self));
        }
        out
    }
}

/// The numeric value of an ASCII digit character, as an option.
fn digit_of(c: char) -> (r: Option<u8>)
    ensures
        is_digit(c) ==> r == Some(digit_val(c)),
        !is_digit(c) ==> r is None,
{
    let u = c as u32;
    if 48 <= u && u <= 57 {
        Some((u - 48) as u8)
    } else {
        None
    }
}

/// Greedily scans one decimal octet at `start`: one to three digits, no
/// leading zero, value at most 255, ended by the end of the text or a
/// non-digit.  Returns the value and the position after its last digit.
fn scan_octet(s: &str, start: usize) -> (r: Option<(u8, usize)>)
    requires
        start <= s@.len(),
    ensures
        match r {
            Some(p) => octet_at(s@, start as int, p.0) && p.1 == start + dec_str(p.0).len(),
            None => forall|v: u8| !octet_at(s@, start as int, v),
        },
{
    let ghost t = s@;
    let n = s.unicode_len();
    if start == n {
        proof {
            assert forall|v: u8| !octet_at(t, start as int, v) by {
                lemma_dec_str_props(v);
            };
        }
        return None;
    }
    let c0 = s.get_char(start);
    let d0 = match digit_of(c0) {
        Some(d) => d,
        None => {
            proof {
                assert forall|v: u8| !octet_at(t, start as int, v) by {
                    lemma_dec_str_props(v);
                    if octet_at(t, start as int, v) {
                        assert(t[start as int] == t.subrange(
                            start as int,
                            start + dec_str(v).len(),
                        )[0]);
                        assert(is_digit(dec_str(v)[0]));
                    }
                };
            }
            return None;
        },
    };
    let e1 = start + 1;
    let next1 = if e1 < n {
        digit_of(s.get_char(e1))
    } else {
        None
    };
    let d1 = match next1 {
        None => {
            // a single digit
            proof {
                lemma_dec_str_props(d0);
                lemma_digit_val_char(c0);
                assert(t.subrange(start as int, e1 as int) =~= dec_str(d0));
            }
            return Some((d0, e1));
        },
        Some(d) => d,
    };
    if d0 == 0 {
        // a leading zero: the only octet text starting with '0' is "0"
        proof {
            lemma_digit_val_char(c0);
            assert(c0 == '0');
            assert forall|v: u8| !octet_at(t, start as int, v) by {
                lemma_dec_str_props(v);
                if octet_at(t, start as int, v) {
                    assert(t[start as int] == t.subrange(
                        start as int,
                        start + dec_str(v).len(),
                    )[0]);
                    if v >= 10 {
                        assert(dec_str(v)[0] != '0');
                    } else {
                        assert(dec_str(v).len() == 1);
                        assert(is_digit(t[e1 as int]));
                    }
                }
            };
        }
        return None;
    }
    let e2 = e1 + 1;
    let next2 = if e2 < n {
        digit_of(s.get_char(e2))
    } else {
        None
    };
    let d2 = match next2 {
        None => {
            // two digits
            let v = 10 * d0 + d1;
            proof {
                assert(10 <= v < 100);
                assert(v / 10 == d0 && v % 10 == d1) by (nonlinear_arith)
                    requires
                        v == 10 * d0 + d1,
                        0 < d0 < 10,
                        d1 < 10,
                ;
                lemma_dec_str_props(v);
                lemma_digit_val_char(c0);
                lemma_digit_val_char(t[e1 as int]);
                assert(t.subrange(start as int, e2 as int) =~= dec_str(v));
            }
            return Some((v, e2));
        },
        Some(d) => d,
    };
    let e3 = e2 + 1;
    let more = if e3 < n {
        digit_of(s.get_char(e3)).is_some()
    } else {
        false
    };
    if more {
        // four digits in a row: no octet text is this long
        proof {
            assert forall|v: u8| !octet_at(t, start as int, v) by {
                lemma_dec_str_props(v);
                if octet_at(t, start as int, v) {
                    let e = start + dec_str(v).len();
                    assert(start + 1 <= e <= start + 3);
                    assert(is_digit(t[e1 as int]) && is_digit(t[e2 as int]) && is_digit(
                        t[e3 as int],
                    ));
                }
            };
        }
        return None;
    }
    let val: u32 = 100 * (d0 as u32) + 10 * (d1 as u32) + (d2 as u32);
    if val > 255 {
        // three digits reading above 255
        proof {
            lemma_digit_val_char(c0);
            lemma_digit_val_char(t[e1 as int]);
            lemma_digit_val_char(t[e2 as int]);
            assert forall|v: u8| !octet_at(t, start as int, v) by {
                lemma_dec_str_props(v);
                if octet_at(t, start as int, v) {
                    let l = dec_str(v).len() as int;
                    if l == 1 {
                        assert(is_digit(t[e1 as int]));
                        assert(false);
                    } else if l == 2 {
                        assert(is_digit(t[e2 as int]));
                        assert(false);
                    } else {
                        let sub = t.subrange(start as int, start + 3);
                        assert(dec_str(v)[0] == sub[0] && dec_str(v)[1] == sub[1] && dec_str(
                            v,
                        )[2] == sub[2]);
                        assert(v == 100 * digit_val(t[start as int]) + 10 * digit_val(
                            t[e1 as int],
                        ) + digit_val(t[e2 as int]));
                        assert(false);
                    }
                }
            };
        }
        return None;
    }
    let v = val as u8;
    proof {
        assert(100 <= v);
        assert(v / 100 == d0 && (v / 10) % 10 == d1 && v % 10 == d2) by (nonlinear_arith)
            requires
                v == 100 * d0 + 10 * d1 + d2,
                0 < d0 < 10,
                d1 < 10,
                d2 < 10,
        ;
        lemma_dec_str_props(v);
        lemma_digit_val_char(c0);
        lemma_digit_val_char(t[e1 as int]);
        lemma_digit_val_char(t[e2 as int]);
        assert(t.subrange(start as int, e3 as int) =~= dec_str(v));
    }
    Some((v, e3))
}

/// Parses a dotted-quad IPv4 text strictly: four decimal octets separated
/// by dots, no leading zeros, nothing before or after.  Succeeds exactly
/// on the texts that some address renders to, and returns that address.
pub fn parse_ipv4(s: &str) -> (r: Option<Ipv4>)
    ensures
        match r {
            Some(ip) => s@ == ipv4_text(ip),
            None => !is_ipv4_text(s@),
        },
{
    let ghost t = s@;
    let n = s.unicode_len();
    let (a, e1) = match scan_octet(s, 0) {
        Some(p) => p,
        None => {
            proof {
                if is_ipv4_text(t) {
                    let ip = choose|ip: Ipv4| t == ipv4_text(ip);
                    lemma_ipv4_text_parts(ip);
                }
            }
            return None;
        },
    };
    if e1 == n || s.get_char(e1) != '.' {
        proof {
            if is_ipv4_text(t) {
                let ip = choose|ip: Ipv4| t == ipv4_text(ip);
                lemma_ipv4_text_parts(ip);
                lemma_octet_at_unique(t, 0, a, ip.a);
            }
        }
        return None;
    }
    let (b, e2) = match scan_octet(s, e1 + 1) {
        Some(p) => p,
        None => {
            proof {
                if is_ipv4_text(t) {
                    let ip = choose|ip: Ipv4| t == ipv4_text(ip);
                    lemma_ipv4_text_parts(ip);
                    lemma_octet_at_unique(t, 0, a, ip.a);
                }
            }
            return None;
        },
    };
    if e2 == n || s.get_char(e2) != '.' {
        proof {
            if is_ipv4_text(t) {
                let ip = choose|ip: Ipv4| t == ipv4_text(ip);
                lemma_ipv4_text_parts(ip);
                lemma_octet_at_unique(t, 0, a, ip.a);
                lemma_octet_at_unique(t, e1 + 1, b, ip.b);
            }
        }
        return None;
    }
    let (c, e3) = match scan_octet(s, e2 + 1) {
        Some(p) => p,
        None => {
            proof {
                if is_ipv4_text(t) {
                    let ip = choose|ip: Ipv4| t == ipv4_text(ip);
                    lemma_ipv4_text_parts(ip);
                    lemma_octet_at_unique(t, 0, a, ip.a);
                    lemma_octet_at_unique(t, e1 + 1, b, ip.b);
                }
            }
            return None;
        },
    };
    if e3 == n || s.get_char(e3) != '.' {
        proof {
            if is_ipv4_text(t) {
                let ip = choose|ip: Ipv4| t == ipv4_text(ip);
                lemma_ipv4_text_parts(ip);
                lemma_octet_at_unique(t, 0, a, ip.a);
                lemma_octet_at_unique(t, e1 + 1, b, ip.b);
                lemma_octet_at_unique(t, e2 + 1, c, ip.c);
            }
        }
        return None;
    }
    let (d, e4) = match scan_octet(s, e3 + 1) {
        Some(p) => p,
        None => {
            proof {
                if is_ipv4_text(t) {
                    let ip = choose|ip: Ipv4| t == ipv4_text(ip);
                    lemma_ipv4_text_parts(ip);
                    lemma_octet_at_unique(t, 0, a, ip.a);
                    lemma_octet_at_unique(t, e1 + 1, b, ip.b);
                    lemma_octet_at_unique(t, e2 + 1, c, ip.c);
                }
            }
            return None;
        },
    };
    if e4 != n {
        proof {
            if is_ipv4_text(t) {
                let ip = choose|ip: Ipv4| t == ipv4_text(ip);
                lemma_ipv4_text_parts(ip);
                lemma_octet_at_unique(t, 0, a, ip.a);
                lemma_octet_at_unique(t, e1 + 1, b, ip.b);
                lemma_octet_at_unique(t, e2 + 1, c, ip.c);
                lemma_octet_at_unique(t, e3 + 1, d, ip.d);
            }
        }
        return None;
    }
    let ip = Ipv4 { a, b, c, d };
    proof {
        let u = ipv4_text(ip);
        let la = dec_str(a).len() as int;
        let lb = dec_str(b).len() as int;
        let lc = dec_str(c).len() as int;
        let ld = dec_str(d).len() as int;
        assert(t.subrange(0, e1 as int) == dec_str(a));
        assert(t.subrange(e1 + 1, e2 as int) == dec_str(b));
        assert(t.subrange(e2 + 1, e3 as int) == dec_str(c));
        assert(t.subrange(e3 + 1, e4 as int) == dec_str(d));
        assert forall|i: int| 0 <= i < t.len() implies t[i] == u[i] by {
            if i < e1 {
                assert(t[i] == t.subrange(0, e1 as int)[i]);
            } else if i == e1 {
            } else if i < e2 {
                assert(t[i] == t.subrange(e1 + 1, e2 as int)[i - (e1 + 1)]);
            } else if i == e2 {
            } else if i < e3 {
                assert(t[i] == t.subrange(e2 + 1, e3 as int)[i - (e2 + 1)]);
            } else if i == e3 {
            } else {
                assert(t[i] == t.subrange(e3 + 1, e4 as int)[i - (e3 + 1)]);
            }
        };
        assert(t =~= u);
    }
    Some(ip)
}

/// True for the ASCII whitespace characters trimmed around a fetched text.
pub open spec fn is_space(c: char) -> bool {
    c == ' ' || c == '\t' || c == '\n' || c == '\r' || c == '\u{c}'
}

/// The text with its leading whitespace dropped.
pub open spec fn trim_start_spec(s: Seq<char>) -> Seq<char>
    decreases s.len(),
{
    if s.len() > 0 && is_space(s[0]) {
        trim_start_spec(s.drop_first())
    } else {
        s
    }
}

/// The text with its trailing whitespace dropped.
pub open spec fn trim_end_spec(s: Seq<char>) -> Seq<char>
    decreases s.len(),
{
    if s.len() > 0 && is_space(s.last()) {
        trim_end_spec(s.drop_last())
    } else {
        s
    }
}

/// The text with whitespace dropped at both ends.
pub open spec fn trim_spec(s: Seq<char>) -> Seq<char> {
    trim_end_spec(trim_start_spec(s))
}

proof fn lemma_trim_start_at(s: Seq<char>, k: int)
    requires
        0 <= k <= s.len(),
        forall|i: int| 0 <= i < k ==> is_space(#[trigger] s[i]),
        k == s.len() || !is_space(s[k]),
    ensures
        trim_start_spec(s) == s.subrange(k, s.len() as int),
    decreases k,
{
    if k == 0 {
        assert(s =~= s.subrange(0, s.len() as int));
    } else {
        let rest = s.drop_first();
        assert(rest =~= s.subrange(1, s.len() as int));
        lemma_trim_start_at(rest, k - 1);
        assert(rest.subrange(k - 1, rest.len() as int) =~= s.subrange(k, s.len() as int));
    }
}

proof fn lemma_trim_end_at(s: Seq<char>, k: int)
    requires
        0 <= k <= s.len(),
        forall|i: int| k <= i < s.len() ==> is_space(#[trigger] s[i]),
        k == 0 || !is_space(s[k - 1]),
    ensures
        trim_end_spec(s) == s.subrange(0, k),
    decreases s.len(),
{
    if k == s.len() {
        assert(s =~= s.subrange(0, s.len() as int));
    } else {
        let rest = s.drop_last();
        assert(rest =~= s.subrange(0, s.len() - 1));
        lemma_trim_end_at(rest, k);
        assert(rest.subrange(0, k) =~= s.subrange(0, k));
    }
}

/// True exactly for the characters that `is_space` names.
fn is_space_char(c: char) -> (r: bool)
    ensures
        r == is_space(c),
{
    c == ' ' || c == '\t' || c == '\n' || c == '\r' || c == '\u{c}'
}

/// Parses a dotted-quad IPv4 text after trimming surrounding whitespace.
pub fn parse_ipv4_trimmed(s: &str) -> (r: Option<Ipv4>)
    ensures
        match r {
            Some(ip) => trim_spec(s@) == ipv4_text(ip),
            None => !is_ipv4_text(trim_spec(s@)),
        },
{
    let n = s.unicode_len();
    let mut lo: usize = 0;
    while lo < n && is_space_char(s.get_char(lo))
        invariant
            lo <= n,
            n == s@.len(),
            forall|i: int| 0 <= i < lo ==> is_space(#[trigger] s@[i]),
        decreases n - lo,
    {
        lo = lo + 1;
    }
    let mut hi: usize = n;
    while hi > lo && is_space_char(s.get_char(hi - 1))
        invariant
            lo <= hi <= n,
            n == s@.len(),
            forall|i: int| hi <= i < n ==> is_space(#[trigger] s@[i]),
        decreases hi,
    {
        hi = hi - 1;
    }
    proof {
        lemma_trim_start_at(s@, lo as int);
        let mid = s@.subrange(lo as int, n as int);
        lemma_trim_end_at(mid, hi - lo);
        assert(mid.subrange(0, hi - lo) =~= s@.subrange(lo as int, hi as int));
    }
    let core = s.substring_char(lo, hi);
    parse_ipv4(core)
}

} // verus!
