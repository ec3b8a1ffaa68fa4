//! Byte-level primitives of the wire codec.
//!
//! The relay's messages are JSON text in UTF-8 bytes. This module holds
//! the primitives the envelopes are built from: JSON string escaping,
//! decimal numerals, and the exact-thousandths decimal a numeric reading
//! is written as, each with its encoder, its parser, and the lemma that
//! parsing inverts encoding.
//!
//! Parsers take the remaining input and give back the parsed value and the
//! count of bytes consumed; `None` means the input does not begin with the
//! construct.

use vstd::prelude::*;

use vstd::string::StrSliceExecFns;
use vstd::utf8::decode_utf8;
use vstd::utf8::encode_utf8;
use vstd::utf8::valid_utf8;

verus! {

/// The double quote that delimits a JSON string.
pub const QUOTE: u8 = 0x22;

/// The backslash that opens a JSON escape.
pub const BACKSLASH: u8 = 0x5c;

/// An ASCII decimal digit.
pub open spec fn is_digit(b: u8) -> bool {
    0x30 <= b <= 0x39
}

/// The value of an ASCII decimal digit.
pub open spec fn digit_val(b: u8) -> nat {
    (b - 0x30) as nat
}

/// The ASCII digit of `n`'s last decimal place.
pub open spec fn digit_byte(n: nat) -> u8 {
    (0x30 + n % 10) as u8
}

/// The lowercase hex digit of a value below sixteen.
pub open spec fn hex_byte(n: u8) -> u8 {
    if n < 10 {
        (0x30 + n) as u8
    } else {
        (0x57 + n) as u8
    }
}

/// The value of a hex digit byte, either case.
pub open spec fn unhex(b: u8) -> Option<u8> {
    if 0x30 <= b <= 0x39 {
        Some((b - 0x30) as u8)
    } else if 0x61 <= b <= 0x66 {
        Some((b - 0x57) as u8)
    } else if 0x41 <= b <= 0x46 {
        Some((b - 0x37) as u8)
    } else {
        None
    }
}

/// How one byte of string content is written: quote and backslash get a
/// two-byte escape, control bytes a six-byte `\u00XX` escape, everything
/// else stands as itself.
pub open spec fn esc_of(b: u8) -> Seq<u8> {
    if b == QUOTE {
        seq![BACKSLASH, QUOTE]
    } else if b == BACKSLASH {
        seq![BACKSLASH, BACKSLASH]
    } else if b < 0x20 {
        seq![BACKSLASH, 0x75u8, 0x30u8, 0x30u8, hex_byte(b / 16), hex_byte(b % 16)]
    } else {
        seq![b]
    }
}

/// A byte sequence written as JSON string content.
pub open spec fn spec_escaped(s: Seq<u8>) -> Seq<u8>
    decreases s.len(),
{
    if s.len() == 0 {
        Seq::empty()
    } else {
        esc_of(s[0]) + spec_escaped(s.drop_first())
    }
}

/// A character sequence written as a JSON string, quotes included: the
/// UTF-8 bytes of the characters, escaped.
pub open spec fn spec_json_string(s: Seq<char>) -> Seq<u8> {
    seq![QUOTE] + spec_escaped(encode_utf8(s)) + seq![QUOTE]
}

/// The decimal numeral of `n`, most significant digit first.
pub open spec fn spec_digits(n: nat) -> Seq<u8>
    decreases n,
{
    if n < 10 {
        seq![digit_byte(n)]
    } else {
        spec_digits(n / 10) + seq![digit_byte(n)]
    }
}

/// The three-digit, zero-padded numeral of a value below a thousand.
pub open spec fn spec_frac3(f: nat) -> Seq<u8> {
    seq![digit_byte(f / 100), digit_byte(f / 10), digit_byte(f)]
}

/// The magnitude of a signed value, as a mathematical natural.
pub open spec fn abs_nat(m: i64) -> nat {
    if m >= 0 {
        m as nat
    } else {
        (-(m as int)) as nat
    }
}

/// A thousandths count written as a decimal: the whole units, and the
/// fraction as exactly three digits when it is not zero. Five hundred
/// thousandths print as `0.500`, a negative unit and a half as `-1.500`,
/// two thousand thousandths as `2`.
pub open spec fn spec_millis(m: i64) -> Seq<u8> {
    let a = abs_nat(m);
    (if m < 0 {
        seq![0x2du8]
    } else {
        Seq::<u8>::empty()
    }) + spec_digits(a / 1000) + (if a % 1000 == 0 {
        Seq::<u8>::empty()
    } else {
        seq![0x2eu8] + spec_frac3(a % 1000)
    })
}

/// Appends one escaped content byte.
fn push_escaped_byte(out: &mut Vec<u8>, b: u8)
    ensures
        final(out)@ == old(out)@ + esc_of(b),
{
    let ghost start = out@;
    if b == QUOTE {
        out.push(BACKSLASH);
        out.push(QUOTE);
    } else if b == BACKSLASH {
        out.push(BACKSLASH);
        out.push(BACKSLASH);
    } else if b < 0x20 {
        out.push(BACKSLASH);
        out.push(0x75);
        out.push(0x30);
        out.push(0x30);
        let hi = b / 16;
        let lo = b % 16;
        out.push(if hi < 10 {
            0x30 + hi
        } else {
            0x57 + hi
        });
        out.push(if lo < 10 {
            0x30 + lo
        } else {
            0x57 + lo
        });
    } else {
        out.push(b);
    }
    proof {
        assert(out@ =~= start + esc_of(b));
    }
}

/// Escaping distributes over appending one byte at the end.
proof fn lemma_escaped_snoc(s: Seq<u8>, b: u8)
    ensures
        spec_escaped(s.push(b)) == spec_escaped(s) + esc_of(b),
    decreases s.len(),
{
    if s.len() == 0 {
        assert(s.push(b).drop_first() =~= Seq::<u8>::empty());
        assert(s.push(b)[0] == b);
        assert(spec_escaped(Seq::<u8>::empty()) == Seq::<u8>::empty());
        assert(spec_escaped(s.push(b)) == esc_of(b) + spec_escaped(s.push(b).drop_first()));
        assert(spec_escaped(s.push(b)) =~= spec_escaped(s) + esc_of(b));
    } else {
        assert(s.push(b)[0] == s[0]);
        assert(s.push(b).drop_first() =~= s.drop_first().push(b));
        lemma_escaped_snoc(s.drop_first(), b);
        assert(spec_escaped(s.push(b)) == esc_of(s[0]) + spec_escaped(s.drop_first().push(b)));
        assert(spec_escaped(s.push(b)) =~= spec_escaped(s) + esc_of(b));
    }
}

/// Appends the escaped content of `bytes`.
fn push_escaped(out: &mut Vec<u8>, bytes: &Vec<u8>)
    ensures
        final(out)@ == old(out)@ + spec_escaped(bytes@),
{
    let ghost start = out@;
    let n = bytes.len();
    proof {
        assert(bytes@.take(0) =~= Seq::<u8>::empty());
        assert(start + spec_escaped(bytes@.take(0)) =~= start);
    }
    for i in 0..n
        invariant
            n == bytes@.len(),
            out@ == start + spec_escaped(bytes@.take(i as int)),
    {
        push_escaped_byte(out, bytes[i]);
        proof {
            assert(bytes@.take(i + 1) =~= bytes@.take(i as int).push(bytes@[i as int]));
            lemma_escaped_snoc(bytes@.take(i as int), bytes@[i as int]);
            assert(out@ =~= start + spec_escaped(bytes@.take(i + 1)));
        }
    }
    proof {
        assert(bytes@.take(n as int) =~= bytes@);
    }
}

/// Appends a character sequence as a quoted, escaped JSON string.
pub fn push_json_string(out: &mut Vec<u8>, s: &String)
    ensures
        final(out)@ == old(out)@ + spec_json_string(s@),
{
    let ghost start = out@;
    out.push(QUOTE);
    let bytes = s.as_str().as_bytes_vec();
    push_escaped(out, &bytes);
    out.push(QUOTE);
    proof {
        assert(out@ =~= start + spec_json_string(s@));
    }
}

/// Appends the decimal numeral of `n`.
pub fn push_u64(out: &mut Vec<u8>, n: u64)
    ensures
        final(out)@ == old(out)@ + spec_digits(n as nat),
    decreases n,
{
    let ghost start = out@;
    if n >= 10 {
        push_u64(out, n / 10);
    }
    out.push(0x30 + (n % 10) as u8);
    proof {
        assert(out@ =~= start + spec_digits(n as nat));
    }
}

/// Appends the decimal of a thousandths count, as `spec_millis` says.
pub fn push_millis(out: &mut Vec<u8>, m: i64)
    ensures
        final(out)@ == old(out)@ + spec_millis(m),
{
    let ghost start = out@;
    let a: u64 = if m == i64::MIN {
        9223372036854775808u64
    } else if m < 0 {
        (-m) as u64
    } else {
        m as u64
    };
    if m < 0 {
        out.push(0x2d);
    }
    push_u64(out, a / 1000);
    let f = a % 1000;
    if f != 0 {
        out.push(0x2e);
        out.push(0x30 + (f / 100) as u8);
        out.push(0x30 + ((f / 10) % 10) as u8);
        out.push(0x30 + (f % 10) as u8);
    }
    proof {
        assert(a == abs_nat(m));
        assert(out@ =~= start + spec_millis(m));
    }
}

/// Reads JSON string content after its opening quote: the content bytes
/// and the count consumed, closing quote included. Accepts the standard
/// two-byte escapes and `\u00XX` escapes of bytes below `0x80`; refuses a
/// raw control byte, an unterminated string and any other escape.
pub open spec fn spec_scan_string(s: Seq<u8>) -> Option<(Seq<u8>, int)>
    decreases s.len(),
{
    if s.len() == 0 {
        None
    } else if s[0] == QUOTE {
        Some((Seq::empty(), 1))
    } else if s[0] == BACKSLASH {
        if s.len() < 2 {
            None
        } else if s[1] == 0x75 {
            if s.len() < 6 {
                None
            } else if s[2] == 0x30 && s[3] == 0x30 && unhex(s[4]) is Some && unhex(s[5]) is Some
                && unhex(s[4]).unwrap() * 16 + unhex(s[5]).unwrap() < 0x80 {
                let b = (unhex(s[4]).unwrap() * 16 + unhex(s[5]).unwrap()) as u8;
                match spec_scan_string(s.skip(6)) {
                    Some((c, n)) => Some((seq![b] + c, 6 + n)),
                    None => None,
                }
            } else {
                None
            }
        } else {
            match unescape_of(s[1]) {
                Some(b) => match spec_scan_string(s.skip(2)) {
                    Some((c, n)) => Some((seq![b] + c, 2 + n)),
                    None => None,
                },
                None => None,
            }
        }
    } else if s[0] < 0x20 {
        None
    } else {
        match spec_scan_string(s.skip(1)) {
            Some((c, n)) => Some((seq![s[0]] + c, 1 + n)),
            None => None,
        }
    }
}

/// The byte a two-byte escape stands for.
pub open spec fn unescape_of(e: u8) -> Option<u8> {
    if e == QUOTE {
        Some(QUOTE)
    } else if e == BACKSLASH {
        Some(BACKSLASH)
    } else if e == 0x2f {
        Some(0x2fu8)
    } else if e == 0x62 {
        Some(0x08u8)
    } else if e == 0x66 {
        Some(0x0cu8)
    } else if e == 0x6e {
        Some(0x0au8)
    } else if e == 0x72 {
        Some(0x0du8)
    } else if e == 0x74 {
        Some(0x09u8)
    } else {
        None
    }
}

/// A successful string scan consumed at least the closing quote and no
/// more than the input.
pub proof fn lemma_scan_string_len(s: Seq<u8>)
    requires
        spec_scan_string(s) is Some,
    ensures
        1 <= spec_scan_string(s).unwrap().1 <= s.len(),
    decreases s.len(),
{
    if s[0] == QUOTE {
    } else if s[0] == BACKSLASH {
        if s[1] == 0x75 {
            lemma_scan_string_len(s.skip(6));
        } else {
            lemma_scan_string_len(s.skip(2));
        }
    } else {
        lemma_scan_string_len(s.skip(1));
    }
}

/// Scanning inverts escaping: escaped content followed by the closing
/// quote scans back to the content.
pub proof fn lemma_scan_escaped(content: Seq<u8>, rest: Seq<u8>)
    ensures
        spec_scan_string(spec_escaped(content) + seq![QUOTE] + rest) == Some::<(Seq<u8>, int)>(
            (content, spec_escaped(content).len() as int + 1),
        ),
    decreases content.len(),
{
    let s = spec_escaped(content) + seq![QUOTE] + rest;
    if content.len() == 0 {
        assert(s =~= seq![QUOTE] + rest);
        assert(s[0] == QUOTE);
        assert(spec_scan_string(s).unwrap().0 =~= content);
    } else {
        let b = content[0];
        let tail = content.drop_first();
        let e = esc_of(b);
        assert(spec_escaped(content) == e + spec_escaped(tail));
        lemma_scan_escaped(tail, rest);
        let s2 = spec_escaped(tail) + seq![QUOTE] + rest;
        assert(s =~= e + s2);
        if b == QUOTE {
            assert(s[0] == BACKSLASH && s[1] == QUOTE);
            assert(s.skip(2) =~= s2);
            assert(spec_scan_string(s).unwrap().0 =~= content);
        } else if b == BACKSLASH {
            assert(s[0] == BACKSLASH && s[1] == BACKSLASH);
            assert(s.skip(2) =~= s2);
            assert(spec_scan_string(s).unwrap().0 =~= content);
        } else if b < 0x20 {
            assert(s[0] == BACKSLASH && s[1] == 0x75 && s[2] == 0x30 && s[3] == 0x30);
            assert(s[4] == hex_byte(b / 16) && s[5] == hex_byte(b % 16));
            assert(unhex(hex_byte(b / 16)) == Some((b / 16) as u8));
            assert(unhex(hex_byte(b % 16)) == Some((b % 16) as u8));
            assert((b / 16) * 16 + b % 16 == b);
            assert(s.skip(6) =~= s2);
            assert(spec_scan_string(s).unwrap().0 =~= content);
        } else {
            assert(s[0] == b);
            assert(s[0] != QUOTE && s[0] != BACKSLASH && !(s[0] < 0x20));
            assert(s.skip(1) =~= s2);
            assert(spec_scan_string(s).unwrap().0 =~= content);
        }
    }
}

/// Scans string content at position `i` of `input`, right after an
/// opening quote, exactly as `spec_scan_string` reads the remaining
/// input. Hands back the content bytes and the position after the closing
/// quote.
pub fn scan_string(input: &Vec<u8>, i: usize) -> (r: Option<(Vec<u8>, usize)>)
    requires
        i <= input@.len(),
    ensures
        match (r, spec_scan_string(input@.skip(i as int))) {
            (Some((c, j)), Some((sc, n))) => c@ == sc && j == i + n,
            (None, None) => true,
            _ => false,
        },
{
    let mut content: Vec<u8> = Vec::new();
    let mut pos = i;
    let len = input.len();
    loop
        invariant
            i <= pos <= len,
            len == input@.len(),
            match spec_scan_string(input@.skip(i as int)) {
                Some((sc, n)) => match spec_scan_string(input@.skip(pos as int)) {
                    Some((sc2, n2)) => sc == content@ + sc2 && i + n == pos + n2,
                    None => false,
                },
                None => spec_scan_string(input@.skip(pos as int)) is None,
            },
        decreases len - pos,
    {
        let ghost s = input@.skip(pos as int);
        if pos >= len {
            return None;
        }
        let b = input[pos];
        assert(b == s[0]);
        if b == QUOTE {
            return Some((content, pos + 1));
        } else if b == BACKSLASH {
            if len - pos < 2 {
                return None;
            }
            let e = input[pos + 1];
            assert(e == s[1]);
            if e == 0x75 {
                if len - pos < 6 {
                    return None;
                }
                let h0 = input[pos + 2];
                let h1 = input[pos + 3];
                let h4 = input[pos + 4];
                let h5 = input[pos + 5];
                assert(h0 == s[2] && h1 == s[3] && h4 == s[4] && h5 == s[5]);
                if h0 != 0x30 || h1 != 0x30 {
                    return None;
                }
                let v4 = unhex_byte(h4);
                let v5 = unhex_byte(h5);
                match (v4, v5) {
                    (Some(x4), Some(x5)) => {
                        let v = x4 * 16 + x5;
                        if v >= 0x80 {
                            return None;
                        }
                        content.push(v);
                        proof {
                            assert(input@.skip(pos + 6) =~= s.skip(6));
                        }
                        pos = pos + 6;
                    },
                    _ => {
                        return None;
                    },
                }
            } else {
                let u = unescape_byte(e);
                match u {
                    Some(b2) => {
                        content.push(b2);
                        proof {
                            assert(input@.skip(pos + 2) =~= s.skip(2));
                        }
                        pos = pos + 2;
                    },
                    None => {
                        return None;
                    },
                }
            }
        } else if b < 0x20 {
            return None;
        } else {
            content.push(b);
            proof {
                assert(input@.skip(pos + 1) =~= s.skip(1));
            }
            pos = pos + 1;
        }
    }
}

/// The value of a hex digit byte, as `unhex` says.
fn unhex_byte(b: u8) -> (r: Option<u8>)
    ensures
        r == unhex(b),
{
    if 0x30 <= b && b <= 0x39 {
        Some(b - 0x30)
    } else if 0x61 <= b && b <= 0x66 {
        Some(b - 0x57)
    } else if 0x41 <= b && b <= 0x46 {
        Some(b - 0x37)
    } else {
        None
    }
}

/// The byte of a two-byte escape, as `unescape_of` says.
fn unescape_byte(e: u8) -> (r: Option<u8>)
    ensures
        r == unescape_of(e),
{
    if e == QUOTE {
        Some(QUOTE)
    } else if e == BACKSLASH {
        Some(BACKSLASH)
    } else if e == 0x2f {
        Some(0x2f)
    } else if e == 0x62 {
        Some(0x08)
    } else if e == 0x66 {
        Some(0x0c)
    } else if e == 0x6e {
        Some(0x0a)
    } else if e == 0x72 {
        Some(0x0d)
    } else if e == 0x74 {
        Some(0x09)
    } else {
        None
    }
}

/// Greedily reads decimal digits, folding them onto `acc`; gives the
/// folded value and the count of digit bytes read.
pub open spec fn spec_scan_digits(s: Seq<u8>, acc: nat) -> (nat, int)
    decreases s.len(),
{
    if s.len() > 0 && is_digit(s[0]) {
        let r = spec_scan_digits(s.skip(1), acc * 10 + digit_val(s[0]));
        (r.0, 1 + r.1)
    } else {
        (acc, 0)
    }
}

/// Reads an unsigned decimal numeral: at least one digit, value within
/// the machine word; a larger value refuses the whole numeral.
pub open spec fn spec_parse_u64(s: Seq<u8>) -> Option<(u64, int)> {
    if s.len() > 0 && is_digit(s[0]) {
        let r = spec_scan_digits(s, 0);
        if r.0 <= u64::MAX {
            Some((r.0 as u64, r.1))
        } else {
            None
        }
    } else {
        None
    }
}

/// The digit scan consumes between zero bytes and the whole input, and
/// never shrinks the accumulator.
pub proof fn lemma_scan_digits_bounds(s: Seq<u8>, acc: nat)
    ensures
        0 <= spec_scan_digits(s, acc).1 <= s.len(),
        spec_scan_digits(s, acc).0 >= acc,
    decreases s.len(),
{
    if s.len() > 0 && is_digit(s[0]) {
        lemma_scan_digits_bounds(s.skip(1), acc * 10 + digit_val(s[0]));
    }
}

/// A numeral is digits, at least one.
pub proof fn lemma_digits_all_digits(n: nat)
    ensures
        spec_digits(n).len() >= 1,
        forall|i: int| 0 <= i < spec_digits(n).len() ==> is_digit(#[trigger] spec_digits(n)[i]),
    decreases n,
{
    if n >= 10 {
        lemma_digits_all_digits(n / 10);
    }
}

/// Digits folded onto an accumulator, front first.
pub open spec fn val_app(ds: Seq<u8>, acc: nat) -> nat
    decreases ds.len(),
{
    if ds.len() == 0 {
        acc
    } else {
        val_app(ds.drop_first(), acc * 10 + digit_val(ds[0]))
    }
}

/// Scanning a run of digits followed by a non-digit folds exactly the run.
proof fn lemma_scan_digit_run(ds: Seq<u8>, rest: Seq<u8>, acc: nat)
    requires
        forall|i: int| 0 <= i < ds.len() ==> is_digit(#[trigger] ds[i]),
        rest.len() == 0 || !is_digit(rest[0]),
    ensures
        spec_scan_digits(ds + rest, acc) == (val_app(ds, acc), ds.len() as int),
    decreases ds.len(),
{
    let s = ds + rest;
    if ds.len() == 0 {
        assert(s =~= rest);
    } else {
        assert(s[0] == ds[0]);
        assert(s.skip(1) =~= ds.drop_first() + rest);
        lemma_scan_digit_run(ds.drop_first(), rest, acc * 10 + digit_val(ds[0]));
    }
}

/// Folding one more digit at the end multiplies and adds.
proof fn lemma_val_app_snoc(ds: Seq<u8>, d: u8, acc: nat)
    ensures
        val_app(ds.push(d), acc) == val_app(ds, acc) * 10 + digit_val(d),
    decreases ds.len(),
{
    if ds.len() == 0 {
        assert(ds.push(d)[0] == d);
        assert(ds.push(d).drop_first() =~= Seq::<u8>::empty());
        assert(val_app(Seq::<u8>::empty(), acc * 10 + digit_val(d)) == acc * 10 + digit_val(d));
    } else {
        assert(ds.push(d)[0] == ds[0]);
        assert(ds.push(d).drop_first() =~= ds.drop_first().push(d));
        lemma_val_app_snoc(ds.drop_first(), d, acc * 10 + digit_val(ds[0]));
    }
}

/// Folding the numeral of `n` from zero gives back `n`.
proof fn lemma_val_app_digits(n: nat)
    ensures
        val_app(spec_digits(n), 0) == n,
    decreases n,
{
    if n < 10 {
        assert(spec_digits(n)[0] == digit_byte(n));
        assert(spec_digits(n).drop_first() =~= Seq::<u8>::empty());
        assert(val_app(Seq::<u8>::empty(), 0 * 10 + digit_val(digit_byte(n))) == digit_val(
            digit_byte(n),
        ));
        assert(digit_val(digit_byte(n)) == n);
    } else {
        lemma_val_app_digits(n / 10);
        assert(spec_digits(n) =~= spec_digits(n / 10).push(digit_byte(n)));
        lemma_val_app_snoc(spec_digits(n / 10), digit_byte(n), 0);
        assert(val_app(spec_digits(n), 0) == (n / 10) * 10 + n % 10);
    }
}

/// Parsing inverts the numeral encoder: the numeral of `n` followed by a
/// non-digit parses back to `n`.
pub proof fn lemma_parse_u64_encode(n: u64, rest: Seq<u8>)
    requires
        rest.len() == 0 || !is_digit(rest[0]),
    ensures
        spec_parse_u64(spec_digits(n as nat) + rest) == Some::<(u64, int)>(
            (n, spec_digits(n as nat).len() as int),
        ),
{
    let ds = spec_digits(n as nat);
    lemma_digits_all_digits(n as nat);
    assert((ds + rest)[0] == ds[0]);
    lemma_scan_digit_run(ds, rest, 0);
    lemma_val_app_digits(n as nat);
}

/// Builds the signed thousandths count out of sign, units and fraction,
/// refusing a value outside the machine word.
pub open spec fn mk_millis(neg: bool, units: nat, frac: nat, consumed: int) -> Option<(i64, int)> {
    let v = units * 1000 + frac;
    if neg {
        if v <= 0x8000000000000000 {
            Some(((-(v as int)) as i64, consumed))
        } else {
            None
        }
    } else {
        if v <= 0x7fffffffffffffff {
            Some((v as i64, consumed))
        } else {
            None
        }
    }
}

/// Reads a signed decimal with an optional exactly-three-digit fraction,
/// as a thousandths count.
pub open spec fn spec_parse_millis(s: Seq<u8>) -> Option<(i64, int)> {
    let neg = s.len() > 0 && s[0] == 0x2d;
    let t = if neg {
        s.skip(1)
    } else {
        s
    };
    let sign: int = if neg {
        1
    } else {
        0
    };
    match spec_parse_u64(t) {
        Some((units, n)) => {
            let after = t.skip(n);
            if after.len() > 0 && after[0] == 0x2e {
                if after.len() >= 4 && is_digit(after[1]) && is_digit(after[2]) && is_digit(
                    after[3],
                ) {
                    let frac = digit_val(after[1]) * 100 + digit_val(after[2]) * 10 + digit_val(
                        after[3],
                    );
                    mk_millis(neg, units as nat, frac, sign + n + 4)
                } else {
                    None
                }
            } else {
                mk_millis(neg, units as nat, 0, sign + n)
            }
        },
        None => None,
    }
}

/// Parsing inverts the thousandths encoder: the decimal of `m` followed
/// by a byte that extends neither the numeral nor the fraction parses
/// back to `m`.
#[verifier::rlimit(100)]
pub proof fn lemma_parse_millis_encode(m: i64, rest: Seq<u8>)
    requires
        rest.len() == 0 || (!is_digit(rest[0]) && rest[0] != 0x2e),
    ensures
        spec_parse_millis(spec_millis(m) + rest) == Some::<(i64, int)>(
            (m, spec_millis(m).len() as int),
        ),
{
    let a = abs_nat(m);
    let units = a / 1000;
    let frac = a % 1000;
    let ds = spec_digits(units);
    let s = spec_millis(m) + rest;
    lemma_digits_all_digits(units);
    assert(units <= u64::MAX);
    if frac == 0 {
        if m < 0 {
            assert(s =~= seq![0x2du8] + (ds + rest));
            assert(s[0] == 0x2d);
            assert(s.skip(1) =~= ds + rest);
            lemma_parse_u64_encode(units as u64, rest);
            assert((ds + rest).skip(ds.len() as int) =~= rest);
        } else {
            assert(s =~= ds + rest);
            assert(!(s[0] == 0x2d));
            lemma_parse_u64_encode(units as u64, rest);
            assert((ds + rest).skip(ds.len() as int) =~= rest);
        }
        assert(units * 1000 + 0 == a);
    } else {
        let fs = seq![0x2eu8] + spec_frac3(frac);
        if m < 0 {
            assert(s =~= seq![0x2du8] + (ds + (fs + rest)));
            assert(s[0] == 0x2d);
            assert(s.skip(1) =~= ds + (fs + rest));
        } else {
            assert(s =~= ds + (fs + rest));
            assert(!(s[0] == 0x2d));
        }
        assert((fs + rest)[0] == 0x2e);
        assert(!is_digit(0x2e));
        lemma_parse_u64_encode(units as u64, fs + rest);
        assert((ds + (fs + rest)).skip(ds.len() as int) =~= fs + rest);
        let after = fs + rest;
        assert(after[1] == digit_byte(frac / 100));
        assert(after[2] == digit_byte(frac / 10));
        assert(after[3] == digit_byte(frac));
        assert(digit_val(digit_byte(frac / 100)) == frac / 100) by {
            assert(frac / 100 < 10);
        }
        assert(digit_val(digit_byte(frac / 10)) == (frac / 10) % 10);
        assert(digit_val(digit_byte(frac)) == frac % 10);
        assert((frac / 100) * 100 + ((frac / 10) % 10) * 10 + frac % 10 == frac) by {
            assert(frac < 1000);
        }
        assert(units * 1000 + frac == a);
    }
}

/// Reads an unsigned decimal numeral at position `i`, exactly as
/// `spec_parse_u64` reads the remaining input. Hands back the value and
/// the position after the numeral.
pub fn parse_u64(input: &Vec<u8>, i: usize) -> (r: Option<(u64, usize)>)
    requires
        i <= input@.len(),
    ensures
        match (r, spec_parse_u64(input@.skip(i as int))) {
            (Some((v, j)), Some((sv, n))) => v == sv && j == i + n && i <= j <= input@.len(),
            (None, None) => true,
            _ => false,
        },
{
    let len = input.len();
    if i >= len || input[i] < 0x30 || input[i] > 0x39 {
        return None;
    }
    let mut pos = i;
    let mut acc: u128 = 0;
    loop
        invariant
            i <= pos <= len,
            len == input@.len(),
            acc <= u64::MAX as u128,
            ({
                let full = spec_scan_digits(input@.skip(i as int), 0);
                let here = spec_scan_digits(input@.skip(pos as int), acc as nat);
                full.0 == here.0 && full.1 == (pos - i) + here.1
            }),
        ensures
            i <= pos <= len,
            acc <= u64::MAX as u128,
            spec_scan_digits(input@.skip(i as int), 0) == (acc as nat, (pos - i) as int),
        decreases len - pos,
    {
        let ghost s = input@.skip(pos as int);
        if pos >= len || input[pos] < 0x30 || input[pos] > 0x39 {
            proof {
                assert(spec_scan_digits(s, acc as nat) == (acc as nat, 0int));
            }
            break;
        }
        let d = input[pos] - 0x30;
        proof {
            assert(s[0] == input@[pos as int]);
            assert(input@.skip(pos + 1) =~= s.skip(1));
        }
        let next = acc * 10 + d as u128;
        if next > u64::MAX as u128 {
            proof {
                assert(spec_scan_digits(s, acc as nat).0 == spec_scan_digits(
                    s.skip(1),
                    acc as nat * 10 + digit_val(s[0]),
                ).0);
                lemma_scan_digits_bounds(s.skip(1), acc as nat * 10 + digit_val(s[0]));
                assert(spec_scan_digits(input@.skip(i as int), 0).0 > u64::MAX);
            }
            return None;
        }
        acc = next;
        pos = pos + 1;
    }
    Some((acc as u64, pos))
}

/// Reads a signed decimal with an optional three-digit fraction at
/// position `i`, exactly as `spec_parse_millis` reads the remaining
/// input. Hands back the thousandths count and the position after it.
pub fn parse_millis(input: &Vec<u8>, i: usize) -> (r: Option<(i64, usize)>)
    requires
        i <= input@.len(),
    ensures
        match (r, spec_parse_millis(input@.skip(i as int))) {
            (Some((v, j)), Some((sv, n))) => v == sv && j == i + n && i <= j <= input@.len(),
            (None, None) => true,
            _ => false,
        },
{
    let len = input.len();
    let ghost s = input@.skip(i as int);
    let neg = i < len && input[i] == 0x2d;
    proof {
        if i < len {
            assert(s[0] == input@[i as int]);
        }
        assert(neg == (s.len() > 0 && s[0] == 0x2d));
    }
    let start = if neg {
        i + 1
    } else {
        i
    };
    let ghost t = if neg {
        s.skip(1)
    } else {
        s
    };
    proof {
        assert(input@.skip(start as int) =~= t);
    }
    match parse_u64(input, start) {
        Some((units, after_units)) => {
            let ghost n_units = after_units - start;
            let ghost after = t.skip(n_units);
            proof {
                assert(input@.skip(after_units as int) =~= after);
            }
            let mut frac: u64 = 0;
            let mut end = after_units;
            let dot = after_units < len && input[after_units] == 0x2e;
            proof {
                if after_units < len {
                    assert(input@.skip(after_units as int)[0] == input@[after_units as int]);
                }
                assert(dot == (after.len() > 0 && after[0] == 0x2e));
            }
            if dot {
                if len - after_units < 4 {
                    return None;
                }
                let d1 = input[after_units + 1];
                let d2 = input[after_units + 2];
                let d3 = input[after_units + 3];
                proof {
                    assert(after[1] == input@[after_units + 1]);
                    assert(after[2] == input@[after_units + 2]);
                    assert(after[3] == input@[after_units + 3]);
                }
                if d1 < 0x30 || d1 > 0x39 || d2 < 0x30 || d2 > 0x39 || d3 < 0x30 || d3 > 0x39 {
                    return None;
                }
                frac = (d1 - 0x30) as u64 * 100 + (d2 - 0x30) as u64 * 10 + (d3 - 0x30) as u64;
                proof {
                    assert(frac as nat == digit_val(after[1]) * 100 + digit_val(after[2]) * 10
                        + digit_val(after[3]));
                }
                end = after_units + 4;
            }
            let v: u128 = units as u128 * 1000 + frac as u128;
            if neg {
                if v > 0x8000000000000000u128 {
                    return None;
                }
                let m = (-(v as i128)) as i64;
                Some((m, end))
            } else {
                if v > 0x7fffffffffffffffu128 {
                    return None;
                }
                Some((v as i64, end))
            }
        },
        None => None,
    }
}

/// Relies on String::from_utf8: it accepts exactly the byte sequences
/// that are valid UTF-8 and decodes them to their characters.
#[verifier::external_body]
pub fn string_from_utf8(bytes: Vec<u8>) -> (r: Option<String>)
    ensures
        r is Some <==> valid_utf8(bytes@),
        r is Some ==> r.unwrap()@ == decode_utf8(bytes@),
{
    match String::from_utf8(bytes) {
        Ok(s) => Some(s),
        Err(_) => None,
    }
}

} // verus!
