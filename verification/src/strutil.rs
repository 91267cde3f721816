//! Small string utilities: equality through views and an exact decimal
//! parser for line values ("-0.5", "+1.25", "2"), which are carried in
//! thousandths.

use vstd::prelude::*;

use vstd::string::StringExecFns;

use crate::numeric::{lemma_pow10_concrete, lemma_pow10_le, spec_pow10};

verus! {

/// String equality through the character views.
pub fn str_eq(a: &str, b: &str) -> (r: bool)
    ensures
        r == (a@ == b@),
{
    let sa: String = a.to_owned();
    let sb: String = b.to_owned();
    sa == sb
}

/// A decimal digit.
pub open spec fn spec_is_digit(c: char) -> bool {
    48 <= c as int <= 57
}

/// Every character a decimal digit.
pub open spec fn spec_all_digits(s: Seq<char>) -> bool {
    forall|i: int| 0 <= i < s.len() ==> spec_is_digit(s[i])
}

/// Value of a most-significant-first digit string.
pub open spec fn spec_digits_val(s: Seq<char>) -> int
    decreases s.len(),
{
    if s.len() == 0 {
        0
    } else {
        spec_digits_val(s.drop_last()) * 10 + (s.last() as int - 48)
    }
}

/// Index of the first occurrence of `c`, or the length when absent.
pub open spec fn spec_find_char(s: Seq<char>, c: char) -> int
    decreases s.len(),
{
    if s.len() == 0 {
        0
    } else if s[0] == c {
        0
    } else {
        1 + spec_find_char(s.drop_first(), c)
    }
}

/// A line value string as an integer count of thousandths: an optional sign,
/// then digits with at most one dot and at most three fractional digits.
/// The integer part is capped at twelve digits.
pub open spec fn spec_parse_milli(s: Seq<char>) -> Option<int> {
    if s.len() == 0 || !vstd::utf8::is_ascii_chars(s) {
        None
    } else {
        let neg = s[0] == '-';
        let d = if s[0] == '-' || s[0] == '+' {
            s.drop_first()
        } else {
            s
        };
        let dot = spec_find_char(d, '.');
        let magnitude = if dot == d.len() {
            if 1 <= d.len() <= 12 && spec_all_digits(d) {
                Some(spec_digits_val(d) * 1000)
            } else {
                None
            }
        } else {
            let ip = d.take(dot);
            let fp = d.skip(dot + 1);
            if ip.len() <= 12 && fp.len() <= 3 && ip.len() + fp.len() >= 1 && spec_all_digits(ip)
                && spec_all_digits(fp) {
                Some(spec_digits_val(ip) * 1000 + spec_digits_val(fp) * spec_pow10(
                    (3 - fp.len()) as nat,
                ))
            } else {
                None
            }
        };
        match magnitude {
            Some(m) => Some(
                if neg {
                    -m
                } else {
                    m
                },
            ),
            None => None,
        }
    }
}

/// An ASCII character is its own byte: the `u8` cast round-trips.
proof fn lemma_ascii_char_byte(s: Seq<char>, i: int)
    requires
        vstd::utf8::is_ascii_chars(s),
        0 <= i < s.len(),
    ensures
        s[i] as u8 == s[i] as int,
        (s[i] as int) < 128,
        s[i] as int >= 0,
{
    assert('\0' <= s[i] && s[i] <= '\u{7f}');
}

/// A digit string of length `n` is below `10^n`.
proof fn lemma_digits_val_bound(s: Seq<char>)
    requires
        spec_all_digits(s),
    ensures
        0 <= spec_digits_val(s) < spec_pow10(s.len()),
    decreases s.len(),
{
    if s.len() > 0 {
        assert(spec_all_digits(s.drop_last())) by {
            assert(forall|i: int| 0 <= i < s.len() - 1 ==> s.drop_last()[i] == s[i]);
        }
        lemma_digits_val_bound(s.drop_last());
        assert(spec_pow10(s.len()) == 10 * spec_pow10((s.len() - 1) as nat));
        assert(spec_is_digit(s.last()));
    }
}

/// The scan position of the first `c` matches `spec_find_char`.
proof fn lemma_find_char(s: Seq<char>, c: char, i: int)
    requires
        0 <= i <= s.len(),
        forall|k: int| 0 <= k < i ==> s[k] != c,
        i < s.len() ==> s[i] == c,
    ensures
        spec_find_char(s, c) == i,
    decreases s.len(),
{
    if s.len() > 0 {
        if i == 0 {
        } else {
            let t = s.drop_first();
            assert(forall|k: int| 0 <= k < i - 1 ==> t[k] == s[k + 1] && t[k] != c);
            assert(i - 1 < t.len() ==> t[i - 1] == s[i]);
            lemma_find_char(t, c, i - 1);
        }
    }
}

/// Reads a digit run `sub` out of the bytes of an ASCII string, returning
/// its value, or `None` when a non-digit occurs.
fn digits_value(s: &str, from: usize, to: usize, ghost_sub: Ghost<Seq<char>>) -> (r: Option<i64>)
    requires
        vstd::string::is_ascii(s),
        from <= to <= s@.len(),
        ghost_sub@ == s@.subrange(from as int, to as int),
        to - from <= 12,
    ensures
        match r {
            Some(v) => spec_all_digits(ghost_sub@) && v == spec_digits_val(ghost_sub@) && 0 <= v
                < 1_000_000_000_000,
            None => !spec_all_digits(ghost_sub@),
        },
{
    proof {
        vstd::string::is_ascii_spec_bytes(s);
    }
    let b = s.as_bytes();
    let ghost sub = ghost_sub@;
    let mut val: i64 = 0;
    let mut i: usize = from;
    while i < to
        invariant
            vstd::string::is_ascii(s),
            from <= i <= to <= s@.len(),
            b@ == Seq::new(s@.len(), |k: int| s@.index(k) as u8),
            b@.len() == s@.len(),
            sub == s@.subrange(from as int, to as int),
            sub == ghost_sub@,
            to - from <= 12,
            spec_all_digits(sub.take(i - from)),
            val == spec_digits_val(sub.take(i - from)),
            0 <= val < spec_pow10((i - from) as nat),
        decreases to - i,
    {
        proof {
            lemma_pow10_le((i - from) as nat, 11);
            lemma_pow10_concrete();
            assert(spec_pow10(11) * 10 == spec_pow10(12)) by {
                reveal_with_fuel(spec_pow10, 13);
            }
            assert(spec_pow10(12) == 1_000_000_000_000) by {
                reveal_with_fuel(spec_pow10, 13);
            }
        }
        let byte = b[i];
        if byte < 48 || byte > 57 {
            proof {
                assert(sub[i - from] == s@[i as int]);
                assert(s@[i as int] as u8 == byte);
                assert(!spec_is_digit(sub[i - from])) by {
                    lemma_ascii_char_byte(s@, i as int);
                }
            }
            return None;
        }
        val = val * 10 + ((byte - 48) as i64);
        proof {
            assert(sub[i - from] == s@[i as int]);
            assert(s@[i as int] as u8 == byte);
            assert(spec_is_digit(sub[i - from]) && sub[i - from] as int - 48 == byte - 48) by {
                lemma_ascii_char_byte(s@, i as int);
            }
            assert(sub.take(i - from + 1).drop_last() =~= sub.take(i - from));
            assert(sub.take(i - from + 1).last() == sub[i - from]);
            assert(spec_all_digits(sub.take(i - from + 1))) by {
                assert(forall|k: int|
                    0 <= k < i - from + 1 ==> sub.take(i - from + 1)[k] == sub[k]);
            }
        }
        i = i + 1;
    }
    proof {
        assert(sub.take(to - from) =~= sub);
        lemma_pow10_le((to - from) as nat, 12);
        assert(spec_pow10(12) == 1_000_000_000_000) by {
            reveal_with_fuel(spec_pow10, 13);
        }
    }
    Some(val)
}

/// Parses a signed decimal line value into thousandths, exactly as
/// `spec_parse_milli` describes.
pub fn parse_milli(s: &str) -> (r: Option<i64>)
    ensures
        match r {
            Some(v) => spec_parse_milli(s@) == Some(v as int),
            None => spec_parse_milli(s@) is None,
        },
{
    if !s.is_ascii() {
        return None;
    }
    proof {
        vstd::string::is_ascii_spec_bytes(s);
    }
    let b = s.as_bytes();
    let n = b.len();
    if n == 0 {
        return None;
    }
    let first = b[0];
    proof {
        assert(s@[0] as u8 == first);
        lemma_ascii_char_byte(s@, 0);
    }
    let neg = first == 45;
    let start: usize = if first == 45 || first == 43 {
        1
    } else {
        0
    };
    let ghost d = if s@[0] == '-' || s@[0] == '+' {
        s@.drop_first()
    } else {
        s@
    };
    proof {
        assert(d =~= s@.subrange(start as int, n as int));
    }
    // locate the first dot
    let mut i: usize = start;
    while i < n && b[i] != 46
        invariant
            start <= i <= n == s@.len(),
            vstd::string::is_ascii(s),
            b@ == Seq::new(s@.len(), |k: int| s@.index(k) as u8),
            forall|k: int| start <= k < i ==> s@[k] != '.',
        decreases n - i,
    {
        proof {
            lemma_ascii_char_byte(s@, i as int);
            assert(s@[i as int] as u8 == b@[i as int]);
            assert(s@[i as int] != '.');
        }
        i = i + 1;
    }
    let dot: usize = i;
    proof {
        if dot < n {
            lemma_ascii_char_byte(s@, dot as int);
            assert(s@[dot as int] as u8 == 46);
            assert(s@[dot as int] == '.');
        }
        assert(forall|k: int| 0 <= k < dot - start ==> d[k] == s@[k + start] && d[k] != '.');
        assert(dot < n ==> d[dot - start] == s@[dot as int] && d[dot - start] == '.');
        lemma_find_char(d, '.', dot - start);
    }
    if dot == n {
        // pure integer
        if n - start < 1 || n - start > 12 {
            return None;
        }
        let ghost whole = d;
        proof {
            assert(whole =~= s@.subrange(start as int, n as int));
        }
        match digits_value(s, start, n, Ghost(whole)) {
            Some(v) => Some(
                if neg {
                    -(v * 1000)
                } else {
                    v * 1000
                },
            ),
            None => None,
        }
    } else {
        let ip_len = dot - start;
        let fp_len = n - dot - 1;
        if ip_len > 12 || fp_len > 3 || ip_len + fp_len < 1 {
            return None;
        }
        let ghost ip = d.take(dot - start);
        let ghost fp = d.skip(dot - start + 1);
        proof {
            assert(ip =~= s@.subrange(start as int, dot as int));
            assert(fp =~= s@.subrange(dot as int + 1, n as int));
        }
        let iv = match digits_value(s, start, dot, Ghost(ip)) {
            Some(v) => v,
            None => {
                return None;
            },
        };
        let fv = match digits_value(s, dot + 1, n, Ghost(fp)) {
            Some(v) => v,
            None => {
                return None;
            },
        };
        let factor: i64 = if fp_len == 0 {
            1000
        } else if fp_len == 1 {
            100
        } else if fp_len == 2 {
            10
        } else {
            1
        };
        proof {
            assert(factor == spec_pow10((3 - fp.len()) as nat)) by {
                reveal_with_fuel(spec_pow10, 5);
            }
            lemma_digits_val_bound(fp);
            lemma_pow10_le(fp.len(), 3);
            assert(fv <= 999) by {
                reveal_with_fuel(spec_pow10, 5);
            }
            assert(0 <= fv * factor <= 999_000) by (nonlinear_arith)
                requires
                    0 <= fv <= 999,
                    1 <= factor <= 1000,
            ;
        }
        let magnitude: i64 = iv * 1000 + fv * factor;
        Some(
            if neg {
                -magnitude
            } else {
                magnitude
            },
        )
    }
}

/// The decimal digits of a non-negative integer, most significant first;
/// empty for zero.
pub open spec fn spec_digits_of(n: int) -> Seq<char>
    decreases n,
{
    if n <= 0 {
        Seq::empty()
    } else {
        spec_digits_of(n / 10).push(((48 + (n % 10)) as u8) as char)
    }
}

/// The decimal rendering of an integer: `"0"` for zero, a leading minus
/// for negatives.
pub open spec fn spec_render_i64(v: int) -> Seq<char> {
    if v == 0 {
        seq!['0']
    } else if v > 0 {
        spec_digits_of(v)
    } else {
        seq!['-'] + spec_digits_of(-v)
    }
}

/// The one-character string of a decimal digit.
fn digit_str(d: u8) -> (r: &'static str)
    requires
        d < 10,
    ensures
        r@ == seq![((48 + d) as u8) as char],
{
    proof {
        reveal_strlit("0");
        reveal_strlit("1");
        reveal_strlit("2");
        reveal_strlit("3");
        reveal_strlit("4");
        reveal_strlit("5");
        reveal_strlit("6");
        reveal_strlit("7");
        reveal_strlit("8");
        reveal_strlit("9");
    }
    let r = match d {
        0 => "0",
        1 => "1",
        2 => "2",
        3 => "3",
        4 => "4",
        5 => "5",
        6 => "6",
        7 => "7",
        8 => "8",
        _ => "9",
    };
    proof {
        assert(r@ =~= seq![((48 + d) as u8) as char]);
    }
    r
}

/// Renders an integer as its decimal string.
pub fn render_i64(v: i64) -> (r: String)
    ensures
        r@ == spec_render_i64(v as int),
{
    if v == 0 {
        proof {
            reveal_strlit("0");
        }
        let z = String::from_str("0");
        proof {
            assert(z@ =~= spec_render_i64(0));
        }
        return z;
    }
    let neg = v < 0;
    let mut a: u64 = if v < 0 {
        (-(v as i128)) as u64
    } else {
        v as u64
    };
    let ghost a0 = a as int;
    let mut ds: Vec<u8> = Vec::new();
    let ghost mut cs: Seq<char> = Seq::empty();
    while a > 0
        invariant
            0 <= a,
            spec_digits_of(a0) == spec_digits_of(a as int) + cs,
            cs.len() == ds@.len(),
            forall|k: int|
                0 <= k < cs.len() ==> cs[k] == ((48 + ds@[ds@.len() - 1 - k]) as u8) as char,
            forall|k: int| 0 <= k < ds@.len() ==> #[trigger] ds@[k] < 10,
            a == 0 ==> cs.len() > 0,
        decreases a,
    {
        let d: u8 = (a % 10) as u8;
        proof {
            vstd::arithmetic::div_mod::lemma_mod_bound(a as int, 10);
            vstd::arithmetic::div_mod::lemma_div_pos_is_pos(a as int, 10);
        }
        let ghost cs_old = cs;
        proof {
            cs = seq![((48 + d) as u8) as char] + cs;
            assert(spec_digits_of(a as int) == spec_digits_of(a as int / 10).push(
                ((48 + (a as int % 10)) as u8) as char,
            ));
            assert(spec_digits_of(a as int) + cs_old =~= spec_digits_of(a as int / 10) + cs);
        }
        ds.push(d);
        a = a / 10;
        proof {
            assert(forall|k: int|
                0 <= k < cs.len() ==> cs[k] == ((48 + ds@[ds@.len() - 1 - k]) as u8) as char);
        }
    }
    proof {
        assert(spec_digits_of(a0) =~= cs);
    }
    let mut out: String = if neg {
        proof {
            reveal_strlit("-");
        }
        String::from_str("-")
    } else {
        String::new()
    };
    let ghost prefix: Seq<char> = out@;
    proof {
        if neg {
            assert(prefix =~= seq!['-']);
        }
    }
    let n = ds.len();
    let mut j: usize = 0;
    while j < n
        invariant
            0 <= j <= n == ds@.len(),
            cs.len() == n,
            forall|k: int|
                0 <= k < cs.len() ==> cs[k] == ((48 + ds@[ds@.len() - 1 - k]) as u8) as char,
            forall|k: int| 0 <= k < ds@.len() ==> #[trigger] ds@[k] < 10,
            out@ == prefix + cs.take(j as int),
        decreases n - j,
    {
        let d = ds[n - 1 - j];
        let piece = digit_str(d);
        out.append(piece);
        proof {
            assert(out@ =~= prefix + cs.take(j as int + 1));
        }
        j = j + 1;
    }
    proof {
        assert(cs.take(n as int) =~= cs);
        if neg {
            assert(out@ =~= spec_render_i64(v as int));
        } else {
            assert(prefix =~= Seq::<char>::empty());
            assert(out@ =~= spec_render_i64(v as int));
        }
    }
    out
}

} // verus!
