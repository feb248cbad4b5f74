//! Temperature readings written as decimal text, as a JSON number prints.
use vstd::prelude::*;

verus! {

pub open spec fn is_digit(c: char) -> bool {
    48 <= (c as u32) <= 57
}

pub open spec fn all_digits(s: Seq<char>) -> bool {
    forall|i: int| 0 <= i < s.len() ==> is_digit(#[trigger] s[i])
}

/// The number that a string of decimal digits writes.
pub open spec fn digits_value(s: Seq<char>) -> nat
    decreases s.len(),
{
    if s.len() == 0 {
        0
    } else {
        digits_value(s.drop_last()) * 10 + ((s.last() as u32) - 48) as nat
    }
}

/// Index of the first `.` in `s`, or its length when there is none.
pub open spec fn dot_pos(s: Seq<char>) -> nat
    decreases s.len(),
{
    if s.len() == 0 || s[0] == '.' {
        0
    } else {
        1 + dot_pos(s.drop_first())
    }
}

/// The first three fraction digits, padded with zeros.
pub open spec fn first_three(f: Seq<char>) -> Seq<char> {
    (f + seq!['0', '0', '0']).subrange(0, 3)
}

/// Thousandths in an unsigned decimal: 1 to 6 integer digits, then
/// optionally a point and at least one digit. Digits beyond the third
/// fraction digit are dropped.
pub open spec fn unsigned_milli(s: Seq<char>) -> Option<int> {
    let k = dot_pos(s) as int;
    let ip = s.subrange(0, k);
    let fp = s.subrange(k + 1, s.len() as int);
    if !(1 <= k <= 6 && all_digits(ip)) {
        None
    } else if k == s.len() {
        Some((digits_value(ip) * 1000) as int)
    } else if fp.len() >= 1 && all_digits(fp) {
        Some((digits_value(ip) * 1000 + digits_value(first_three(fp))) as int)
    } else {
        None
    }
}

/// A temperature written in degrees, as thousandths of a degree, rounded
/// toward zero; `None` when the text is not such a decimal.
pub open spec fn temperature_of(t: Seq<char>) -> Option<int> {
    if t.len() > 0 && t[0] == '-' {
        match unsigned_milli(t.drop_first()) {
            Some(v) => Some(-v),
            None => None,
        }
    } else {
        unsigned_milli(t)
    }
}

proof fn lemma_dot_pos(s: Seq<char>, k: int)
    requires
        0 <= k <= s.len(),
        forall|i: int| 0 <= i < k ==> s[i] != '.',
        k == s.len() || s[k] == '.',
    ensures
        dot_pos(s) == k,
    decreases k,
{
    if k > 0 {
        assert(s[0] != '.');
        let t = s.drop_first();
        assert forall|i: int| 0 <= i < k - 1 implies t[i] != '.' by {
            assert(t[i] == s[i + 1]);
        }
        lemma_dot_pos(t, k - 1);
    }
}

proof fn lemma_digits_push(s: Seq<char>, c: char)
    ensures
        digits_value(s.push(c)) == digits_value(s) * 10 + ((c as u32) - 48) as nat,
{
    assert(s.push(c).drop_last() =~= s);
}

proof fn lemma_digits_bound(s: Seq<char>)
    requires
        all_digits(s),
    ensures
        digits_value(s) < pow10(s.len()),
    decreases s.len(),
{
    if s.len() > 0 {
        let t = s.drop_last();
        assert(all_digits(t)) by {
            assert forall|i: int| 0 <= i < t.len() implies is_digit(#[trigger] t[i]) by {
                assert(t[i] == s[i]);
            }
        }
        lemma_digits_bound(t);
        assert(is_digit(s[s.len() - 1]));
        let d = ((s.last() as u32) - 48) as nat;
        let v = digits_value(t);
        let p = pow10(t.len());
        assert(v * 10 + d < p * 10) by (nonlinear_arith)
            requires
                v < p,
                d < 10,
        ;
    }
}

pub open spec fn pow10(n: nat) -> nat
    decreases n,
{
    if n == 0 {
        1
    } else {
        10 * pow10((n - 1) as nat)
    }
}

fn is_digit_byte(b: u8) -> (r: bool)
    ensures
        r == (48 <= b <= 57),
{
    48 <= b && b <= 57
}

/// `b` from `start` on holds the ASCII characters of `s`.
pub open spec fn bytes_of(b: Seq<u8>, start: int, s: Seq<char>) -> bool {
    &&& 0 <= start
    &&& b.len() == start + s.len()
    &&& forall|j: int| 0 <= j < s.len() ==> b[start + j] == s[j] as u8 && (s[j] as u32) < 128
}

/// Reads up to six digits from `start`: `None` when a seventh follows.
fn int_part(b: &[u8], start: usize, Ghost(s): Ghost<Seq<char>>) -> (r: Option<(usize, i32)>)
    requires
        bytes_of(b@, start as int, s),
    ensures
        r is None ==> s.len() >= 7 && all_digits(s.subrange(0, 7)),
        r matches Some((i, v)) ==> {
            let k = i - start;
            &&& start <= i <= b@.len()
            &&& k <= 6
            &&& all_digits(s.subrange(0, k))
            &&& v as int == digits_value(s.subrange(0, k))
            &&& 0 <= v < pow10(k as nat)
            &&& (i == b@.len() || !is_digit(s[k]))
        },
{
    let n = b.len();
    let mut i: usize = start;
    let mut ip: i32 = 0;
    while i < n && is_digit_byte(b[i])
        invariant
            bytes_of(b@, start as int, s),
            start <= i <= n,
            n == b@.len(),
            all_digits(s.subrange(0, i - start)),
            ip as int == digits_value(s.subrange(0, i - start)),
            i - start <= 6,
            0 <= ip < pow10((i - start) as nat),
        decreases n - i,
    {
        let ghost k = (i - start) as int;
        proof {
            lemma_ascii_byte(s[k], b@[i as int]);
            assert(s.subrange(0, k + 1) =~= s.subrange(0, k).push(s[k]));
            assert(all_digits(s.subrange(0, k + 1))) by {
                assert forall|j: int| 0 <= j < k + 1 implies is_digit(#[trigger] s.subrange(0, k + 1)[j]) by {
                    if j < k {
                        assert(s.subrange(0, k + 1)[j] == s.subrange(0, k)[j]);
                    }
                }
            }
        }
        if i - start == 6 {
            return None;
        }
        let d = (b[i] - 48) as i32;
        proof {
            lemma_digits_push(s.subrange(0, k), s[k]);
            reveal_with_fuel(pow10, 7);
            assert(ip * 10 + d < pow10((k + 1) as nat)) by (nonlinear_arith)
                requires
                    ip < pow10(k as nat),
                    0 <= d < 10,
                    pow10((k + 1) as nat) == 10 * pow10(k as nat),
            ;
        }
        ip = ip * 10 + d;
        i = i + 1;
    }
    proof {
        if i < n {
            lemma_ascii_byte(s[i - start], b@[i as int]);
        }
    }
    Some((i, ip))
}

/// Reads the digits from `start`, keeping the value of the first three.
fn frac_part(b: &[u8], start: usize, Ghost(f): Ghost<Seq<char>>) -> (r: (usize, i32))
    requires
        bytes_of(b@, start as int, f),
    ensures
        ({
            let (i, v) = r;
            let m = i - start;
            &&& start <= i <= b@.len()
            &&& all_digits(f.subrange(0, m))
            &&& (i == b@.len() || !is_digit(f[m]))
            &&& m <= 3 ==> v as int == digits_value(f.subrange(0, m))
            &&& m > 3 ==> v as int == digits_value(f.subrange(0, 3))
            &&& 0 <= v < 1000
        }),
{
    let n = b.len();
    let mut i: usize = start;
    let mut fv: i32 = 0;
    while i < n && is_digit_byte(b[i])
        invariant
            bytes_of(b@, start as int, f),
            start <= i <= n,
            n == b@.len(),
            all_digits(f.subrange(0, i - start)),
            i - start <= 3 ==> fv as int == digits_value(f.subrange(0, i - start)),
            i - start > 3 ==> fv as int == digits_value(f.subrange(0, 3)),
            i - start <= 3 ==> 0 <= fv < pow10((i - start) as nat),
            0 <= fv < 1000,
        decreases n - i,
    {
        let ghost m = (i - start) as int;
        let d = (b[i] - 48) as i32;
        proof {
            lemma_ascii_byte(f[m], b@[i as int]);
            assert(f.subrange(0, m + 1) =~= f.subrange(0, m).push(f[m]));
            assert(all_digits(f.subrange(0, m + 1))) by {
                assert forall|j: int| 0 <= j < m + 1 implies is_digit(#[trigger] f.subrange(0, m + 1)[j]) by {
                    if j < m {
                        assert(f.subrange(0, m + 1)[j] == f.subrange(0, m)[j]);
                    }
                }
            }
            reveal_with_fuel(pow10, 4);
            if m < 3 {
                lemma_digits_push(f.subrange(0, m), f[m]);
                assert(fv * 10 + d < pow10((m + 1) as nat)) by (nonlinear_arith)
                    requires
                        fv < pow10(m as nat),
                        0 <= d < 10,
                        pow10((m + 1) as nat) == 10 * pow10(m as nat),
                ;
            }
        }
        if i - start < 3 {
            fv = fv * 10 + d;
        }
        i = i + 1;
    }
    proof {
        if i < n {
            lemma_ascii_byte(f[i - start], b@[i as int]);
        }
    }
    (i, fv)
}

/// Thousandths in the unsigned decimal `s`, held as ASCII in `b` from `start`.
fn parse_unsigned(b: &[u8], start: usize, Ghost(s): Ghost<Seq<char>>) -> (r: Option<i32>)
    requires
        bytes_of(b@, start as int, s),
    ensures
        r matches Some(v) ==> unsigned_milli(s) == Some(v as int) && 0 <= v < 1000000000,
        r is None ==> unsigned_milli(s) is None,
{
    let n = b.len();
    let (i, ip) = match int_part(b, start, Ghost(s)) {
        Some(x) => x,
        None => {
            proof {
                assert forall|j: int| 0 <= j < 7 implies s[j] != '.' by {
                    assert(is_digit(s.subrange(0, 7)[j]));
                }
                lemma_no_dot_early(s, 7);
                lemma_dot_at(s);
            }
            return None;
        },
    };
    let k = i - start;
    let ghost ipart = s.subrange(0, k as int);
    proof {
        assert forall|j: int| 0 <= j < k implies s[j] != '.' by {
            assert(is_digit(ipart[j]));
        }
        reveal_with_fuel(pow10, 7);
    }
    if k == 0 {
        proof {
            if s.len() > 0 {
                lemma_no_digit_no_dot(s);
            } else {
                lemma_dot_pos(s, 0);
            }
        }
        return None;
    }
    if i == n {
        proof {
            lemma_dot_pos(s, k as int);
            assert(ipart =~= s);
        }
        return Some(ip * 1000);
    }
    if b[i] != 46 {
        proof {
            lemma_ascii_byte(s[k as int], b@[i as int]);
            lemma_non_digit_stop(s, k as int);
        }
        return None;
    }
    proof {
        lemma_ascii_byte(s[k as int], b@[i as int]);
        lemma_dot_pos(s, k as int);
    }
    let ghost f = s.subrange(k + 1, s.len() as int);
    proof {
        assert forall|j: int| 0 <= j < f.len() implies b@[i + 1 + j] == f[j] as u8 && (f[j] as u32) < 128 by {
            assert(f[j] == s[k + 1 + j]);
        }
    }
    let r = with_fraction(b, i + 1, Ghost(f), ip);
    proof {
        assert(unsigned_milli(s) == (if f.len() >= 1 && all_digits(f) {
            Some((digits_value(ipart) * 1000 + digits_value(first_three(f))) as int)
        } else {
            None
        }));
    }
    r
}

/// `whole` thousand plus the first three digits of the fraction held in `b`
/// from `start` to its end, when that fraction is one or more digits.
fn with_fraction(b: &[u8], start: usize, Ghost(f): Ghost<Seq<char>>, whole: i32) -> (r: Option<i32>)
    requires
        bytes_of(b@, start as int, f),
        0 <= whole < 1000000,
    ensures
        r == (if f.len() >= 1 && all_digits(f) {
            Some((whole * 1000 + digits_value(first_three(f))) as i32)
        } else {
            None
        }),
        r matches Some(v) ==> 0 <= v < 1000000000 && v == whole * 1000 + digits_value(first_three(f)),
{
    let n = b.len();
    let (e, fv) = frac_part(b, start, Ghost(f));
    if e == start || e < n {
        return None;
    }
    let fk = e - start;
    proof {
        assert(f.subrange(0, fk as int) =~= f);
        if fk == 1 {
            assert(first_three(f) =~= f.push('0').push('0'));
            lemma_digits_push(f, '0');
            lemma_digits_push(f.push('0'), '0');
        } else if fk == 2 {
            assert(first_three(f) =~= f.push('0'));
            lemma_digits_push(f, '0');
        } else {
            assert(first_three(f) =~= f.subrange(0, 3));
        }
        let g = first_three(f);
        assert(all_digits(g)) by {
            assert forall|j: int| 0 <= j < 3 implies is_digit(#[trigger] g[j]) by {
                if j < f.len() {
                    assert(g[j] == f[j]);
                }
            }
        }
        lemma_digits_bound(g);
        reveal_with_fuel(pow10, 4);
    }
    let v3 = if fk == 1 {
        fv * 100
    } else if fk == 2 {
        fv * 10
    } else {
        fv
    };
    Some(whole * 1000 + v3)
}

/// Reads a temperature written in degrees (`-3.25`, `17`, `21.8125`) as
/// thousandths of a degree, rounded toward zero.
pub fn parse_temperature(text: &str) -> (r: Option<i32>)
    ensures
        r matches Some(v) ==> temperature_of(text@) == Some(v as int),
        r is None ==> temperature_of(text@) is None,
{
    let ghost t = text@;
    if !text.is_ascii() {
        proof {
            lemma_reading_is_ascii(t);
        }
        return None;
    }
    proof {
        vstd::string::is_ascii_spec_bytes(text);
    }
    let b = text.as_bytes();
    assert(forall|i: int| 0 <= i < t.len() ==> b@[i] == t[i] as u8);
    assert(b@.len() == t.len());
    proof {
        assert forall|j: int| 0 <= j < t.len() implies (t[j] as u32) < 128 by {
            lemma_char_order(t[j]);
        }
    }
    if b.len() > 0 && b[0] == 45 {
        proof {
            lemma_ascii_byte(t[0], b@[0]);
            let s = t.drop_first();
            assert forall|j: int| 0 <= j < s.len() implies b@[1 + j] == s[j] as u8 && (s[j] as u32) < 128 by {
                assert(s[j] == t[1 + j]);
            }
        }
        match parse_unsigned(b, 1, Ghost(t.drop_first())) {
            Some(v) => Some(-v),
            None => None,
        }
    } else {
        proof {
            if b@.len() > 0 {
                lemma_ascii_byte(t[0], b@[0]);
            }
        }
        parse_unsigned(b, 0, Ghost(t))
    }
}

/// A readable temperature is ASCII text.
proof fn lemma_reading_is_ascii(t: Seq<char>)
    ensures
        temperature_of(t) is Some ==> vstd::utf8::is_ascii_chars(t),
{
    if temperature_of(t) is Some {
        if t.len() > 0 && t[0] == '-' {
            let s = t.drop_first();
            lemma_unsigned_ascii(s);
            assert forall|i: int| 0 <= i < t.len() implies '\0' <= #[trigger] t[i] <= '\u{7f}' by {
                if i > 0 {
                    assert(t[i] == s[i - 1]);
                }
            }
        } else {
            lemma_unsigned_ascii(t);
        }
    }
}

proof fn lemma_unsigned_ascii(s: Seq<char>)
    requires
        unsigned_milli(s) is Some,
    ensures
        forall|i: int| 0 <= i < s.len() ==> '\0' <= #[trigger] s[i] <= '\u{7f}',
{
    lemma_dot_at(s);
    let k = dot_pos(s) as int;
    let ip = s.subrange(0, k);
    assert forall|i: int| 0 <= i < s.len() implies '\0' <= #[trigger] s[i] <= '\u{7f}' by {
        lemma_char_order(s[i]);
        if i < k {
            assert(is_digit(ip[i]));
        } else if i > k {
            let fp = s.subrange(k + 1, s.len() as int);
            assert(is_digit(fp[i - k - 1]));
        }
    }
}

/// When `dot_pos` is inside `s`, a point stands there.
proof fn lemma_dot_at(s: Seq<char>)
    ensures
        dot_pos(s) <= s.len(),
        dot_pos(s) < s.len() ==> s[dot_pos(s) as int] == '.',
    decreases s.len(),
{
    if s.len() > 0 && s[0] != '.' {
        lemma_dot_at(s.drop_first());
    }
}

proof fn lemma_char_order(c: char)
    ensures
        (c as u32) < 128 <==> '\0' <= c <= '\u{7f}',
{
}

proof fn lemma_ascii_byte(c: char, b: u8)
    requires
        b == c as u8,
        (c as u32) < 128,
    ensures
        b as u32 == c as u32,
        b == 46 <==> c == '.',
        b == 45 <==> c == '-',
{
}

/// With no `.` among its first `k` characters, `s` has none before `k`.
proof fn lemma_no_dot_early(s: Seq<char>, k: int)
    requires
        0 <= k <= s.len(),
        forall|j: int| 0 <= j < k ==> s[j] != '.',
    ensures
        dot_pos(s) >= k,
    decreases k,
{
    if k > 0 {
        assert(s[0] != '.');
        let t = s.drop_first();
        assert forall|j: int| 0 <= j < k - 1 implies t[j] != '.' by {
            assert(t[j] == s[j + 1]);
        }
        lemma_no_dot_early(t, k - 1);
    }
}

proof fn lemma_no_digit_no_dot(s: Seq<char>)
    requires
        s.len() > 0,
        !is_digit(s[0]),
    ensures
        unsigned_milli(s) is None,
{
    lemma_dot_at(s);
    if s[0] == '.' {
        lemma_dot_pos(s, 0);
    } else {
        lemma_no_dot_early(s, 1);
        let k = dot_pos(s) as int;
        if 1 <= k {
            assert(!is_digit(s.subrange(0, k)[0]));
        }
    }
}

/// Digits up to `k`, then neither a digit nor a point: not a reading.
proof fn lemma_non_digit_stop(s: Seq<char>, k: int)
    requires
        0 <= k < s.len(),
        forall|j: int| 0 <= j < k ==> s[j] != '.',
        s[k] != '.',
        !is_digit(s[k]),
    ensures
        unsigned_milli(s) is None,
{
    lemma_no_dot_early(s, k + 1);
    lemma_dot_at(s);
    let p = dot_pos(s) as int;
    if 1 <= p <= 6 && p > k {
        assert(!is_digit(s.subrange(0, p)[k]));
    }
}

} // verus!
