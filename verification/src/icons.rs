use vstd::prelude::*;

use crate::registry::is_digit_char;
use crate::text::{chars_of, subvec, trim_bounds, trim_spec};

verus! {

// Icon-reference parsing. A registry icon reference has the shape
// "path,index" or just "path", with optional whitespace and quoting around
// the path. Rendering the icon itself is the icon-extraction collaborator's
// business; only this pure split lives here.

/// The input without leading and trailing quote characters.
pub open spec fn trim_quotes_start_spec(s: Seq<char>) -> Seq<char>
    decreases s.len(),
{
    if s.len() > 0 && s[0] == '"' {
        trim_quotes_start_spec(s.drop_first())
    } else {
        s
    }
}

pub open spec fn trim_quotes_end_spec(s: Seq<char>) -> Seq<char>
    decreases s.len(),
{
    if s.len() > 0 && s.last() == '"' {
        trim_quotes_end_spec(s.drop_last())
    } else {
        s
    }
}

pub open spec fn trim_quotes_spec(s: Seq<char>) -> Seq<char> {
    trim_quotes_end_spec(trim_quotes_start_spec(s))
}

/// Bounds `(a, b)` such that `v[a..b]` is the input without surrounding
/// quote characters.
fn trim_quote_bounds(v: &Vec<char>, lo: usize, hi: usize) -> (r: (usize, usize))
    requires
        lo <= hi <= v@.len(),
    ensures
        lo <= r.0 <= r.1 <= hi,
        v@.subrange(r.0 as int, r.1 as int) == trim_quotes_spec(v@.subrange(lo as int, hi as int)),
{
    let mut a = lo;
    proof {
        assert(v@.subrange(lo as int, hi as int).skip(0) =~= v@.subrange(lo as int, hi as int));
    }
    while a < hi && v[a] == '"'
        invariant
            lo <= a <= hi <= v@.len(),
            trim_quotes_start_spec(v@.subrange(lo as int, hi as int)) == trim_quotes_start_spec(
                v@.subrange(lo as int, hi as int).skip(a - lo),
            ),
        decreases hi - a,
    {
        proof {
            let s = v@.subrange(lo as int, hi as int);
            assert(s.skip(a - lo)[0] == v@[a as int]);
            assert(s.skip(a - lo).drop_first() =~= s.skip(a + 1 - lo));
        }
        a += 1;
    }
    proof {
        let s = v@.subrange(lo as int, hi as int);
        assert(trim_quotes_start_spec(s) == s.skip(a - lo)) by {
            if a < hi {
                assert(s.skip(a - lo)[0] == v@[a as int]);
            }
        }
    }
    let mut b = hi;
    proof {
        let s = v@.subrange(lo as int, hi as int);
        assert(s.skip(a - lo) =~= v@.subrange(a as int, hi as int));
    }
    while b > a && v[b - 1] == '"'
        invariant
            a <= b <= hi <= v@.len(),
            trim_quotes_spec(v@.subrange(lo as int, hi as int)) == trim_quotes_end_spec(
                v@.subrange(a as int, b as int),
            ),
        decreases b,
    {
        proof {
            assert(v@.subrange(a as int, b as int).drop_last() =~= v@.subrange(a as int, b - 1));
            assert(v@.subrange(a as int, b as int).last() == v@[b - 1]);
        }
        b -= 1;
    }
    proof {
        assert(trim_quotes_end_spec(v@.subrange(a as int, b as int)) == v@.subrange(
            a as int,
            b as int,
        )) by {
            if b > a {
                assert(v@.subrange(a as int, b as int).last() == v@[b - 1]);
            }
        }
    }
    (a, b)
}

/// The index of the last comma, if any.
pub open spec fn rfind_comma_spec(s: Seq<char>) -> Option<int>
    decreases s.len(),
{
    if s.len() == 0 {
        None
    } else if s.last() == ',' {
        Some(s.len() - 1)
    } else {
        rfind_comma_spec(s.drop_last())
    }
}

fn rfind_comma(v: &Vec<char>, lo: usize, hi: usize) -> (r: Option<usize>)
    requires
        lo <= hi <= v@.len(),
    ensures
        match r {
            Some(i) => lo <= i < hi && Some(i - lo) == rfind_comma_spec(
                v@.subrange(lo as int, hi as int),
            ),
            None => rfind_comma_spec(v@.subrange(lo as int, hi as int)) is None,
        },
{
    let mut b = hi;
    while b > lo
        invariant
            lo <= b <= hi <= v@.len(),
            rfind_comma_spec(v@.subrange(lo as int, hi as int)) == rfind_comma_spec(
                v@.subrange(lo as int, b as int),
            ),
        decreases b,
    {
        proof {
            assert(v@.subrange(lo as int, b as int).last() == v@[b - 1]);
            assert(v@.subrange(lo as int, b as int).drop_last() =~= v@.subrange(lo as int, b - 1));
        }
        if v[b - 1] == ',' {
            return Some(b - 1);
        }
        b -= 1;
    }
    proof {
        assert(v@.subrange(lo as int, lo as int) =~= Seq::<char>::empty());
    }
    None
}

/// The numeric value of a digit string, most significant digit first.
pub open spec fn digits_val(s: Seq<char>) -> int
    decreases s.len(),
{
    if s.len() == 0 {
        0
    } else {
        digits_val(s.drop_last()) * 10 + (s.last() as int - '0' as int)
    }
}

pub open spec fn all_digits(s: Seq<char>) -> bool {
    forall|i: int| 0 <= i < s.len() ==> is_digit_char(s[i])
}

pub open spec fn pow10(n: nat) -> int
    decreases n,
{
    if n == 0 {
        1
    } else {
        10 * pow10((n - 1) as nat)
    }
}

proof fn lemma_pow10_pos(n: nat)
    ensures
        pow10(n) >= 1,
    decreases n,
{
    if n > 0 {
        lemma_pow10_pos((n - 1) as nat);
    }
}

proof fn lemma_pow10_mono(a: nat, b: nat)
    requires
        a <= b,
    ensures
        pow10(a) <= pow10(b),
        pow10(a) >= 1,
    decreases b,
{
    lemma_pow10_pos(a);
    if a < b {
        lemma_pow10_mono(a, (b - 1) as nat);
        lemma_pow10_pos((b - 1) as nat);
    }
}

proof fn lemma_digits_upper(s: Seq<char>)
    requires
        all_digits(s),
    ensures
        0 <= digits_val(s) < pow10(s.len()),
    decreases s.len(),
{
    if s.len() > 0 {
        lemma_digits_upper(s.drop_last());
        assert(is_digit_char(s.last()));
    }
}

proof fn lemma_digits_lower(s: Seq<char>)
    requires
        all_digits(s),
        s.len() >= 1,
        s[0] != '0',
    ensures
        digits_val(s) >= pow10((s.len() - 1) as nat),
    decreases s.len(),
{
    if s.len() == 1 {
        assert(is_digit_char(s[0]));
        assert(s.drop_last() =~= Seq::<char>::empty());
        assert(digits_val(Seq::<char>::empty()) == 0);
        assert(s.last() == s[0]);
        assert(s[0] as int - '0' as int >= 1);
        assert(digits_val(s) == s[0] as int - '0' as int);
        assert(pow10(0nat) == 1);
    } else {
        assert(s.drop_last()[0] == s[0]);
        lemma_digits_lower(s.drop_last());
        assert(is_digit_char(s.last()));
        assert(s.last() as int - '0' as int >= 0);
    }
}

/// Leading zeros do not change the value.
proof fn lemma_digits_skip_zero(s: Seq<char>)
    requires
        s.len() >= 1,
        s[0] == '0',
    ensures
        digits_val(s) == digits_val(s.drop_first()),
    decreases s.len(),
{
    if s.len() == 1 {
        assert(s.drop_first() =~= Seq::<char>::empty());
        assert(s.drop_last() =~= Seq::<char>::empty());
        assert(digits_val(Seq::<char>::empty()) == 0);
        assert(s.last() == s[0]);
        assert(digits_val(s) == 0);
    } else {
        assert(s.drop_last()[0] == s[0]);
        lemma_digits_skip_zero(s.drop_last());
        assert(s.drop_last().drop_first() =~= s.drop_first().drop_last());
        assert(s.drop_first().last() == s.last());
    }
}

proof fn lemma_digits_skip_zeros(s: Seq<char>, z: int)
    requires
        0 <= z <= s.len(),
        forall|i: int| 0 <= i < z ==> s[i] == '0',
    ensures
        digits_val(s) == digits_val(s.skip(z)),
    decreases z,
{
    if z == 0 {
        assert(s.skip(0) =~= s);
    } else {
        lemma_digits_skip_zero(s);
        assert(s.drop_first() =~= s.skip(1));
        lemma_digits_skip_zeros(s.skip(1), z - 1);
        assert(s.skip(1).skip(z - 1) =~= s.skip(z));
    }
}

/// What `str::parse::<i32>` accepts: an optional sign, then one or more
/// digits, with the signed value in the i32 range.
pub open spec fn parse_i32_spec(s: Seq<char>) -> Option<int> {
    if s.len() == 0 {
        None
    } else {
        let signed = s[0] == '-' || s[0] == '+';
        let ds = if signed {
            s.drop_first()
        } else {
            s
        };
        if ds.len() > 0 && all_digits(ds) {
            let v = if s[0] == '-' {
                -digits_val(ds)
            } else {
                digits_val(ds)
            };
            if -0x8000_0000 <= v <= 0x7fff_ffff {
                Some(v)
            } else {
                None
            }
        } else {
            None
        }
    }
}

/// Parses a signed decimal i32, as `str::parse::<i32>` does.
#[verifier::loop_isolation(false)]
fn parse_i32_chars(v: &Vec<char>, lo: usize, hi: usize) -> (r: Option<i32>)
    requires
        lo <= hi <= v@.len(),
    ensures
        match r {
            Some(x) => parse_i32_spec(v@.subrange(lo as int, hi as int)) == Some(x as int),
            None => parse_i32_spec(v@.subrange(lo as int, hi as int)) is None,
        },
{
    let ghost s = v@.subrange(lo as int, hi as int);
    if lo == hi {
        return None;
    }
    let neg = v[lo] == '-';
    let signed = neg || v[lo] == '+';
    let start = if signed {
        lo + 1
    } else {
        lo
    };
    let ghost ds = if signed {
        s.drop_first()
    } else {
        s
    };
    proof {
        assert(ds =~= v@.subrange(start as int, hi as int));
    }
    if start == hi {
        return None;
    }
    // every character must be a digit
    let mut i = start;
    while i < hi
        invariant
            start <= i <= hi,
            forall|k: int| start <= k < i ==> is_digit_char(v@[k]),
        decreases hi - i,
    {
        if !('0' <= v[i] && v[i] <= '9') {
            proof {
                assert(ds[i - start] == v@[i as int]);
                assert(!all_digits(ds));
            }
            return None;
        }
        i += 1;
    }
    proof {
        assert forall|k: int| 0 <= k < ds.len() implies is_digit_char(ds[k]) by {
            assert(ds[k] == v@[start + k]);
        }
    }
    // skip leading zeros; at most ten significant digits fit in an i32
    let mut z = start;
    while z < hi && v[z] == '0'
        invariant
            start <= z <= hi,
            forall|k: int| start <= k < z ==> v@[k] == '0',
        decreases hi - z,
    {
        z += 1;
    }
    let ghost eff = ds.skip(z - start);
    proof {
        lemma_digits_skip_zeros(ds, z - start);
        assert(eff =~= v@.subrange(z as int, hi as int));
        lemma_digits_upper(eff);
    }
    if hi - z > 10 {
        proof {
            assert(eff[0] == v@[z as int]);
            lemma_digits_lower(eff);
            lemma_pow10_mono(10nat, (eff.len() - 1) as nat);
            assert(pow10(10nat) == 10000000000) by {
                reveal_with_fuel(pow10, 11);
            }
        }
        return None;
    }
    let mut acc: i64 = 0;
    let mut i = z;
    proof {
        assert(eff.subrange(0, 0) =~= Seq::<char>::empty());
        lemma_pow10_mono(0nat, 10nat);
        assert(pow10(10nat) == 10000000000) by {
            reveal_with_fuel(pow10, 11);
        }
    }
    while i < hi
        invariant
            z <= i <= hi,
            hi - z <= 10,
            acc == digits_val(eff.subrange(0, i - z)),
            0 <= acc < pow10((i - z) as nat),
            pow10((i - z) as nat) <= 10000000000,
        decreases hi - i,
    {
        proof {
            let pre = eff.subrange(0, i - z);
            let cur = eff.subrange(0, i + 1 - z);
            assert(cur.drop_last() =~= pre);
            assert(cur.last() == v@[i as int]);
            assert(is_digit_char(v@[i as int]));
            lemma_pow10_mono((i + 1 - z) as nat, 10nat);
        }
        acc = acc * 10 + ((v[i] as u32) as i64 - 48);
        i += 1;
    }
    proof {
        assert(eff.subrange(0, eff.len() as int) =~= eff);
    }
    if neg {
        if acc > 2147483648 {
            return None;
        }
        Some((-acc) as i32)
    } else {
        if acc > 2147483647 {
            return None;
        }
        Some(acc as i32)
    }
}

/// What `parse_icon_path` returns: the input is trimmed and stripped of
/// surrounding quotes; when it ends in a comma followed by a valid icon
/// index, the path before the comma (again stripped of quotes) and that
/// index are returned, else the whole cleaned path with index zero.
pub open spec fn icon_path_spec(p: Seq<char>) -> (Seq<char>, int) {
    let t = trim_spec(p);
    match rfind_comma_spec(t) {
        Some(c) => match parse_i32_spec(trim_spec(t.skip(c + 1))) {
            Some(x) => (trim_quotes_spec(t.subrange(0, c)), x),
            None => (trim_quotes_spec(t), 0),
        },
        None => (trim_quotes_spec(t), 0),
    }
}

/// Splits an icon reference of the shape "path,index" into the quoted-path
/// part and the numeric index; a reference without a parsable index is the
/// whole path with index zero.
pub fn parse_icon_path(path: &str) -> (r: (String, i32))
    ensures
        r.0@ == icon_path_spec(path@).0,
        r.1 as int == icon_path_spec(path@).1,
{
    let v = chars_of(path);
    let (a, b) = trim_bounds(&v);
    let ghost t = trim_spec(path@);
    proof {
        assert(t == v@.subrange(a as int, b as int));
    }
    match rfind_comma(&v, a, b) {
        Some(c) => {
            // the text after the comma must parse as an index
            let idx_chars = subvec_trim(&v, c + 1, b);
            proof {
                assert(v@.subrange(c + 1, b as int) =~= t.skip(c + 1 - a));
            }
            match parse_i32_chars(&v, idx_chars.0, idx_chars.1) {
                Some(x) => {
                    let (qa, qb) = trim_quote_bounds(&v, a, c);
                    proof {
                        assert(v@.subrange(a as int, c as int) =~= t.subrange(0, c - a));
                    }
                    (String::from_str(path.substring_char(qa, qb)), x)
                },
                None => {
                    let (qa, qb) = trim_quote_bounds(&v, a, b);
                    (String::from_str(path.substring_char(qa, qb)), 0)
                },
            }
        },
        None => {
            let (qa, qb) = trim_quote_bounds(&v, a, b);
            (String::from_str(path.substring_char(qa, qb)), 0)
        },
    }
}

/// Bounds of the trimmed text inside `v[lo..hi]`.
fn subvec_trim(v: &Vec<char>, lo: usize, hi: usize) -> (r: (usize, usize))
    requires
        lo <= hi <= v@.len(),
    ensures
        lo <= r.0 <= r.1 <= hi,
        v@.subrange(r.0 as int, r.1 as int) == trim_spec(v@.subrange(lo as int, hi as int)),
{
    let inner = subvec(v, lo, hi);
    let (a, b) = trim_bounds(&inner);
    proof {
        assert(inner@.subrange(a as int, b as int) =~= v@.subrange(lo + a, lo + b));
    }
    (lo + a, lo + b)
}

} // verus!
