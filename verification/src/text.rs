//! Text helpers: string equality, substring search, digits, and
//! lowercasing for the case-insensitive search.

use vstd::prelude::*;

verus! {

pub open spec fn is_digit(c: char) -> bool {
    '0' <= c && c <= '9'
}

pub open spec fn digit_val(c: char) -> int {
    c as int - '0' as int
}

/// Every character of `s` is a decimal digit.
pub open spec fn all_digits(s: Seq<char>) -> bool {
    forall|i: int| 0 <= i < s.len() ==> is_digit(#[trigger] s[i])
}

/// The number a sequence of decimal digits denotes.
pub open spec fn digits_value(s: Seq<char>) -> int
    decreases s.len(),
{
    if s.len() == 0 {
        0
    } else {
        digits_value(s.drop_last()) * 10 + digit_val(s.last())
    }
}

/// `needle` occurs in `hay` starting at position `i`.
pub open spec fn matches_at(hay: Seq<char>, needle: Seq<char>, i: int) -> bool {
    needle =~= hay.subrange(i, i + needle.len())
}

/// `needle` occurs somewhere in `hay`; an empty `needle` always does.
pub open spec fn contains_seq(hay: Seq<char>, needle: Seq<char>) -> bool {
    exists|i: int| 0 <= i <= hay.len() - needle.len() && matches_at(hay, needle, i)
}

/// Character-wise string equality.
pub fn str_eq(a: &str, b: &str) -> (r: bool)
    ensures
        r == (a@ == b@),
{
    let n = a.unicode_len();
    if n != b.unicode_len() {
        proof {
            assert(a@ != b@);
        }
        return false;
    }
    let mut i: usize = 0;
    while i < n
        invariant
            0 <= i <= n,
            n == a@.len(),
            n == b@.len(),
            forall|j: int| 0 <= j < i ==> a@[j] == b@[j],
        decreases n - i,
    {
        if a.get_char(i) != b.get_char(i) {
            return false;
        }
        i = i + 1;
    }
    proof {
        assert(a@ =~= b@);
    }
    true
}

/// `needle` occurs in `hay` at position `i`.
fn check_match_at(hay: &str, needle: &str, i: usize) -> (r: bool)
    requires
        i + needle@.len() <= hay@.len(),
        hay@.len() <= usize::MAX,
    ensures
        r == matches_at(hay@, needle@, i as int),
{
    let m = needle.unicode_len();
    let mut j: usize = 0;
    while j < m
        invariant
            0 <= j <= m,
            m == needle@.len(),
            i + m <= hay@.len(),
            hay@.len() <= usize::MAX,
            forall|k: int| 0 <= k < j ==> needle@[k] == hay@[i + k],
        decreases m - j,
    {
        if needle.get_char(j) != hay.get_char(i + j) {
            proof {
                assert(!matches_at(hay@, needle@, i as int));
            }
            return false;
        }
        j = j + 1;
    }
    proof {
        assert(matches_at(hay@, needle@, i as int));
    }
    true
}

/// Substring search: does `needle` occur anywhere in `hay`?
pub fn contains_str(hay: &str, needle: &str) -> (r: bool)
    ensures
        r == contains_seq(hay@, needle@),
{
    let n = hay.unicode_len();
    let m = needle.unicode_len();
    if m > n {
        return false;
    }
    let mut i: usize = 0;
    while i <= n - m
        invariant
            0 <= i <= n - m + 1,
            m <= n,
            n == hay@.len(),
            m == needle@.len(),
            forall|k: int| 0 <= k < i ==> !matches_at(hay@, needle@, k),
        decreases n - m + 1 - i,
    {
        if check_match_at(hay, needle, i) {
            return true;
        }
        i = i + 1;
    }
    false
}

/// What `str::to_lowercase` returns for a given character sequence. Unicode
/// case folding depends on the characters alone, so the result has a name
/// rather than a written-out definition.
pub uninterp spec fn lower_of(s: Seq<char>) -> Seq<char>;

/// Relies on `str::to_lowercase`: the Unicode-lowercased copy of the string,
/// a function of the characters alone.
#[verifier::external_body]
pub fn to_lowercase(s: &str) -> (r: String)
    ensures
        r@ == lower_of(s@),
{
    s.to_lowercase()
}

/// One decimal digit as a string slice.
pub fn digit_str(d: u8) -> (r: &'static str)
    requires
        d <= 9,
    ensures
        r@.len() == 1,
        r@[0] == ((d + ('0' as u8)) as char),
        is_digit(r@[0]),
{
    proof {
        reveal_strlit("0");
        reveal_strlit("1");
        reveal_strlit("2");
        reveal_strlit("3");
        reveal_strlit("4");
        reveal_strlit("5");
        reveal_strlit("6");
        reveal_strlit("7");
        reveal_strlit("8");
        reveal_strlit("9");
    }
    match d {
        0 => "0",
        1 => "1",
        2 => "2",
        3 => "3",
        4 => "4",
        5 => "5",
        6 => "6",
        7 => "7",
        8 => "8",
        _ => "9",
    }
}

/// The canonical digit string of `n`: no leading zeros, `"0"` for zero.
pub open spec fn spec_digits_of(n: int) -> Seq<char>
    decreases n,
{
    if n <= 0 {
        seq![]
    } else {
        spec_digits_of(n / 10) + seq![((n % 10) + '0' as int) as char]
    }
}

pub open spec fn spec_u64_string(n: int) -> Seq<char> {
    if n == 0 {
        seq!['0']
    } else {
        spec_digits_of(n)
    }
}

fn push_digits(out: &mut String, n: u64)
    ensures
        final(out)@ == old(out)@ + spec_digits_of(n as int),
    decreases n,
{
    if n == 0 {
        proof {
            assert(out@ =~= out@ + spec_digits_of(0));
        }

    } else {
        push_digits(out, n / 10);
        let d = digit_str((n % 10) as u8);
        let ghost before = out@;
        out.append(d);
        proof {
            assert(out@ =~= old(out)@ + spec_digits_of(n as int));
        }
    }
}

/// `n` in decimal.
pub fn u64_to_string(n: u64) -> (r: String)
    ensures
        r@ == spec_u64_string(n as int),
{
    if n == 0 {
        let r = String::from_str(digit_str(0));
        proof {
            assert(r@ =~= spec_u64_string(0));
        }
        r
    } else {
        let mut out = String::new();
        push_digits(&mut out, n);
        proof {
            assert(out@ =~= spec_digits_of(n as int));
        }
        out
    }
}

/// An amount of money in cents, written with two fraction digits: `1234`
/// becomes `12.34`.
pub open spec fn spec_cents_string(c: int) -> Seq<char> {
    spec_u64_string(c / 100) + seq!['.'] + seq![(((c / 10) % 10) + '0' as int) as char] + seq![
        ((c % 10) + '0' as int) as char,
    ]
}

/// Format cents as a decimal amount with two fraction digits.
pub fn cents_to_string(c: u64) -> (r: String)
    ensures
        r@ == spec_cents_string(c as int),
{
    let mut out = u64_to_string(c / 100);
    proof {
        reveal_strlit(".");
    }
    out.append(".");
    out.append(digit_str(((c / 10) % 10) as u8));
    out.append(digit_str((c % 10) as u8));
    proof {
        assert(out@ =~= spec_cents_string(c as int));
    }
    out
}

/// The positions left and right of the dot at `k` hold only digits, with at
/// most two fraction digits and at least one digit overall.
pub open spec fn dot_shape(s: Seq<char>, k: int) -> bool {
    &&& 0 <= k < s.len()
    &&& s[k] == '.'
    &&& all_digits(s.subrange(0, k))
    &&& all_digits(s.subrange(k + 1, s.len() as int))
    &&& s.len() - (k + 1) <= 2
    &&& s.len() >= 2
}

/// A well-formed decimal amount: digits, or digits around a single dot.
pub open spec fn amount_valid(s: Seq<char>) -> bool {
    (s.len() >= 1 && all_digits(s)) || (exists|k: int| dot_shape(s, k))
}

/// Cents denoted by the fraction part: one digit counts tens of cents.
pub open spec fn frac_cents(f: Seq<char>) -> int {
    if f.len() == 0 {
        0
    } else if f.len() == 1 {
        digit_val(f[0]) * 10
    } else {
        digit_val(f[0]) * 10 + digit_val(f[1])
    }
}

/// The number of cents a well-formed decimal amount denotes.
pub open spec fn amount_cents(s: Seq<char>) -> int {
    if all_digits(s) {
        digits_value(s) * 100
    } else {
        let k = choose|k: int| dot_shape(s, k);
        digits_value(s.subrange(0, k)) * 100 + frac_cents(s.subrange(k + 1, s.len() as int))
    }
}

pub proof fn lemma_digits_value_nonneg(s: Seq<char>)
    requires
        all_digits(s),
    ensures
        digits_value(s) >= 0,
    decreases s.len(),
{
    if s.len() > 0 {
        lemma_digits_value_nonneg(s.drop_last());
        assert(digits_value(s.drop_last()) * 10 >= 0) by (nonlinear_arith)
            requires digits_value(s.drop_last()) >= 0;
    }
}

/// At most one position can carry the dot of a well-formed amount.
pub proof fn lemma_dot_unique(s: Seq<char>, k1: int, k2: int)
    requires
        dot_shape(s, k1),
        dot_shape(s, k2),
    ensures
        k1 == k2,
{
    if k1 < k2 {
        assert(s.subrange(k1 + 1, s.len() as int)[k2 - (k1 + 1)] == '.');
    }
    if k2 < k1 {
        assert(s.subrange(k2 + 1, s.len() as int)[k1 - (k2 + 1)] == '.');
    }
}

/// Scan for the shape of a decimal amount: the dot position if any, or
/// `Err(())` when a character is neither digit nor first dot.
fn scan_amount(s: &str) -> (r: Result<Option<usize>, ()>)
    ensures
        match r {
            Result::Ok(dot) => {
                &&& (dot matches Some(k) ==> k < s@.len() && s@[k as int] == '.' && (forall|j: int|
                    0 <= j < s@.len() && j != k ==> is_digit(#[trigger] s@[j])))
                &&& (dot is None ==> all_digits(s@))
            },
            Result::Err(_) => !(exists|k: int| dot_shape(s@, k)) && !all_digits(s@),
        },
{
    let n = s.unicode_len();
    let mut dot: Option<usize> = None;
    let mut i: usize = 0;
    while i < n
        invariant
            0 <= i <= n,
            n == s@.len(),
            match dot {
                Some(k) => k < i && s@[k as int] == '.' && (forall|j: int|
                    0 <= j < i && j != k ==> is_digit(#[trigger] s@[j])),
                None => forall|j: int| 0 <= j < i ==> is_digit(#[trigger] s@[j]),
            },
        decreases n - i,
    {
        let c = s.get_char(i);
        if c == '.' {
            match dot {
                None => {
                    dot = Some(i);
                },
                Some(k) => {
                    proof {
                        lemma_two_dots_invalid(s@, k as int, i as int);
                    }
                    return Result::Err(());
                },
            }
        } else if !('0' <= c && c <= '9') {
            proof {
                lemma_bad_char_invalid(s@, i as int);
            }
            return Result::Err(());
        }
        i = i + 1;
    }
    Result::Ok(dot)
}

proof fn lemma_two_dots_invalid(s: Seq<char>, k1: int, k2: int)
    requires
        0 <= k1 < k2 < s.len(),
        s[k1] == '.',
        s[k2] == '.',
    ensures
        !(exists|k: int| dot_shape(s, k)),
        !all_digits(s),
{
    assert(!is_digit('.'));
    assert forall|k: int| !dot_shape(s, k) by {
        if dot_shape(s, k) {
            if k1 < k {
                assert(s.subrange(0, k)[k1] == '.');
            } else if k < k2 {
                assert(s.subrange(k + 1, s.len() as int)[k2 - (k + 1)] == '.');
            }
        }
    }
}

proof fn lemma_bad_char_invalid(s: Seq<char>, q: int)
    requires
        0 <= q < s.len(),
        !is_digit(s[q]),
        s[q] != '.',
    ensures
        !(exists|k: int| dot_shape(s, k)),
        !all_digits(s),
{
    assert forall|k: int| !dot_shape(s, k) by {
        if dot_shape(s, k) {
            if q < k {
                assert(s.subrange(0, k)[q] == s[q]);
            } else if q > k {
                assert(s.subrange(k + 1, s.len() as int)[q - (k + 1)] == s[q]);
            }
        }
    }
}

/// Read the digits of `s` in `[from, to)` as a number; `Err(())` means the
/// value does not fit in a `u64`.
fn digits_to_u64(s: &str, from: usize, to: usize) -> (r: Result<u64, ()>)
    requires
        from <= to <= s@.len(),
        s@.len() <= usize::MAX,
        all_digits(s@.subrange(from as int, to as int)),
    ensures
        match r {
            Result::Ok(v) => v == digits_value(s@.subrange(from as int, to as int)),
            Result::Err(_) => digits_value(s@.subrange(from as int, to as int)) > u64::MAX,
        },
{
    let ghost whole = s@.subrange(from as int, to as int);
    let mut v: u64 = 0;
    let mut over: bool = false;
    let mut i: usize = from;
    while i < to
        invariant
            from <= i <= to <= s@.len(),
            s@.len() <= usize::MAX,
            all_digits(s@.subrange(from as int, to as int)),
            whole == s@.subrange(from as int, to as int),
            !over ==> v == digits_value(s@.subrange(from as int, i as int)),
            over ==> digits_value(s@.subrange(from as int, i as int)) > u64::MAX,
        decreases to - i,
    {
        let c = s.get_char(i);
        proof {
            assert(whole[i - from] == s@[i as int]);
            assert(is_digit(s@[i as int]));
        }
        let d = (c as u32 - '0' as u32) as u64;
        let ghost prefix = s@.subrange(from as int, i as int);
        let ghost prefix2 = s@.subrange(from as int, i + 1);
        proof {
            assert(prefix2.drop_last() =~= prefix);
            assert(digits_value(prefix2) == digits_value(prefix) * 10 + digit_val(s@[i as int]));
        }
        if over {
            proof {
                assert(digits_value(prefix) * 10 + digit_val(s@[i as int]) > u64::MAX)
                    by (nonlinear_arith)
                    requires digits_value(prefix) > u64::MAX, digit_val(s@[i as int]) >= 0;
            }
        } else {
            match v.checked_mul(10) {
                Some(v10) => {
                    match v10.checked_add(d) {
                        Some(v2) => {
                            v = v2;
                        },
                        None => {
                            over = true;
                        },
                    }
                },
                None => {
                    over = true;
                    proof {
                        assert(digits_value(prefix) * 10 + digit_val(s@[i as int]) > u64::MAX)
                            by (nonlinear_arith)
                            requires
                                digits_value(prefix) * 10 > u64::MAX,
                                digit_val(s@[i as int]) >= 0,
                        ;
                    }
                },
            }
        }
        i = i + 1;
    }
    proof {
        assert(s@.subrange(from as int, to as int) =~= whole);
    }
    if over {
        Result::Err(())
    } else {
        Result::Ok(v)
    }
}

/// Parse a decimal money amount into cents. Returns the exact value when the
/// text is a well-formed amount that fits in a `u64`, and nothing otherwise.
pub fn parse_amount(s: &str) -> (r: Option<u64>)
    ensures
        r is Some <==> amount_valid(s@) && amount_cents(s@) <= u64::MAX,
        r matches Some(v) ==> v == amount_cents(s@),
{
    let n = s.unicode_len();
    let dot = match scan_amount(s) {
        Result::Ok(dot) => dot,
        Result::Err(_) => {
            return None;
        },
    };
    match dot {
        None => {
            if n == 0 {
                proof {
                    assert(!amount_valid(s@)) by {
                        assert forall|k: int| !dot_shape(s@, k) by {}
                    }
                }
                return None;
            }
            proof {
                assert(s@.subrange(0, n as int) =~= s@);
                lemma_digits_value_nonneg(s@);
            }
            let v = match digits_to_u64(s, 0, n) {
                Result::Ok(v) => v,
                Result::Err(_) => {
                    proof {
                        assert(digits_value(s@) * 100 > u64::MAX) by (nonlinear_arith)
                            requires digits_value(s@) > u64::MAX;
                    }
                    return None;
                },
            };
            match v.checked_mul(100) {
                Some(c) => Some(c),
                None => None,
            }
        },
        Some(k) => {
            proof {
                assert(!all_digits(s@)) by {
                    assert(!is_digit(s@[k as int]));
                }
            }
            // One digit somewhere, at most two after the dot.
            if n < 2 || n - (k + 1) > 2 {
                proof {
                    assert forall|k2: int| !dot_shape(s@, k2) by {
                        if dot_shape(s@, k2) {
                            if k2 != k as int {
                                assert(is_digit(s@[k2]));
                            }
                        }
                    }
                }
                return None;
            }
            proof {
                assert forall|j: int| 0 <= j < k implies is_digit(#[trigger] s@.subrange(0, k as int)[j]) by {}
                assert(all_digits(s@.subrange(0, k as int)));
                assert(all_digits(s@.subrange(k + 1, s@.len() as int)));
                assert(dot_shape(s@, k as int));
                lemma_dot_unique(s@, k as int, choose|k2: int| dot_shape(s@, k2));
                lemma_digits_value_nonneg(s@.subrange(0, k as int));
            }
            let whole = match digits_to_u64(s, 0, k) {
                Result::Ok(v) => v,
                Result::Err(_) => {
                    proof {
                        let ip = s@.subrange(0, k as int);
                        assert(digits_value(ip) * 100 + frac_cents(
                            s@.subrange(k + 1, s@.len() as int),
                        ) > u64::MAX) by (nonlinear_arith)
                            requires
                                digits_value(ip) > u64::MAX,
                                frac_cents(s@.subrange(k + 1, s@.len() as int)) >= 0,
                        ;
                    }
                    return None;
                },
            };
            let mut frac: u64 = 0;
            if k + 1 < n {
                let c0 = s.get_char(k + 1);
                proof {
                    assert(s@.subrange(k + 1, s@.len() as int)[0] == s@[k + 1]);
                }
                frac = (c0 as u32 - '0' as u32) as u64 * 10;
                if k + 2 < n {
                    let c1 = s.get_char(k + 2);
                    proof {
                        assert(s@.subrange(k + 1, s@.len() as int)[1] == s@[k + 2]);
                    }
                    frac = frac + ((c1 as u32 - '0' as u32) as u64);
                }
            }
            proof {
                assert(frac == frac_cents(s@.subrange(k + 1, s@.len() as int)));
            }
            match whole.checked_mul(100) {
                Some(w100) => {
                    match w100.checked_add(frac) {
                        Some(c) => Some(c),
                        None => None,
                    }
                },
                None => {
                    proof {
                        assert(digits_value(s@.subrange(0, k as int)) * 100 + frac >= digits_value(
                            s@.subrange(0, k as int),
                        ) * 100);
                    }
                    None
                },
            }
        },
    }
}

} // verus!
