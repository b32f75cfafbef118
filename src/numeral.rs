use vstd::prelude::*;

verus! {

/// Relies on `nom::number::complete::double`, which reads a float from the start of
/// its input and returns the input that follows (nom's `recognize_float_or_exceptions`
/// grammar, stated in `float_len`; what it reads always parses as an `f64`).
#[verifier::external_body]
fn double_rest(s: &[char]) -> (r: Option<usize>)
    ensures
        match float_len(s@) {
            Some(n) => r == Some((s@.len() - n) as usize),
            None => r is None,
        },
{
    let text: std::string::String = s.iter().collect();
    nom::number::complete::double::<_, ()>(text.as_str()).ok().map(|(rest, _)| rest.chars().count())
}

pub open spec fn is_ascii_digit(c: char) -> bool {
    '0' <= c <= '9'
}

pub open spec fn is_ascii_alphabetic(c: char) -> bool {
    ('a' <= c <= 'z') || ('A' <= c <= 'Z')
}

/// The end of the run of ASCII digits from `i`.
pub open spec fn digits_end(s: Seq<char>, i: int) -> int
    decreases s.len() - i,
{
    if 0 <= i < s.len() && is_ascii_digit(s[i]) {
        digits_end(s, i + 1)
    } else {
        i
    }
}

pub open spec fn is_sign(c: char) -> bool {
    c == '+' || c == '-'
}

/// `s` starts with the three letters `a`, `b`, `c` (lower case given), in either case.
pub open spec fn starts_no_case(s: Seq<char>, a: char, b: char, c: char, ua: char, ub: char, uc: char) -> bool {
    s.len() >= 3 && (s[0] == a || s[0] == ua) && (s[1] == b || s[1] == ub) && (s[2] == c || s[2] == uc)
}

/// The end of the mantissa of a float that starts at `a` (after any sign): digits with an
/// optional point and optional digits, or a point and digits.
pub open spec fn mantissa_end(s: Seq<char>, a: int) -> Option<int> {
    let d = digits_end(s, a);
    if d > a {
        if d < s.len() && s[d] == '.' {
            Some(digits_end(s, d + 1))
        } else {
            Some(d)
        }
    } else if a < s.len() && s[a] == '.' && digits_end(s, a + 1) > a + 1 {
        Some(digits_end(s, a + 1))
    } else {
        None
    }
}

/// How many characters of `s` make the float that nom reads at its start: an optional
/// sign, a mantissa, and an optional exponent (`e` or `E`, an optional sign, and digits,
/// which must be there once the `e` is); with no mantissa, `nan` or `inf` in any case.
pub open spec fn float_len(s: Seq<char>) -> Option<nat> {
    let a: int = if s.len() > 0 && is_sign(s[0]) { 1 } else { 0 };
    match mantissa_end(s, a) {
        Some(m) => if m < s.len() && (s[m] == 'e' || s[m] == 'E') {
            let b = if m + 1 < s.len() && is_sign(s[m + 1]) { m + 2 } else { m + 1 };
            if digits_end(s, b) > b {
                Some(digits_end(s, b) as nat)
            } else {
                None
            }
        } else {
            Some(m as nat)
        },
        None => if starts_no_case(s, 'n', 'a', 'n', 'N', 'A', 'N') || starts_no_case(s, 'i', 'n', 'f', 'I', 'N', 'F') {
            Some(3)
        } else {
            None
        },
    }
}

proof fn lemma_digits_end_bounds(s: Seq<char>, i: int)
    requires
        0 <= i <= s.len(),
    ensures
        i <= digits_end(s, i) <= s.len(),
    decreases s.len() - i,
{
    if i < s.len() && is_ascii_digit(s[i]) {
        lemma_digits_end_bounds(s, i + 1);
    }
}

/// A float that nom reads holds at least one character and no more than the input.
pub proof fn lemma_float_len_bounds(s: Seq<char>)
    ensures
        float_len(s) matches Some(n) ==> 1 <= n <= s.len(),
{
    let a: int = if s.len() > 0 && is_sign(s[0]) { 1 } else { 0 };
    lemma_digits_end_bounds(s, a);
    let d = digits_end(s, a);
    if d < s.len() {
        lemma_digits_end_bounds(s, d + 1);
    }
    if a < s.len() {
        lemma_digits_end_bounds(s, a + 1);
    }
    match mantissa_end(s, a) {
        Some(m) => {
            if m < s.len() && (s[m] == 'e' || s[m] == 'E') {
                let b = if m + 1 < s.len() && is_sign(s[m + 1]) { m + 2 } else { m + 1 };
                lemma_digits_end_bounds(s, b);
            }
        },
        None => {},
    }
}

/// The characters a numeral can be made of: the float grammar's digits, point,
/// exponent and signs, and the letters of its special values.
pub open spec fn is_numeral_char(c: char) -> bool {
    is_ascii_digit(c) || is_ascii_alphabetic(c) || c == '.' || c == '+' || c == '-'
}

/// The end of the run of numeral characters that starts at `i`.
pub open spec fn numeral_window_end(s: Seq<char>, i: int) -> int
    decreases s.len() - i,
{
    if 0 <= i < s.len() && is_numeral_char(s[i]) {
        numeral_window_end(s, i + 1)
    } else {
        i
    }
}

/// The length of the numeral at `i`: what the float parser reads from the run of numeral
/// characters there, or, where an exponent marker without digits makes it read nothing,
/// what it reads before that marker. This is the longest numeral prefix.
pub open spec fn numeral_len(s: Seq<char>, i: int) -> Option<nat> {
    let w = s.subrange(i, numeral_window_end(s, i));
    match float_len(w) {
        Some(n) => Some(n),
        None => if exponent_marker(w, 0) < w.len() {
            float_len(w.take(exponent_marker(w, 0)))
        } else {
            None
        },
    }
}

/// The first offset from `i` that holds an exponent marker `e` or `E`, or the end.
pub open spec fn exponent_marker(s: Seq<char>, i: int) -> int
    decreases s.len() - i,
{
    if 0 <= i < s.len() && !(s[i] == 'e' || s[i] == 'E') {
        exponent_marker(s, i + 1)
    } else {
        i
    }
}

pub open spec fn digit_val(c: char) -> int {
    (c as u32) as int - 48
}

/// The value of a run of decimal digits.
pub open spec fn digits_value(s: Seq<char>) -> int
    decreases s.len(),
{
    if s.len() == 0 {
        0
    } else {
        digits_value(s.drop_last()) * 10 + digit_val(s.last())
    }
}

/// `s` without a leading `+`.
pub open spec fn without_plus(s: Seq<char>) -> Seq<char> {
    if s.len() > 0 && s[0] == '+' { s.drop_first() } else { s }
}

/// An unsigned integer written as decimal digits with an optional leading `+`,
/// when it fits in `usize`.
pub open spec fn usize_of(s: Seq<char>) -> Option<usize> {
    let d = without_plus(s);
    if d.len() > 0 && (forall|k: int| 0 <= k < d.len() ==> is_ascii_digit(#[trigger] d[k]))
        && digits_value(d) <= usize::MAX {
        Some(digits_value(d) as usize)
    } else {
        None
    }
}

/// The end of the run of numeral characters from `i`.
pub fn numeral_window(s: &Vec<char>, i: usize) -> (r: usize)
    requires
        i <= s@.len(),
    ensures
        r == numeral_window_end(s@, i as int),
        i <= r <= s@.len(),
{
    let mut j: usize = i;
    while j < s.len() && (('0' <= s[j] && s[j] <= '9') || ('a' <= s[j] && s[j] <= 'z') || ('A' <= s[j] && s[j] <= 'Z')
        || s[j] == '.' || s[j] == '+' || s[j] == '-')
        invariant
            i <= j <= s@.len(),
            numeral_window_end(s@, j as int) == numeral_window_end(s@, i as int),
        decreases s@.len() - j,
    {
        j = j + 1;
    }
    j
}

/// The length of the numeral at `i`, read by the float parser.
pub fn numeral_at(s: &Vec<char>, i: usize) -> (r: Option<usize>)
    requires
        i <= s@.len(),
    ensures
        r matches Some(n) ==> numeral_len(s@, i as int) == Some(n as nat) && 1 <= n && i + n <= s@.len(),
        r is None ==> numeral_len(s@, i as int) is None,
{
    let end = numeral_window(s, i);
    let window = &s.as_slice()[i..end];
    proof {
        lemma_float_len_bounds(window@);
    }
    match double_rest(window) {
        Some(k) => Some(end - i - k),
        None => {
            // An exponent marker without digits ends the numeral before it.
            let mut m: usize = 0;
            while m < window.len() && !(window[m] == 'e' || window[m] == 'E')
                invariant
                    m <= window@.len(),
                    exponent_marker(window@, m as int) == exponent_marker(window@, 0),
                decreases window@.len() - m,
            {
                m = m + 1;
            }
            if m == window.len() {
                return None;
            }
            let head = &window[0..m];
            proof {
                assert(head@ =~= window@.take(m as int));
                lemma_float_len_bounds(head@);
            }
            match double_rest(head) {
                Some(k) => Some(m - k),
                None => None,
            }
        },
    }
}

/// Reads the characters from `a` up to `b` as an unsigned integer, as `usize`'s
/// `from_str` does.
pub fn parse_usize(s: &Vec<char>, a: usize, b: usize) -> (r: Option<usize>)
    requires
        a <= b <= s@.len(),
    ensures
        r == usize_of(s@.subrange(a as int, b as int)),
{
    let ghost t = s@.subrange(a as int, b as int);
    let start: usize = if a < b && s[a] == '+' { a + 1 } else { a };
    let ghost d = s@.subrange(start as int, b as int);
    assert(d =~= without_plus(t));
    if start == b {
        return None;
    }
    let mut k: usize = start;
    let mut acc: usize = 0;
    let mut overflow = false;
    let ghost mut v: int = 0;
    while k < b
        invariant
            start <= k <= b <= s@.len(),
            d == s@.subrange(start as int, b as int),
            t == s@.subrange(a as int, b as int),
            d == without_plus(t),
            forall|m: int| start <= m < k ==> is_ascii_digit(#[trigger] s@[m]),
            v == digits_value(s@.subrange(start as int, k as int)),
            v >= 0,
            !overflow ==> acc == v,
            overflow ==> v > usize::MAX,
        decreases b - k,
    {
        let c = s[k];
        if !('0' <= c && c <= '9') {
            assert(d[k - start] == c);
            assert(!is_ascii_digit(d[k - start]));
            assert(!(forall|m: int| 0 <= m < d.len() ==> is_ascii_digit(#[trigger] d[m])));
            assert(usize_of(t) is None);
            return None;
        }
        let dv = (c as u32 - 48) as usize;
        proof {
            let p = s@.subrange(start as int, k as int + 1);
            assert(p.drop_last() =~= s@.subrange(start as int, k as int));
            let ghost old_v = v;
            if overflow {
                assert(old_v * 10 + dv > usize::MAX) by (nonlinear_arith)
                    requires
                        old_v > usize::MAX,
                        dv >= 0,
                ;
            }
            v = v * 10 + dv;
        }
        if !overflow {
            match acc.checked_mul(10) {
                Some(m) => match m.checked_add(dv) {
                    Some(x) => acc = x,
                    None => overflow = true,
                },
                None => overflow = true,
            }
        }
        k = k + 1;
    }
    assert forall|m: int| 0 <= m < d.len() implies is_ascii_digit(#[trigger] d[m]) by {
        assert(d[m] == s@[start + m]);
    }
    assert(d =~= s@.subrange(start as int, k as int));
    if overflow {
        None
    } else {
        Some(acc)
    }
}

} // verus!
