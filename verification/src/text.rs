//! Text helpers used by the command handlers and the asset readers: prefix
//! tests, the second space-separated field, and number parsing that accepts
//! exactly what `str::parse` accepts for the integer types involved.

use vstd::prelude::*;
use vstd::string::StrSliceExecFns;

verus! {

/// Whether two strings hold the same characters.
pub fn str_eq(a: &str, b: &str) -> (r: bool)
    ensures
        r == (a@ == b@),
{
    let n = a.unicode_len();
    if n != b.unicode_len() {
        return false;
    }
    let mut i: usize = 0;
    while i < n
        invariant
            n == a@.len(),
            n == b@.len(),
            i <= n,
            a@.subrange(0, i as int) == b@.subrange(0, i as int),
        decreases n - i,
    {
        if a.get_char(i) != b.get_char(i) {
            return false;
        }
        assert(a@.subrange(0, i + 1) =~= a@.subrange(0, i as int).push(a@[i as int]));
        assert(b@.subrange(0, i + 1) =~= b@.subrange(0, i as int).push(b@[i as int]));
        i += 1;
    }
    assert(a@ =~= a@.subrange(0, n as int));
    assert(b@ =~= b@.subrange(0, n as int));
    true
}

/// Whether `s` begins with `prefix`.
pub fn starts_with(s: &str, prefix: &str) -> (r: bool)
    ensures
        r == prefix@.is_prefix_of(s@),
{
    let n = prefix.unicode_len();
    if n > s.unicode_len() {
        return false;
    }
    let mut i: usize = 0;
    while i < n
        invariant
            n == prefix@.len(),
            n <= s@.len(),
            i <= n,
            forall|j: int| 0 <= j < i ==> prefix@[j] == s@[j],
        decreases n - i,
    {
        if s.get_char(i) != prefix.get_char(i) {
            return false;
        }
        i += 1;
    }
    true
}

/// The index of the first `c` in `s`, or -1.
pub open spec fn first_index(s: Seq<char>, c: char) -> int
    decreases s.len(),
{
    if s.len() == 0 {
        -1
    } else if s[0] == c {
        0
    } else {
        let r = first_index(s.drop_first(), c);
        if r < 0 { -1 } else { r + 1 }
    }
}

proof fn lemma_first_index(s: Seq<char>, c: char, k: int)
    requires
        0 <= k <= s.len(),
        forall|j: int| 0 <= j < k ==> s[j] != c,
    ensures
        k < s.len() && s[k] == c ==> first_index(s, c) == k,
        k == s.len() ==> first_index(s, c) == -1,
    decreases k,
{
    if k > 0 {
        lemma_first_index(s.drop_first(), c, k - 1);
    } else if s.len() == 0 {
    }
}

/// The index of the first `c` in `s` at or after `from`, or the length of `s`.
fn find_char(s: &str, c: char, from: usize) -> (r: usize)
    requires
        from <= s@.len(),
    ensures
        from <= r <= s@.len(),
        r < s@.len() ==> s@[r as int] == c,
        forall|j: int| from <= j < r ==> s@[j] != c,
{
    let n = s.unicode_len();
    let mut i = from;
    while i < n
        invariant
            n == s@.len(),
            from <= i <= n,
            forall|j: int| from <= j < i ==> s@[j] != c,
        decreases n - i,
    {
        if s.get_char(i) == c {
            return i;
        }
        i += 1;
    }
    i
}

/// The second field of `s` split at `sep`, as `s.split(sep).nth(1)` gives it:
/// the text between the first and the second `sep` (or the end).
pub open spec fn second_field(s: Seq<char>, sep: char) -> Option<Seq<char>> {
    let k = first_index(s, sep);
    if k < 0 {
        None
    } else {
        let rest = s.skip(k + 1);
        let e = first_index(rest, sep);
        Some(if e < 0 { rest } else { rest.take(e) })
    }
}

/// Returns the second field of `s` split at `sep`, if there is one.
pub fn split_second(s: &str, sep: char) -> (r: Option<String>)
    ensures
        match r {
            Some(f) => second_field(s@, sep) == Some(f@),
            None => second_field(s@, sep) is None,
        },
{
    let n = s.unicode_len();
    let k = find_char(s, sep, 0);
    proof {
        lemma_first_index(s@, sep, k as int);
    }
    if k == n {
        return None;
    }
    let e = find_char(s, sep, k + 1);
    proof {
        let rest = s@.skip(k + 1);
        assert forall|j: int| 0 <= j < e - (k + 1) implies rest[j] != sep by {
            assert(rest[j] == s@[j + k + 1]);
        }
        lemma_first_index(rest, sep, e - (k + 1));
        assert(rest.take(e - (k + 1)) =~= s@.subrange(k + 1, e as int));
        assert(rest =~= s@.subrange(k + 1, n as int));
    }
    Some(s.substring_char(k + 1, e).to_owned())
}

/// The value of a digit in the given radix (`to_digit`): 0-9, then letters of either case.
pub open spec fn digit_value(c: char, radix: nat) -> Option<nat> {
    let d: int = if '0' <= c <= '9' {
        c as int - '0' as int
    } else if 'a' <= c <= 'z' {
        c as int - 'a' as int + 10
    } else if 'A' <= c <= 'Z' {
        c as int - 'A' as int + 10
    } else {
        radix as int
    };
    if 0 <= d < radix { Some(d as nat) } else { None }
}

/// The number written by `s` in the given radix, if `s` consists of digits only.
pub open spec fn digits_value(s: Seq<char>, radix: nat) -> Option<nat>
    decreases s.len(),
{
    if s.len() == 0 {
        Some(0)
    } else {
        match (digits_value(s.drop_last(), radix), digit_value(s.last(), radix)) {
            (Some(v), Some(d)) => Some(v * radix + d),
            _ => None,
        }
    }
}

/// The digits of a number after its optional sign: a leading `+`, or a
/// leading `-` where `signed` holds, is taken off. Gives the sign and the rest.
pub open spec fn split_sign(s: Seq<char>, signed: bool) -> (bool, Seq<char>) {
    if s.len() > 0 && s[0] == '+' {
        (false, s.drop_first())
    } else if signed && s.len() > 0 && s[0] == '-' {
        (true, s.drop_first())
    } else {
        (false, s)
    }
}

/// The integer that `str::parse` (or `from_str_radix`) reads from `s`, if it
/// lies in `[min, max]`: an optional sign, then at least one digit.
pub open spec fn parse_integer(s: Seq<char>, radix: nat, min: int, max: int) -> Option<int> {
    let (negative, body) = split_sign(s, min < 0);
    if body.len() == 0 {
        None
    } else {
        match digits_value(body, radix) {
            Some(m) => {
                let v: int = if negative { -m } else { m as int };
                if min <= v <= max { Some(v) } else { None }
            },
            None => None,
        }
    }
}

/// The value of one character as a digit of `radix` (at most 16 here).
fn digit(c: char, radix: u32) -> (r: Option<u32>)
    requires
        2 <= radix <= 36,
    ensures
        r matches Some(d) ==> digit_value(c, radix as nat) == Some(d as nat),
        r is None ==> digit_value(c, radix as nat) is None,
{
    let d: u32 = if '0' <= c && c <= '9' {
        (c as u32) - ('0' as u32)
    } else if 'a' <= c && c <= 'z' {
        (c as u32) - ('a' as u32) + 10
    } else if 'A' <= c && c <= 'Z' {
        (c as u32) - ('A' as u32) + 10
    } else {
        radix
    };
    if d < radix { Some(d) } else { None }
}

/// Reads the digits of `s` from `start` on: `None` if some character is not a
/// digit, else the value capped at `cap`.
fn digits_capped(s: &str, start: usize, radix: u32, cap: u128) -> (r: Option<u128>)
    requires
        start <= s@.len(),
        2 <= radix <= 36,
        cap <= 0x1_0000_0000_0000_0000_0000,
    ensures
        r matches Some(v) ==> digits_value(s@.skip(start as int), radix as nat) matches Some(m) && v
            == (if m < cap { m } else { cap as nat }),
        r is None ==> digits_value(s@.skip(start as int), radix as nat) is None,
{
    let n = s.unicode_len();
    let mut i = start;
    let mut v: u128 = 0;
    assert(s@.subrange(start as int, start as int) =~= Seq::<char>::empty());
    while i < n
        invariant
            n == s@.len(),
            start <= i <= n,
            2 <= radix <= 36,
            cap <= 0x1_0000_0000_0000_0000_0000,
            digits_value(s@.subrange(start as int, i as int), radix as nat) matches Some(m) && v
                == (if m < cap { m } else { cap as nat }),
        decreases n - i,
    {
        let ghost prev = s@.subrange(start as int, i as int);
        let ghost m = digits_value(prev, radix as nat).unwrap();
        let c = s.get_char(i);
        let ghost next = s@.subrange(start as int, i + 1);
        assert(next.drop_last() =~= prev);
        assert(next.last() == c);
        match digit(c, radix) {
            Some(d) => {
                if v >= cap {
                    assert(m * radix + d >= cap) by (nonlinear_arith)
                        requires m >= cap, radix >= 2;
                    v = cap;
                } else {
                    assert(v * radix + d <= 0x1_0000_0000_0000_0000_0000 * 36 + 36) by (nonlinear_arith)
                        requires v < 0x1_0000_0000_0000_0000_0000, radix <= 36, d < 36;
                    let w: u128 = v * (radix as u128) + d as u128;
                    v = if w >= cap { cap } else { w };
                }
            },
            None => {
                proof {
                    lemma_digits_none_extends(s@.skip(start as int), next, radix as nat);
                }
                return None;
            },
        }
        i += 1;
    }
    assert(s@.subrange(start as int, n as int) =~= s@.skip(start as int));
    Some(v)
}

/// Once a prefix has a non-digit, the whole sequence does.
proof fn lemma_digits_none_extends(s: Seq<char>, prefix: Seq<char>, radix: nat)
    requires
        prefix.is_prefix_of(s),
        digits_value(prefix, radix) is None,
    ensures
        digits_value(s, radix) is None,
    decreases s.len(),
{
    if s.len() > prefix.len() {
        lemma_digits_none_extends(s.drop_last(), prefix, radix);
        assert(prefix.is_prefix_of(s.drop_last()));
    } else {
        assert(s =~= prefix);
    }
}

/// Parses an integer of the range `[min, max]` in the given radix, with an
/// optional sign; the semantics of `str::parse` / `from_str_radix`.
fn parse_int_in(s: &str, radix: u32, min: i128, max: i128) -> (r: Option<i128>)
    requires
        2 <= radix <= 36,
        -0x8000_0000_0000_0000 <= min <= 0 < max <= 0xffff_ffff_ffff_ffff,
    ensures
        match r {
            Some(v) => parse_integer(s@, radix as nat, min as int, max as int) == Some(v as int),
            None => parse_integer(s@, radix as nat, min as int, max as int) is None,
        },
{
    let n = s.unicode_len();
    let mut start: usize = 0;
    let mut negative = false;
    if n > 0 {
        let c = s.get_char(0);
        if c == '+' {
            start = 1;
        } else if min < 0 && c == '-' {
            start = 1;
            negative = true;
        }
    }
    proof {
        assert(s@.skip(start as int) =~= split_sign(s@, min < 0).1);
    }
    if start == n {
        return None;
    }
    let cap: u128 = 0x1_0000_0000_0000_0001;
    match digits_capped(s, start, radix, cap) {
        Some(m) => {
            if negative {
                if (m as i128) > -min {
                    return None;
                }
                Some(-(m as i128))
            } else {
                if (m as i128) > max {
                    return None;
                }
                Some(m as i128)
            }
        },
        None => None,
    }
}

/// Parses a 64-bit signed integer as `str::parse::<i64>` does.
pub fn parse_i64(s: &str) -> (r: Option<i64>)
    ensures
        match r {
            Some(v) => parse_integer(s@, 10, i64::MIN as int, i64::MAX as int) == Some(v as int),
            None => parse_integer(s@, 10, i64::MIN as int, i64::MAX as int) is None,
        },
{
    match parse_int_in(s, 10, i64::MIN as i128, i64::MAX as i128) {
        Some(v) => Some(v as i64),
        None => None,
    }
}

/// Parses a 32-bit signed integer as `str::parse::<i32>` does.
pub fn parse_i32(s: &str) -> (r: Option<i32>)
    ensures
        match r {
            Some(v) => parse_integer(s@, 10, i32::MIN as int, i32::MAX as int) == Some(v as int),
            None => parse_integer(s@, 10, i32::MIN as int, i32::MAX as int) is None,
        },
{
    match parse_int_in(s, 10, i32::MIN as i128, i32::MAX as i128) {
        Some(v) => Some(v as i32),
        None => None,
    }
}

/// Parses a 16-bit signed integer as `str::parse::<i16>` does.
pub fn parse_i16(s: &str) -> (r: Option<i16>)
    ensures
        match r {
            Some(v) => parse_integer(s@, 10, i16::MIN as int, i16::MAX as int) == Some(v as int),
            None => parse_integer(s@, 10, i16::MIN as int, i16::MAX as int) is None,
        },
{
    match parse_int_in(s, 10, i16::MIN as i128, i16::MAX as i128) {
        Some(v) => Some(v as i16),
        None => None,
    }
}

/// Parses an 8-bit unsigned integer as `str::parse::<u8>` does.
pub fn parse_u8(s: &str) -> (r: Option<u8>)
    ensures
        match r {
            Some(v) => parse_integer(s@, 10, 0, u8::MAX as int) == Some(v as int),
            None => parse_integer(s@, 10, 0, u8::MAX as int) is None,
        },
{
    match parse_int_in(s, 10, 0, u8::MAX as i128) {
        Some(v) => Some(v as u8),
        None => None,
    }
}

/// Parses a 32-bit unsigned integer in `radix` as `u32::from_str_radix` does
/// (radix 10 is `str::parse::<u32>`).
pub fn parse_u32_radix(s: &str, radix: u32) -> (r: Option<u32>)
    requires
        2 <= radix <= 36,
    ensures
        match r {
            Some(v) => parse_integer(s@, radix as nat, 0, u32::MAX as int) == Some(v as int),
            None => parse_integer(s@, radix as nat, 0, u32::MAX as int) is None,
        },
{
    match parse_int_in(s, radix, 0, u32::MAX as i128) {
        Some(v) => Some(v as u32),
        None => None,
    }
}


/// Whether `p` occurs in `s` starting at index `i`.
pub open spec fn occurs_at(s: Seq<char>, p: Seq<char>, i: int) -> bool {
    0 <= i && i + p.len() <= s.len() && s.subrange(i, i + p.len()) == p
}

/// Whether `p` occurs in `s`, as `str::contains` finds it (the empty string
/// occurs everywhere).
pub open spec fn has_substring(s: Seq<char>, p: Seq<char>) -> bool {
    exists|i: int| occurs_at(s, p, i)
}

/// Whether `p` occurs in `s` at `i`, compared character by character.
fn occurs_at_exec(s: &str, p: &str, i: usize) -> (r: bool)
    requires
        i + p@.len() <= s@.len(),
    ensures
        r == occurs_at(s@, p@, i as int),
{
    let sl = s.unicode_len();
    let n = p.unicode_len();
    let mut j: usize = 0;
    while j < n
        invariant
            n == p@.len(),
            sl == s@.len(),
            i + n <= s@.len(),
            j <= n,
            forall|k: int| 0 <= k < j ==> s@[i + k] == p@[k],
        decreases n - j,
    {
        if s.get_char(i + j) != p.get_char(j) {
            assert(s@.subrange(i as int, i + n)[j as int] != p@[j as int]);
            return false;
        }
        j += 1;
    }
    assert(s@.subrange(i as int, i + n) =~= p@);
    true
}

/// Whether `p` occurs in `s`.
pub fn contains_str(s: &str, p: &str) -> (r: bool)
    ensures
        r == has_substring(s@, p@),
{
    let n = s.unicode_len();
    let m = p.unicode_len();
    if m > n {
        assert forall|i: int| !occurs_at(s@, p@, i) by {}
        return false;
    }
    let last = n - m;
    let mut i: usize = 0;
    loop
        invariant
            n == s@.len(),
            m == p@.len(),
            m <= n,
            last == n - m,
            i <= last,
            forall|k: int| 0 <= k < i ==> !occurs_at(s@, p@, k),
        ensures
            forall|k: int| 0 <= k <= last ==> !occurs_at(s@, p@, k),
        decreases last - i,
    {
        if occurs_at_exec(s, p, i) {
            return true;
        }
        if i == last {
            break;
        }
        i += 1;
    }
    assert forall|k: int| !occurs_at(s@, p@, k) by {
        if 0 <= k <= last {
        }
    }
    false
}

// ---------------------------------------------------------------- decimal numbers

/// Whether a character is a decimal digit.
pub open spec fn is_digit(c: char) -> bool {
    '0' <= c && c <= '9'
}

/// Whether every character is a decimal digit.
pub open spec fn all_digits(s: Seq<char>) -> bool {
    forall|i: int| 0 <= i < s.len() ==> is_digit(#[trigger] s[i])
}

/// `s` without a leading `+` or `-`.
pub open spec fn unsigned(s: Seq<char>) -> Seq<char> {
    if s.len() > 0 && (s[0] == '+' || s[0] == '-') { s.drop_first() } else { s }
}

/// `Digit+`, `Digit+ '.' Digit*` or `Digit* '.' Digit+`.
pub open spec fn mantissa_syntax(m: Seq<char>) -> bool {
    ||| m.len() > 0 && all_digits(m)
    ||| exists|d: int| 0 <= d < m.len() && m[d] == '.' && m.len() > 1 && all_digits(#[trigger] m.take(d)) && all_digits(m.skip(d + 1))
}

/// `'e' Sign? Digit+`, where the `e` may be upper case.
pub open spec fn exponent_syntax(t: Seq<char>) -> bool {
    &&& t.len() > 0
    &&& (t[0] == 'e' || t[0] == 'E')
    &&& unsigned(t.drop_first()).len() > 0
    &&& all_digits(unsigned(t.drop_first()))
}

/// A mantissa, then an optional exponent.
pub open spec fn number_syntax(s: Seq<char>) -> bool {
    exists|k: int| 0 <= k <= s.len() && mantissa_syntax(#[trigger] s.take(k)) && (k == s.len() || exponent_syntax(s.skip(k)))
}

/// Whether `s` spells the lower-case word `w` in either case.
pub open spec fn same_letters(s: Seq<char>, w: Seq<char>) -> bool {
    &&& s.len() == w.len()
    &&& forall|i: int| 0 <= i < s.len() ==> (s[i] == w[i] || s[i] as int + 32 == w[i] as int)
}

/// The text that `f32::from_str` accepts, as its documentation gives the
/// grammar: an optional sign, then `inf`, `infinity` or `nan` in any case, or
/// a decimal number with an optional exponent.
pub open spec fn float_syntax(s: Seq<char>) -> bool {
    let u = unsigned(s);
    same_letters(u, "inf"@) || same_letters(u, "infinity"@) || same_letters(u, "nan"@) || number_syntax(u)
}

/// The characters of a string.
fn chars_of(s: &str) -> (v: Vec<char>)
    ensures
        v@ == s@,
{
    let n = s.unicode_len();
    let mut v: Vec<char> = Vec::new();
    let mut i: usize = 0;
    while i < n
        invariant
            n == s@.len(),
            i <= n,
            v@ == s@.take(i as int),
        decreases n - i,
    {
        v.push(s.get_char(i));
        assert(s@.take(i + 1) =~= s@.take(i as int).push(s@[i as int]));
        i += 1;
    }
    assert(s@.take(n as int) =~= s@);
    v
}

/// Whether the characters from `lo` to `hi` are all digits.
fn digits_between(cs: &Vec<char>, lo: usize, hi: usize) -> (r: bool)
    requires
        lo <= hi <= cs@.len(),
    ensures
        r == all_digits(cs@.subrange(lo as int, hi as int)),
{
    let mut i: usize = lo;
    while i < hi
        invariant
            lo <= i <= hi,
            hi <= cs@.len(),
            forall|j: int| lo <= j < i ==> is_digit(#[trigger] cs@[j]),
        decreases hi - i,
    {
        let c = cs[i];
        if !('0' <= c && c <= '9') {
            assert(!is_digit(cs@.subrange(lo as int, hi as int)[i - lo]));
            return false;
        }
        i += 1;
    }
    assert forall|j: int| 0 <= j < hi - lo implies is_digit(#[trigger] cs@.subrange(lo as int, hi as int)[j]) by {
        assert(cs@.subrange(lo as int, hi as int)[j] == cs@[lo + j]);
    }
    true
}

/// The first index from `lo` on, before `hi`, whose character is `a` or `b`; `hi` if none is.
fn first_of(cs: &Vec<char>, lo: usize, hi: usize, a: char, b: char) -> (k: usize)
    requires
        lo <= hi <= cs@.len(),
    ensures
        lo <= k <= hi,
        forall|j: int| lo <= j < k ==> cs@[j] != a && cs@[j] != b,
        k < hi ==> (cs@[k as int] == a || cs@[k as int] == b),
{
    let mut i: usize = lo;
    while i < hi
        invariant
            lo <= i <= hi,
            hi <= cs@.len(),
            forall|j: int| lo <= j < i ==> cs@[j] != a && cs@[j] != b,
        decreases hi - i,
    {
        if cs[i] == a || cs[i] == b {
            return i;
        }
        i += 1;
    }
    hi
}

/// Every character of a mantissa is a digit or the point.
proof fn lemma_mantissa_chars(m: Seq<char>)
    requires
        mantissa_syntax(m),
    ensures
        forall|i: int| 0 <= i < m.len() ==> is_digit(#[trigger] m[i]) || m[i] == '.',
{
    if !(m.len() > 0 && all_digits(m)) {
        let d = choose|d: int| 0 <= d < m.len() && m[d] == '.' && m.len() > 1 && all_digits(#[trigger] m.take(d)) && all_digits(m.skip(d + 1));
        assert forall|i: int| 0 <= i < m.len() implies is_digit(#[trigger] m[i]) || m[i] == '.' by {
            if i < d {
                assert(m.take(d)[i] == m[i]);
            } else if i > d {
                assert(m.skip(d + 1)[i - d - 1] == m[i]);
            }
        }
    }
}

/// Whether `m` is a mantissa, where `d` is the index of its first point, or its length.
proof fn lemma_mantissa_at(m: Seq<char>, d: int)
    requires
        0 <= d <= m.len(),
        forall|j: int| 0 <= j < d ==> m[j] != '.',
        d < m.len() ==> m[d] == '.',
    ensures
        mantissa_syntax(m) == if d == m.len() {
            m.len() > 0 && all_digits(m)
        } else {
            m.len() > 1 && all_digits(m.take(d)) && all_digits(m.skip(d + 1))
        },
{
    if d == m.len() {
        if mantissa_syntax(m) && !(m.len() > 0 && all_digits(m)) {
            let e = choose|e: int| 0 <= e < m.len() && m[e] == '.' && m.len() > 1 && all_digits(#[trigger] m.take(e)) && all_digits(m.skip(e + 1));
            assert(m[e] != '.');
        }
    } else {
        if mantissa_syntax(m) {
            if m.len() > 0 && all_digits(m) {
                assert(!is_digit(m[d]));
            } else {
                let e = choose|e: int| 0 <= e < m.len() && m[e] == '.' && m.len() > 1 && all_digits(#[trigger] m.take(e)) && all_digits(m.skip(e + 1));
                if e > d {
                    assert(m.take(e)[d] == m[d]);
                }
                assert(e == d);
            }
        }
    }
}

/// Whether the characters from `lo` on are a number.
fn number_from(cs: &Vec<char>, lo: usize) -> (r: bool)
    requires
        lo <= cs@.len(),
    ensures
        r == number_syntax(cs@.subrange(lo as int, cs@.len() as int)),
{
    let n = cs.len();
    let ghost u = cs@.subrange(lo as int, n as int);
    let k = first_of(cs, lo, n, 'e', 'E');
    let d = first_of(cs, lo, k, '.', '.');
    let ghost m = u.take(k - lo);
    proof {
        assert forall|j: int| 0 <= j < d - lo implies m[j] != '.' by {
            assert(m[j] == cs@[lo + j]);
        }
        if d < k {
            assert(m[d - lo] == cs@[d as int]);
        }
        lemma_mantissa_at(m, d - lo);
        assert(m.take(d - lo) =~= cs@.subrange(lo as int, d as int));
        if d < k {
            assert(m.skip(d - lo + 1) =~= cs@.subrange(d + 1, k as int));
        }
        assert(m =~= cs@.subrange(lo as int, k as int));
    }
    let mant = if d == k {
        k > lo && digits_between(cs, lo, k)
    } else {
        k - lo > 1 && digits_between(cs, lo, d) && digits_between(cs, d + 1, k)
    };
    let exp = if k == n {
        true
    } else {
        let s = if k + 1 < n && (cs[k + 1] == '+' || cs[k + 1] == '-') { k + 2 } else { k + 1 };
        proof {
            let t = u.skip(k - lo);
            assert(t[0] == cs@[k as int]);
            assert(unsigned(t.drop_first()) =~= cs@.subrange(s as int, n as int));
        }
        s < n && digits_between(cs, s, n)
    };
    proof {
        assert(mant == mantissa_syntax(m));
        if mant && exp {
            assert(mantissa_syntax(u.take(k - lo)));
        }
        if number_syntax(u) {
            let k2 = choose|k2: int| 0 <= k2 <= u.len() && mantissa_syntax(#[trigger] u.take(k2)) && (k2 == u.len() || exponent_syntax(u.skip(k2)));
            lemma_mantissa_chars(u.take(k2));
            if k2 > k - lo {
                assert(u.take(k2)[k - lo] == cs@[k as int]);
            }
            if k2 < k - lo {
                assert(u.skip(k2)[0] == cs@[lo + k2]);
            }
            assert(k2 == k - lo);
        }
    }
    mant && exp
}

/// Whether the characters from `lo` on spell the lower-case word `w` in either case.
fn letters_from(cs: &Vec<char>, lo: usize, w: &str) -> (r: bool)
    requires
        lo <= cs@.len(),
        forall|i: int| 0 <= i < w@.len() ==> 'a' <= #[trigger] w@[i] && w@[i] <= 'z',
    ensures
        r == same_letters(cs@.subrange(lo as int, cs@.len() as int), w@),
{
    let n = cs.len();
    let m = w.unicode_len();
    if n - lo != m {
        return false;
    }
    let ghost u = cs@.subrange(lo as int, n as int);
    let mut i: usize = 0;
    while i < m
        invariant
            m == w@.len(),
            n == cs@.len(),
            n - lo == m,
            lo <= n,
            u == cs@.subrange(lo as int, n as int),
            i <= m,
            forall|j: int| 0 <= j < w@.len() ==> 'a' <= #[trigger] w@[j] && w@[j] <= 'z',
            forall|j: int| 0 <= j < i ==> (u[j] == w@[j] || u[j] as int + 32 == w@[j] as int),
        decreases m - i,
    {
        let c = cs[lo + i];
        let l = w.get_char(i);
        assert(u[i as int] == c);
        let upper = 'A' <= c && c <= 'Z' && (c as u32) + 32 == (l as u32);
        if !(c == l || upper) {
            assert(!(u[i as int] as int + 32 == w@[i as int] as int));
            return false;
        }
        assert(u[i as int] == w@[i as int] || u[i as int] as int + 32 == w@[i as int] as int);
        i += 1;
    }
    true
}

/// Whether `f32::from_str` accepts the text (see `float_syntax`).
pub fn is_float_text(s: &str) -> (r: bool)
    ensures
        r == float_syntax(s@),
{
    let cs = chars_of(s);
    let n = cs.len();
    let lo: usize = if n > 0 && (cs[0] == '+' || cs[0] == '-') { 1 } else { 0 };
    proof {
        assert(unsigned(s@) =~= cs@.subrange(lo as int, n as int));
        reveal_strlit("inf");
        reveal_strlit("infinity");
        reveal_strlit("nan");
    }
    letters_from(&cs, lo, "inf") || letters_from(&cs, lo, "infinity") || letters_from(&cs, lo, "nan")
        || number_from(&cs, lo)
}
} // verus!
