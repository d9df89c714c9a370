//! Text building blocks shared by every formatter of the library: decimal
//! rendering of integers and fixed-point values, joining, and the character
//! classes (`char::is_whitespace`, ASCII lower-casing) that the filters use.

use vstd::prelude::*;

verus! {

/// The character of one decimal digit.
pub open spec fn digit_char(d: nat) -> char {
    (48 + d) as char
}

/// Decimal rendering of a natural number, most significant digit first.
pub open spec fn nat_text(n: nat) -> Seq<char>
    decreases n,
{
    if n < 10 {
        seq![digit_char(n)]
    } else {
        nat_text(n / 10).push(digit_char(n % 10))
    }
}

/// Decimal rendering of an integer, as `Display` writes it.
pub open spec fn int_text(i: int) -> Seq<char> {
    if i < 0 {
        seq!['-'] + nat_text((-i) as nat)
    } else {
        nat_text(i as nat)
    }
}

pub open spec fn pow10(p: nat) -> nat
    decreases p,
{
    if p == 0 {
        1
    } else {
        10 * pow10((p - 1) as nat)
    }
}

/// `n` in decimal, left-padded with zeros to at least `width` characters.
pub open spec fn padded_text(n: nat, width: nat) -> Seq<char> {
    let t = nat_text(n);
    if t.len() < width {
        Seq::new((width - t.len()) as nat, |i: int| '0') + t
    } else {
        t
    }
}

/// A fixed-point value `v / 10^places` written with exactly `places`
/// fractional digits (the text of `{:.places$}` for that exact value).
pub open spec fn fixed_text(v: int, places: nat) -> Seq<char> {
    let a: nat = if v < 0 { (-v) as nat } else { v as nat };
    let sign: Seq<char> = if v < 0 { seq!['-'] } else { seq![] };
    if places == 0 {
        sign + nat_text(a)
    } else {
        sign + nat_text(a / pow10(places)) + seq!['.'] + padded_text(a % pow10(places), places)
    }
}

/// The parts joined by `sep`, as `[String]::join` does.
pub open spec fn join_seq(parts: Seq<Seq<char>>, sep: Seq<char>) -> Seq<char>
    decreases parts.len(),
{
    if parts.len() == 0 {
        seq![]
    } else if parts.len() == 1 {
        parts[0]
    } else {
        join_seq(parts.drop_last(), sep) + sep + parts.last()
    }
}

/// The views of a vector of strings.
pub open spec fn views(v: Seq<String>) -> Seq<Seq<char>> {
    v.map_values(|s: String| s@)
}

pub proof fn lemma_views_push(s: Seq<String>, x: String)
    ensures
        views(s.push(x)) == views(s).push(x@),
{
    assert(views(s.push(x)) =~= views(s).push(x@));
}

/// `char::is_whitespace`: the Unicode `White_Space` property.
pub open spec fn is_space(c: char) -> bool {
    let u = c as u32;
    (0x9 <= u <= 0xD) || u == 0x20 || u == 0x85 || u == 0xA0 || u == 0x1680 || (0x2000 <= u
        <= 0x200A) || u == 0x2028 || u == 0x2029 || u == 0x202F || u == 0x205F || u == 0x3000
}

/// `str::trim().is_empty()`: the text holds nothing but whitespace.
pub open spec fn is_blank(s: Seq<char>) -> bool {
    forall|i: int| 0 <= i < s.len() ==> is_space(#[trigger] s[i])
}

/// `char::to_ascii_lowercase`.
pub open spec fn lower_char(c: char) -> char {
    if 'A' <= c <= 'Z' {
        ((c as u32) + 32) as char
    } else {
        c
    }
}

/// `str::to_ascii_lowercase`.
pub open spec fn lower_seq(s: Seq<char>) -> Seq<char> {
    s.map_values(|c: char| lower_char(c))
}

/// `needle` occurs in `hay` at some position (`str::contains`).
pub open spec fn contains_seq(hay: Seq<char>, needle: Seq<char>) -> bool {
    exists|i: int|
        0 <= i && i + needle.len() <= hay.len() && #[trigger] hay.subrange(i, i + needle.len())
            == needle
}

/// `String::push`: appends one character.
#[verifier::external_body]
pub(crate) fn push_char(s: &mut String, c: char)
    ensures
        final(s)@ == old(s)@.push(c),
{
    s.push(c);
}

/// An owned copy of a string slice.
pub fn owned(s: &str) -> (r: String)
    ensures
        r@ == s@,
{
    String::from_str(s)
}

/// The string `a` followed by `b`.
pub fn concat2(a: &str, b: &str) -> (r: String)
    ensures
        r@ == a@ + b@,
{
    let mut r = String::from_str(a);
    r.append(b);
    r
}

fn digit(d: u64) -> (c: char)
    requires
        d < 10,
    ensures
        c == digit_char(d as nat),
{
    let b: u8 = 48 + (d as u8);
    b as char
}

pub proof fn lemma_nat_text_len(n: nat)
    ensures
        nat_text(n).len() >= 1,
    decreases n,
{
    if n >= 10 {
        lemma_nat_text_len(n / 10);
    }
}

/// Decimal text of an unsigned integer.
pub fn u64_text(n: u64) -> (r: String)
    ensures
        r@ == nat_text(n as nat),
{
    let mut digits: Vec<char> = Vec::new();
    let mut rest: u64 = n;
    let ghost mut suffix: Seq<char> = seq![];
    while rest >= 10
        invariant
            nat_text(n as nat) == nat_text(rest as nat) + suffix,
            digits@.len() == suffix.len(),
            forall|i: int| 0 <= i < suffix.len() ==> #[trigger] suffix[i] == digits@[digits@.len() - 1 - i],
        decreases rest,
    {
        let d = digit(rest % 10);
        proof {
            let s2 = seq![d] + suffix;
            assert(nat_text(rest as nat) == nat_text((rest / 10) as nat).push(d));
            assert(nat_text(rest as nat) + suffix == nat_text((rest / 10) as nat) + s2);
            suffix = s2;
        }
        digits.push(d);
        rest = rest / 10;
    }
    let d = digit(rest);
    proof {
        suffix = seq![d] + suffix;
    }
    digits.push(d);
    assert(nat_text(n as nat) == suffix);
    let mut r = String::new();
    let len = digits.len();
    let mut k: usize = len;
    while k > 0
        invariant
            k <= len,
            len == digits@.len(),
            len == suffix.len(),
            forall|i: int| 0 <= i < suffix.len() ==> #[trigger] suffix[i] == digits@[len - 1 - i],
            r@ == suffix.subrange(0, (len - k) as int),
        decreases k,
    {
        k = k - 1;
        push_char(&mut r, digits[k]);
        assert(suffix.subrange(0, (len - k) as int) == suffix.subrange(0, (len - k - 1) as int).push(
            suffix[(len - k - 1) as int],
        ));
    }
    assert(suffix.subrange(0, len as int) == suffix);
    r
}

/// Decimal text of a signed integer, with a leading `-` for negatives.
pub fn i64_text(i: i64) -> (r: String)
    ensures
        r@ == int_text(i as int),
{
    if i < 0 {
        let a: u64 = (0 - (i as i128)) as u64;
        let t = u64_text(a);
        let mut r = String::from_str("-");
        proof {
            reveal_strlit("-");
        }
        r.append(t.as_str());
        r
    } else {
        u64_text(i as u64)
    }
}

/// Decimal text of a 32-bit signed integer.
pub fn i32_text(i: i32) -> (r: String)
    ensures
        r@ == int_text(i as int),
{
    i64_text(i as i64)
}

/// Decimal text of a `usize`.
pub fn usize_text(n: usize) -> (r: String)
    ensures
        r@ == nat_text(n as nat),
{
    u64_text(n as u64)
}

fn pow10_exec(p: u32) -> (r: u64)
    requires
        p <= 19,
    ensures
        r == pow10(p as nat),
        r >= 1,
{
    proof {
        lemma_pow10_monotone(0, p as nat);
    }
    let mut r: u64 = 1;
    let mut k: u32 = 0;
    while k < p
        invariant
            k <= p <= 19,
            r == pow10(k as nat),
            r <= 10_000_000_000_000_000_000u64,
        decreases p - k,
    {
        assert(pow10((k + 1) as nat) == 10 * pow10(k as nat));
        proof {
            lemma_pow10_bound(k as nat);
        }
        r = r * 10;
        k = k + 1;
    }
    r
}

proof fn lemma_pow10_monotone(a: nat, b: nat)
    requires
        a <= b,
    ensures
        1 <= pow10(a) <= pow10(b),
    decreases b,
{
    if b > a {
        lemma_pow10_monotone(a, (b - 1) as nat);
    } else if a > 0 {
        lemma_pow10_monotone((a - 1) as nat, (a - 1) as nat);
    }
}

proof fn lemma_pow10_bound(k: nat)
    requires
        k < 19,
    ensures
        1 <= pow10(k) <= 1_000_000_000_000_000_000,
{
    reveal_with_fuel(pow10, 19);
    assert(pow10(18) == 1_000_000_000_000_000_000);
    lemma_pow10_monotone(k, 18);
}

/// Decimal text of `n`, left-padded with zeros to `width` characters.
pub fn padded_u64_text(n: u64, width: usize) -> (r: String)
    ensures
        r@ == padded_text(n as nat, width as nat),
{
    let t = u64_text(n);
    let len = t.as_str().unicode_len();
    if len < width {
        let mut r = String::new();
        let mut k: usize = 0;
        while k < width - len
            invariant
                k <= width - len,
                r@ == Seq::new(k as nat, |i: int| '0'),
            decreases width - len - k,
        {
            push_char(&mut r, '0');
            k = k + 1;
            assert(r@ == Seq::new(k as nat, |i: int| '0'));
        }
        r.append(t.as_str());
        r
    } else {
        t
    }
}

/// `v / 10^places` written with exactly `places` fractional digits.
pub fn fixed_text_exec(v: i64, places: u32) -> (r: String)
    requires
        places <= 18,
    ensures
        r@ == fixed_text(v as int, places as nat),
{
    let a: u64 = if v < 0 {
        (0 - (v as i128)) as u64
    } else {
        v as u64
    };
    let mut r = if v < 0 {
        proof {
            reveal_strlit("-");
        }
        String::from_str("-")
    } else {
        String::new()
    };
    if places == 0 {
        let t = u64_text(a);
        r.append(t.as_str());
        return r;
    }
    let p = pow10_exec(places);
    let whole = u64_text(a / p);
    r.append(whole.as_str());
    push_char(&mut r, '.');
    let frac = padded_u64_text(a % p, places as usize);
    r.append(frac.as_str());
    r
}

/// The parts joined by `sep`.
pub fn join(parts: &Vec<String>, sep: &str) -> (r: String)
    ensures
        r@ == join_seq(views(parts@), sep@),
{
    let mut r = String::new();
    let ghost vs = views(parts@);
    let mut i: usize = 0;
    while i < parts.len()
        invariant
            i <= parts@.len(),
            vs == views(parts@),
            vs.len() == parts@.len(),
            r@ == join_seq(vs.take(i as int), sep@),
        decreases parts@.len() - i,
    {
        assert(vs.take((i + 1) as int).drop_last() == vs.take(i as int));
        assert(vs[i as int] == parts@[i as int]@);
        if i != 0 {
            r.append(sep);
        }
        r.append(parts[i].as_str());
        i = i + 1;
    }
    assert(vs.take(parts@.len() as int) == vs);
    r
}

/// `true` when `c` is whitespace (`char::is_whitespace`).
pub fn space_char(c: char) -> (b: bool)
    ensures
        b == is_space(c),
{
    let u = c as u32;
    (0x9 <= u && u <= 0xD) || u == 0x20 || u == 0x85 || u == 0xA0 || u == 0x1680 || (0x2000 <= u
        && u <= 0x200A) || u == 0x2028 || u == 0x2029 || u == 0x202F || u == 0x205F || u == 0x3000
}

/// `s.trim().is_empty()`.
pub fn blank(s: &str) -> (b: bool)
    ensures
        b == is_blank(s@),
{
    let mut all = true;
    for c in iter: s.chars()
        invariant
            iter.seq() == s@,
            all == (forall|i: int| 0 <= i < iter.index() ==> is_space(#[trigger] s@[i])),
    {
        if !space_char(c) {
            all = false;
        }
    }
    all
}

/// The characters of `s`, ASCII letters lowered.
pub fn lower_chars(s: &str) -> (r: Vec<char>)
    ensures
        r@ == lower_seq(s@),
{
    let mut r: Vec<char> = Vec::new();
    for c in iter: s.chars()
        invariant
            iter.seq() == s@,
            r@ == lower_seq(s@.take(iter.index() as int)),
    {
        let l = if 'A' <= c && c <= 'Z' {
            let b: u8 = ((c as u32) + 32) as u8;
            b as char
        } else {
            c
        };
        r.push(l);
        assert(lower_seq(s@.take(iter.index() + 1)) == lower_seq(s@.take(iter.index() as int)).push(
            lower_char(c),
        ));
    }
    assert(s@.take(s@.len() as int) == s@);
    r
}


/// The string of the characters.
pub fn string_of(v: &Vec<char>) -> (r: String)
    ensures
        r@ == v@,
{
    let mut s = String::new();
    let mut k: usize = 0;
    while k < v.len()
        invariant
            k <= v@.len(),
            s@ == v@.take(k as int),
        decreases v@.len() - k,
    {
        push_char(&mut s, v[k]);
        assert(s@ =~= v@.take(k + 1));
        k = k + 1;
    }
    assert(v@.take(v@.len() as int) =~= v@);
    s
}

/// The characters of a string.
pub fn chars_of(s: &str) -> (r: Vec<char>)
    ensures
        r@ == s@,
{
    let mut r: Vec<char> = Vec::new();
    for c in iter: s.chars()
        invariant
            iter.seq() == s@,
            r@ == s@.take(iter.index() as int),
    {
        r.push(c);
        assert(s@.take(iter.index() + 1) == s@.take(iter.index() as int).push(c));
    }
    assert(s@.take(s@.len() as int) == s@);
    r
}

/// Whether `needle` occurs in `hay` (`str::contains`).
pub fn contains_chars(hay: &Vec<char>, needle: &Vec<char>) -> (r: bool)
    ensures
        r == contains_seq(hay@, needle@),
{
    if needle.len() > hay.len() {
        return false;
    }
    if needle.len() == 0 {
        assert(contains_seq(hay@, needle@)) by {
            assert(hay@.subrange(0int, 0int + needle@.len()) =~= needle@);
        }
        return true;
    }
    let n = needle.len();
    let last = hay.len() - n;
    let mut i: usize = 0;
    while i <= last
        invariant
            n == needle@.len(),
            n >= 1,
            last + n == hay@.len(),
            hay@.len() <= usize::MAX,
            forall|j: int| 0 <= j < i ==> #[trigger] hay@.subrange(j, j + n) != needle@,
        decreases last + 1 - i,
    {
        let mut k: usize = 0;
        let mut same = true;
        while k < n
            invariant
                i <= last,
                n == needle@.len(),
                last + n == hay@.len(),
                hay@.len() <= usize::MAX,
                k <= n,
                same == (forall|m: int| 0 <= m < k ==> hay@[i + m] == needle@[m]),
            decreases n - k,
        {
            if hay[i + k] != needle[k] {
                same = false;
            }
            k = k + 1;
        }
        if same {
            assert(hay@.subrange(i as int, i + n) =~= needle@);
            return true;
        }
        assert(hay@.subrange(i as int, i + n) != needle@) by {
            let m = choose|m: int| 0 <= m < n && hay@[i + m] != needle@[m];
            assert(hay@.subrange(i as int, i + n)[m] == hay@[i + m]);
        }
        i = i + 1;
    }
    assert(!contains_seq(hay@, needle@)) by {
        if contains_seq(hay@, needle@) {
            let j = choose|j: int|
                0 <= j && j + needle@.len() <= hay@.len() && #[trigger] hay@.subrange(j, j + needle@.len())
                    == needle@;
            assert(j < i);
        }
    }
    false
}


/// Whether two strings hold the same characters (`str` equality).
pub fn str_eq(a: &str, b: &str) -> (r: bool)
    ensures
        r == (a@ == b@),
{
    let x = chars_of(a);
    let y = chars_of(b);
    if x.len() != y.len() {
        return false;
    }
    let mut i: usize = 0;
    while i < x.len()
        invariant
            x@ == a@,
            y@ == b@,
            x@.len() == y@.len(),
            i <= x@.len(),
            forall|k: int| 0 <= k < i ==> x@[k] == y@[k],
        decreases x@.len() - i,
    {
        if x[i] != y[i] {
            return false;
        }
        i = i + 1;
    }
    assert(x@ =~= y@);
    true
}

/// The text without its leading whitespace (`str::trim_start`).
pub open spec fn trim_start_seq(s: Seq<char>) -> Seq<char>
    decreases s.len(),
{
    if s.len() > 0 && is_space(s[0]) {
        trim_start_seq(s.drop_first())
    } else {
        s
    }
}

/// The text without its trailing whitespace (`str::trim_end`).
pub open spec fn trim_end_seq(s: Seq<char>) -> Seq<char>
    decreases s.len(),
{
    if s.len() > 0 && is_space(s.last()) {
        trim_end_seq(s.drop_last())
    } else {
        s
    }
}

/// The text without leading and trailing whitespace (`str::trim`).
pub open spec fn trim_seq(s: Seq<char>) -> Seq<char> {
    trim_end_seq(trim_start_seq(s))
}

/// `s.trim().to_string()`.
pub fn trimmed(s: &str) -> (r: String)
    ensures
        r@ == trim_seq(s@),
{
    let v = chars_of(s);
    let n = v.len();
    let mut i: usize = 0;
    assert(s@.skip(0) == s@);
    while i < n && space_char(v[i])
        invariant
            v@ == s@,
            n == v@.len(),
            i <= n,
            trim_start_seq(s@) == trim_start_seq(s@.skip(i as int)),
        decreases n - i,
    {
        assert(s@.skip(i as int).drop_first() == s@.skip(i + 1));
        i = i + 1;
    }
    assert(trim_start_seq(s@.skip(i as int)) == s@.skip(i as int));
    let mut j: usize = n;
    assert(s@.skip(i as int) == s@.subrange(i as int, j as int));
    while j > i && space_char(v[j - 1])
        invariant
            v@ == s@,
            n == v@.len(),
            i <= j <= n,
            trim_end_seq(s@.skip(i as int)) == trim_end_seq(s@.subrange(i as int, j as int)),
        decreases j,
    {
        assert(s@.subrange(i as int, j as int).drop_last() == s@.subrange(i as int, j - 1));
        j = j - 1;
    }
    assert(trim_end_seq(s@.subrange(i as int, j as int)) == s@.subrange(i as int, j as int));
    let mut r = String::new();
    let mut k: usize = i;
    while k < j
        invariant
            v@ == s@,
            n == v@.len(),
            i <= k <= j <= n,
            r@ == s@.subrange(i as int, k as int),
        decreases j - k,
    {
        push_char(&mut r, v[k]);
        assert(s@.subrange(i as int, k + 1) == s@.subrange(i as int, k as int).push(v@[k as int]));
        k = k + 1;
    }
    r
}


/// `a` sorts before `b`: the order of `str`, which compares UTF-8 bytes and
/// so orders by the characters' code points, a proper prefix first.
pub open spec fn text_less(a: Seq<char>, b: Seq<char>) -> bool
    decreases a.len(),
{
    if a.len() == 0 {
        b.len() > 0
    } else if b.len() == 0 {
        false
    } else if a[0] != b[0] {
        (a[0] as int) < (b[0] as int)
    } else {
        text_less(a.drop_first(), b.drop_first())
    }
}

/// Whether `a` sorts before `b`.
pub fn text_lt(a: &str, b: &str) -> (r: bool)
    ensures
        r == text_less(a@, b@),
{
    let x = chars_of(a);
    let y = chars_of(b);
    let mut i: usize = 0;
    assert(x@.skip(0) == x@);
    assert(y@.skip(0) == y@);
    while i < x.len() && i < y.len() && x[i] == y[i]
        invariant
            x@ == a@,
            y@ == b@,
            i <= x@.len(),
            i <= y@.len(),
            text_less(a@, b@) == text_less(x@.skip(i as int), y@.skip(i as int)),
        decreases x@.len() - i,
    {
        assert(x@.skip(i as int).drop_first() == x@.skip(i + 1));
        assert(y@.skip(i as int).drop_first() == y@.skip(i + 1));
        i = i + 1;
    }
    if i == x.len() {
        i < y.len()
    } else if i == y.len() {
        false
    } else {
        x[i] < y[i]
    }
}


/// `c` is an ASCII decimal digit.
pub open spec fn is_digit(c: char) -> bool {
    '0' <= c <= '9'
}

pub open spec fn all_digits(s: Seq<char>) -> bool {
    forall|i: int| 0 <= i < s.len() ==> is_digit(#[trigger] s[i])
}

/// The number that a run of decimal digits writes.
pub open spec fn digits_value(s: Seq<char>) -> int
    decreases s.len(),
{
    if s.len() == 0 {
        0
    } else {
        digits_value(s.drop_last()) * 10 + (s.last() as int - '0' as int)
    }
}

/// The text after an optional leading sign.
pub open spec fn digits_part(s: Seq<char>) -> Seq<char> {
    if s.len() > 0 && (s[0] == '-' || s[0] == '+') {
        s.drop_first()
    } else {
        s
    }
}

/// What `str::parse::<i64>` reads: an optional `+` or `-`, then at least one
/// decimal digit and nothing else, of a value that fits in `i64`.
pub open spec fn decimal_i64(s: Seq<char>) -> Option<int> {
    let neg = s.len() > 0 && s[0] == '-';
    let body = digits_part(s);
    let v = if neg {
        -digits_value(body)
    } else {
        digits_value(body)
    };
    if body.len() == 0 || !all_digits(body) || v < i64::MIN || v > i64::MAX {
        None
    } else {
        Some(v)
    }
}

proof fn lemma_digits_nonneg(s: Seq<char>)
    requires
        all_digits(s),
    ensures
        digits_value(s) >= 0,
    decreases s.len(),
{
    if s.len() > 0 {
        lemma_digits_nonneg(s.drop_last());
    }
}

proof fn lemma_digits_grow(s: Seq<char>, k: int)
    requires
        all_digits(s),
        0 <= k <= s.len(),
    ensures
        digits_value(s.take(k)) <= digits_value(s),
    decreases s.len() - k,
{
    if k < s.len() {
        lemma_digits_grow(s, k + 1);
        assert(s.take(k + 1).drop_last() =~= s.take(k));
        lemma_digits_nonneg(s.take(k));
    } else {
        assert(s.take(k) =~= s);
    }
}

/// `str::parse::<i64>`.
pub fn parse_i64(s: &str) -> (r: Option<i64>)
    ensures
        r matches Some(v) ==> decimal_i64(s@) == Some(v as int),
        r is None ==> decimal_i64(s@) is None,
{
    let c = chars_of(s);
    let neg = c.len() > 0 && c[0] == '-';
    let start: usize = if c.len() > 0 && (c[0] == '-' || c[0] == '+') {
        1
    } else {
        0
    };
    let ghost body = digits_part(s@);
    assert(body =~= c@.skip(start as int));
    if start == c.len() {
        return None;
    }
    let mut mag: u64 = 0;
    let mut i: usize = start;
    while i < c.len()
        invariant
            c@ == s@,
            start <= i <= c@.len(),
            body == digits_part(s@),
            neg == (s@.len() > 0 && s@[0] == '-'),
            body =~= c@.skip(start as int),
            all_digits(body.take(i - start)),
            mag == digits_value(body.take(i - start)),
        decreases c@.len() - i,
    {
        let ch = c[i];
        assert(body[i - start] == ch);
        if !('0' <= ch && ch <= '9') {
            assert(!is_digit(body[i - start]));
            assert(!all_digits(body));
            assert(decimal_i64(s@) is None);
            return None;
        }
        let d: u64 = ((ch as u32) - ('0' as u32)) as u64;
        assert(body.take(i - start + 1).drop_last() =~= body.take(i - start));
        assert(body.take(i - start + 1).last() == ch);
        assert(all_digits(body.take(i - start + 1)));
        assert(digits_value(body.take(i - start + 1)) == mag * 10 + d);
        let next = match mag.checked_mul(10) {
            Some(m) => m.checked_add(d),
            None => None,
        };
        match next {
            Some(n) => {
                mag = n;
            },
            None => {
                proof {
                    assert(mag * 10 + d > u64::MAX);
                    if all_digits(body) {
                        lemma_digits_grow(body, i - start + 1);
                    }
                    assert(decimal_i64(s@) is None);
                }
                return None;
            },
        }
        i = i + 1;
    }
    assert(body.take(i - start) =~= body);
    if neg {
        if mag <= 9223372036854775807 {
            Some(0 - (mag as i64))
        } else if mag == 9223372036854775808 {
            Some(i64::MIN)
        } else {
            None
        }
    } else {
        if mag <= 9223372036854775807 {
            Some(mag as i64)
        } else {
            None
        }
    }
}

/// Whether two character vectors are equal.
pub fn chars_equal(a: &Vec<char>, b: &Vec<char>) -> (r: bool)
    ensures
        r == (a@ == b@),
{
    if a.len() != b.len() {
        return false;
    }
    let mut i: usize = 0;
    while i < a.len()
        invariant
            a@.len() == b@.len(),
            i <= a@.len(),
            forall|k: int| 0 <= k < i ==> a@[k] == b@[k],
        decreases a@.len() - i,
    {
        if a[i] != b[i] {
            return false;
        }
        i = i + 1;
    }
    assert(a@ =~= b@);
    true
}

/// `hay` ends with `suffix` (`str::ends_with`).
pub open spec fn ends_with_seq(hay: Seq<char>, suffix: Seq<char>) -> bool {
    suffix.len() <= hay.len() && hay.subrange(hay.len() - suffix.len(), hay.len() as int) == suffix
}

pub fn ends_with_chars(hay: &Vec<char>, suffix: &Vec<char>) -> (r: bool)
    ensures
        r == ends_with_seq(hay@, suffix@),
{
    if suffix.len() > hay.len() {
        return false;
    }
    let off = hay.len() - suffix.len();
    let mut i: usize = 0;
    while i < suffix.len()
        invariant
            off + suffix@.len() == hay@.len(),
            hay@.len() <= usize::MAX,
            i <= suffix@.len(),
            forall|k: int| 0 <= k < i ==> hay@[off + k] == suffix@[k],
        decreases suffix@.len() - i,
    {
        if hay[off + i] != suffix[i] {
            assert(hay@.subrange(off as int, hay@.len() as int)[i as int] != suffix@[i as int]);
            return false;
        }
        i = i + 1;
    }
    assert(hay@.subrange(off as int, hay@.len() as int) =~= suffix@);
    true
}


/// No text sorts before itself.
pub proof fn lemma_text_less_irreflexive(a: Seq<char>)
    ensures
        !text_less(a, a),
    decreases a.len(),
{
    if a.len() > 0 {
        lemma_text_less_irreflexive(a.drop_first());
    }
}

/// Text order is asymmetric.
pub proof fn lemma_text_less_asymmetric(a: Seq<char>, b: Seq<char>)
    ensures
        text_less(a, b) ==> !text_less(b, a),
    decreases a.len(),
{
    if a.len() > 0 && b.len() > 0 && a[0] == b[0] {
        lemma_text_less_asymmetric(a.drop_first(), b.drop_first());
    }
}

/// Text order is transitive.
pub proof fn lemma_text_less_transitive(a: Seq<char>, b: Seq<char>, c: Seq<char>)
    requires
        text_less(a, b),
        text_less(b, c),
    ensures
        text_less(a, c),
    decreases a.len(),
{
    if a.len() > 0 && b.len() > 0 && c.len() > 0 && a[0] == b[0] && b[0] == c[0] {
        lemma_text_less_transitive(a.drop_first(), b.drop_first(), c.drop_first());
    }
}

/// Two different texts are ordered one way or the other.
pub proof fn lemma_text_less_total(a: Seq<char>, b: Seq<char>)
    ensures
        a == b || text_less(a, b) || text_less(b, a),
    decreases a.len(),
{
    if a.len() > 0 && b.len() > 0 && a[0] == b[0] {
        lemma_text_less_total(a.drop_first(), b.drop_first());
        if a.drop_first() == b.drop_first() {
            assert(a =~= seq![a[0]] + a.drop_first());
            assert(b =~= seq![b[0]] + b.drop_first());
        }
    } else if a.len() == 0 && b.len() == 0 {
        assert(a =~= b);
    }
}

/// Texts in strictly increasing order.
pub open spec fn sorted_texts(s: Seq<Seq<char>>) -> bool {
    forall|a: int, b: int| 0 <= a < b < s.len() ==> text_less(s[a], s[b])
}

/// Adds a text to a strictly ordered list where it sorts, unless it is
/// already there.
pub fn insert_sorted_text(names: &mut Vec<String>, name: &String)
    requires
        sorted_texts(views(old(names)@)),
    ensures
        sorted_texts(views(final(names)@)),
        forall|x: Seq<char>|
            #[trigger] views(final(names)@).contains(x) <==> (views(old(names)@).contains(x) || x
                == name@),
{
    let ghost v = views(names@);
    let mut q: usize = 0;
    while q < names.len() && text_lt(names[q].as_str(), name.as_str())
        invariant
            names@ == old(names)@,
            v == views(names@),
            q <= names@.len(),
            forall|y: int| 0 <= y < q ==> text_less(#[trigger] v[y], name@),
        decreases names@.len() - q,
    {
        q = q + 1;
    }
    if q < names.len() && str_eq(names[q].as_str(), name.as_str()) {
        assert(v[q as int] == name@);
        return;
    }
    proof {
        if q < v.len() {
            lemma_text_less_total(v[q as int], name@);
        }
    }
    let ghost before = names@;
    names.insert(q, name.clone());
    proof {
        let nv = views(names@);
        assert(names@ == before.insert(q as int, *name));
        assert(nv =~= v.insert(q as int, name@));
        assert forall|a: int, b: int| 0 <= a < b < nv.len() implies text_less(nv[a], nv[b]) by {
            if b < q {
                assert(nv[a] == v[a]);
                assert(nv[b] == v[b]);
            } else if b == q {
                assert(nv[a] == v[a]);
            } else if a < q {
                assert(nv[a] == v[a]);
                assert(nv[b] == v[b - 1]);
                if b - 1 > q {
                    lemma_text_less_transitive(name@, v[q as int], v[b - 1]);
                }
                lemma_text_less_transitive(v[a], name@, v[b - 1]);
            } else if a == q {
                assert(nv[b] == v[b - 1]);
                if b - 1 > q {
                    lemma_text_less_transitive(name@, v[q as int], v[b - 1]);
                }
            } else {
                assert(nv[a] == v[a - 1]);
                assert(nv[b] == v[b - 1]);
            }
        }
        assert forall|x: Seq<char>| #[trigger] nv.contains(x) <==> (v.contains(x) || x == name@) by {
            if nv.contains(x) {
                let y = choose|y: int| 0 <= y < nv.len() && nv[y] == x;
                if y < q {
                    assert(v[y] == x);
                } else if y > q {
                    assert(v[y - 1] == x);
                }
            }
            if v.contains(x) {
                let y = choose|y: int| 0 <= y < v.len() && v[y] == x;
                if y < q {
                    assert(nv[y] == x);
                } else {
                    assert(nv[y + 1] == x);
                }
            }
            if x == name@ {
                assert(nv[q as int] == x);
            }
        }
    }
}

}
