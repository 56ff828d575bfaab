use vstd::prelude::*;
use vstd::string::*;

verus! {

/// `String::push`: appends one character.
#[verifier::external_body]
pub(crate) fn push_char(s: &mut String, c: char)
    ensures
        final(s)@ == old(s)@.push(c),
{
    s.push(c)
}

/// The characters of a string slice, in order.
pub fn chars_of(s: &str) -> (v: Vec<char>)
    ensures
        v@ == s@,
{
    let mut v: Vec<char> = Vec::new();
    for c in it: s.chars()
        invariant
            v@ == it.seq().take(it.index() as int),
            it.seq() == s@,
    {
        v.push(c);
    }
    v
}

/// A `String` made of the given characters.
pub fn string_of(v: &Vec<char>) -> (s: String)
    ensures
        s@ == v@,
{
    let mut s = String::new();
    for i in 0..v.len()
        invariant
            s@ == v@.take(i as int),
    {
        push_char(&mut s, v[i]);
        assert(v@.take(i + 1) == v@.take(i as int).push(v@[i as int]));
    }
    assert(v@.take(v.len() as int) == v@);
    s
}


/// Unicode `White_Space`, the set that `char::is_whitespace` and `str::trim` use.
pub open spec fn is_unicode_whitespace(c: char) -> bool {
    ||| '\u{9}' <= c <= '\u{d}'
    ||| c == ' '
    ||| c == '\u{85}'
    ||| c == '\u{a0}'
    ||| c == '\u{1680}'
    ||| '\u{2000}' <= c <= '\u{200a}'
    ||| c == '\u{2028}'
    ||| c == '\u{2029}'
    ||| c == '\u{202f}'
    ||| c == '\u{205f}'
    ||| c == '\u{3000}'
}

pub fn is_whitespace(c: char) -> (r: bool)
    ensures
        r == is_unicode_whitespace(c),
{
    ('\u{9}' <= c && c <= '\u{d}') || c == ' ' || c == '\u{85}' || c == '\u{a0}' || c == '\u{1680}'
        || ('\u{2000}' <= c && c <= '\u{200a}') || c == '\u{2028}' || c == '\u{2029}'
        || c == '\u{202f}' || c == '\u{205f}' || c == '\u{3000}'
}

/// `s` without its leading whitespace.
pub open spec fn trim_start(s: Seq<char>) -> Seq<char>
    decreases s.len(),
{
    if s.len() > 0 && is_unicode_whitespace(s[0]) {
        trim_start(s.drop_first())
    } else {
        s
    }
}

/// `s` without its trailing whitespace.
pub open spec fn trim_end(s: Seq<char>) -> Seq<char>
    decreases s.len(),
{
    if s.len() > 0 && is_unicode_whitespace(s.last()) {
        trim_end(s.drop_last())
    } else {
        s
    }
}

/// `s` without leading and trailing whitespace, as `str::trim` gives it.
pub open spec fn trim(s: Seq<char>) -> Seq<char> {
    trim_end(trim_start(s))
}

proof fn lemma_trim_start_skip(s: Seq<char>, i: int)
    requires
        0 <= i <= s.len(),
        forall|k: int| 0 <= k < i ==> is_unicode_whitespace(#[trigger] s[k]),
    ensures
        trim_start(s) == trim_start(s.subrange(i, s.len() as int)),
    decreases i,
{
    if i > 0 {
        lemma_trim_start_skip(s.drop_first(), i - 1);
        assert(s.drop_first().subrange(i - 1, s.drop_first().len() as int) =~= s.subrange(
            i,
            s.len() as int,
        ));
    } else {
        assert(s.subrange(0, s.len() as int) =~= s);
    }
}

proof fn lemma_trim_end_skip(s: Seq<char>, j: int)
    requires
        0 <= j <= s.len(),
        forall|k: int| j <= k < s.len() ==> is_unicode_whitespace(#[trigger] s[k]),
    ensures
        trim_end(s) == trim_end(s.subrange(0, j)),
    decreases s.len() - j,
{
    if j < s.len() {
        lemma_trim_end_skip(s.drop_last(), j);
        assert(s.drop_last().subrange(0, j) =~= s.subrange(0, j));
    } else {
        assert(s.subrange(0, j) =~= s);
    }
}

/// The characters of `s` between `lo` and `hi`.
pub fn sub_chars(s: &Vec<char>, lo: usize, hi: usize) -> (r: Vec<char>)
    requires
        lo <= hi <= s.len(),
    ensures
        r@ == s@.subrange(lo as int, hi as int),
{
    let mut r: Vec<char> = Vec::new();
    let mut i = lo;
    while i < hi
        invariant
            lo <= i <= hi <= s.len(),
            r@ == s@.subrange(lo as int, i as int),
        decreases hi - i,
    {
        r.push(s[i]);
        i = i + 1;
    }
    r
}

/// `str::trim` over characters.
pub fn trim_chars(s: &Vec<char>) -> (r: Vec<char>)
    ensures
        r@ == trim(s@),
{
    let mut lo: usize = 0;
    while lo < s.len() && is_whitespace(s[lo])
        invariant
            lo <= s.len(),
            forall|k: int| 0 <= k < lo ==> is_unicode_whitespace(#[trigger] s@[k]),
        decreases s.len() - lo,
    {
        lo = lo + 1;
    }
    let mut hi: usize = s.len();
    while hi > lo && is_whitespace(s[hi - 1])
        invariant
            lo <= hi <= s.len(),
            forall|k: int| hi <= k < s.len() ==> is_unicode_whitespace(#[trigger] s@[k]),
        decreases hi - lo,
    {
        hi = hi - 1;
    }
    proof {
        lemma_trim_start_skip(s@, lo as int);
        let t = s@.subrange(lo as int, s.len() as int);
        assert(trim_start(t) == t);
        lemma_trim_end_skip(t, hi - lo);
        assert(t.subrange(0, hi - lo) =~= s@.subrange(lo as int, hi as int));
        let u = s@.subrange(lo as int, hi as int);
        assert(trim_end(u) == u);
    }
    sub_chars(s, lo, hi)
}

/// The ASCII lower-case form of one character; other characters stay.
pub open spec fn ascii_lower(c: char) -> char {
    if 'A' <= c <= 'Z' {
        ((c as u32) + 32) as char
    } else {
        c
    }
}

/// `str::to_ascii_lowercase` over characters.
pub open spec fn to_ascii_lower(s: Seq<char>) -> Seq<char> {
    s.map_values(|c: char| ascii_lower(c))
}

/// The ASCII upper-case form of one character; other characters stay.
pub open spec fn ascii_upper(c: char) -> char {
    if 'a' <= c <= 'z' {
        ((c as u32) - 32) as char
    } else {
        c
    }
}

/// `str::to_ascii_uppercase` over characters.
pub open spec fn to_ascii_upper(s: Seq<char>) -> Seq<char> {
    s.map_values(|c: char| ascii_upper(c))
}

/// Lower-casing forgets whether a character was lower- or upper-cased before.
pub proof fn lemma_lower_forgets_case(s: Seq<char>)
    ensures
        to_ascii_lower(to_ascii_lower(s)) == to_ascii_lower(s),
        to_ascii_lower(to_ascii_upper(s)) == to_ascii_lower(s),
{
    assert forall|i: int| 0 <= i < s.len() implies ascii_lower(ascii_upper(#[trigger] s[i])) == ascii_lower(s[i])
        && ascii_lower(ascii_lower(s[i])) == ascii_lower(s[i]) by {
        let c = s[i];
        if 'a' <= c <= 'z' {
            assert(ascii_upper(c) as u32 == c as u32 - 32);
        } else if 'A' <= c <= 'Z' {
            assert(ascii_lower(c) as u32 == c as u32 + 32);
        }
    }
    assert(to_ascii_lower(to_ascii_lower(s)) =~= to_ascii_lower(s));
    assert(to_ascii_lower(to_ascii_upper(s)) =~= to_ascii_lower(s));
}

pub fn lower_char(c: char) -> (r: char)
    ensures
        r == ascii_lower(c),
{
    if 'A' <= c && c <= 'Z' {
        ((c as u8) + 32) as char
    } else {
        c
    }
}

pub fn lower_chars(s: &Vec<char>) -> (r: Vec<char>)
    ensures
        r@ == to_ascii_lower(s@),
{
    let mut r: Vec<char> = Vec::new();
    for i in 0..s.len()
        invariant
            r@ == to_ascii_lower(s@.take(i as int)),
    {
        r.push(lower_char(s[i]));
        assert(to_ascii_lower(s@.take(i + 1)) =~= to_ascii_lower(s@.take(i as int)).push(
            ascii_lower(s@[i as int]),
        ));
    }
    assert(s@.take(s.len() as int) =~= s@);
    r
}


/// `s` begins with `p`.
pub open spec fn starts_with(s: Seq<char>, p: Seq<char>) -> bool {
    p.len() <= s.len() && s.subrange(0, p.len() as int) == p
}

/// `s` ends with `p`.
pub open spec fn ends_with(s: Seq<char>, p: Seq<char>) -> bool {
    p.len() <= s.len() && s.subrange(s.len() - p.len(), s.len() as int) == p
}

/// Whether `s[at..]` begins with `p`.
pub fn matches_at(s: &Vec<char>, at: usize, p: &Vec<char>) -> (r: bool)
    requires
        at <= s.len(),
    ensures
        r == (p.len() <= s.len() - at && s@.subrange(at as int, at + p.len()) == p@),
{
    if p.len() > s.len() - at {
        return false;
    }
    let mut i: usize = 0;
    while i < p.len()
        invariant
            i <= p.len() <= s.len() - at,
            forall|k: int| 0 <= k < i ==> s@[at + k] == p@[k],
        decreases p.len() - i,
    {
        if s[at + i] != p[i] {
            assert(s@.subrange(at as int, at + p.len())[i as int] != p@[i as int]);
            return false;
        }
        i = i + 1;
    }
    assert(s@.subrange(at as int, at + p.len()) =~= p@);
    true
}

pub fn starts_with_chars(s: &Vec<char>, p: &Vec<char>) -> (r: bool)
    ensures
        r == starts_with(s@, p@),
{
    matches_at(s, 0, p)
}

pub fn ends_with_chars(s: &Vec<char>, p: &Vec<char>) -> (r: bool)
    ensures
        r == ends_with(s@, p@),
{
    if p.len() > s.len() {
        return false;
    }
    matches_at(s, s.len() - p.len(), p)
}

pub fn eq_chars(a: &Vec<char>, b: &Vec<char>) -> (r: bool)
    ensures
        r == (a@ == b@),
{
    if a.len() != b.len() {
        return false;
    }
    let r = matches_at(a, 0, b);
    proof {
        if r {
            assert(a@.subrange(0, b@.len() as int) =~= a@);
        } else {
            assert(a@.subrange(0, b@.len() as int) =~= a@);
        }
    }
    r
}

/// Two string slices hold the same characters.
pub fn str_eq(a: &str, b: &str) -> (r: bool)
    ensures
        r == (a@ == b@),
{
    let av = chars_of(a);
    let bv = chars_of(b);
    eq_chars(&av, &bv)
}

/// An ASCII decimal digit.
pub open spec fn is_digit(c: char) -> bool {
    '0' <= c <= '9'
}

/// An ASCII hexadecimal digit, either case.
pub open spec fn is_hex_digit(c: char) -> bool {
    ||| '0' <= c <= '9'
    ||| 'a' <= c <= 'f'
    ||| 'A' <= c <= 'F'
}

/// A lower-case hexadecimal digit.
pub open spec fn is_lower_hex_digit(c: char) -> bool {
    ||| '0' <= c <= '9'
    ||| 'a' <= c <= 'f'
}

/// The value of a hexadecimal digit.
pub open spec fn hex_value(c: char) -> nat {
    if '0' <= c <= '9' {
        (c as u32 - '0' as u32) as nat
    } else if 'a' <= c <= 'f' {
        (c as u32 - 'a' as u32 + 10) as nat
    } else {
        (c as u32 - 'A' as u32 + 10) as nat
    }
}

/// The lower-case hexadecimal digit for a value below 16.
pub open spec fn hex_char(v: nat) -> char {
    if v < 10 {
        (v + '0' as u32) as char
    } else {
        (v - 10 + 'a' as u32) as char
    }
}

/// The decimal digit for a value below 10.
pub open spec fn dec_char(v: nat) -> char {
    (v + '0' as u32) as char
}

pub fn hex_digit_char(v: u8) -> (c: char)
    requires
        v < 16,
    ensures
        c == hex_char(v as nat),
        is_lower_hex_digit(c),
        hex_value(c) == v,
{
    if v < 10 {
        (v + 48) as char
    } else {
        (v - 10 + 97) as char
    }
}

/// Lower-case hexadecimal digits of `n`, most significant first, without leading zeros.
pub open spec fn hex_digits(n: nat) -> Seq<char>
    decreases n,
{
    if n < 16 {
        seq![hex_char(n)]
    } else {
        hex_digits(n / 16).push(hex_char(n % 16))
    }
}

/// Decimal digits of `n`, most significant first, without leading zeros.
pub open spec fn dec_digits(n: nat) -> Seq<char>
    decreases n,
{
    if n < 10 {
        seq![dec_char(n)]
    } else {
        dec_digits(n / 10).push(dec_char(n % 10))
    }
}

/// `digits` preceded by as many `'0'` as it takes to reach `width`.
pub open spec fn zero_pad(digits: Seq<char>, width: nat) -> Seq<char> {
    if digits.len() >= width {
        digits
    } else {
        Seq::new((width - digits.len()) as nat, |i: int| '0') + digits
    }
}

/// `format!("{:0w$x}", n)`.
pub open spec fn hex_padded(n: nat, width: nat) -> Seq<char> {
    zero_pad(hex_digits(n), width)
}

proof fn lemma_hex_digits_lower(n: nat)
    ensures
        forall|i: int| 0 <= i < hex_digits(n).len() ==> is_lower_hex_digit(#[trigger] hex_digits(n)[i]),
        hex_digits(n).len() >= 1,
    decreases n,
{
    if n >= 16 {
        lemma_hex_digits_lower(n / 16);
    }
}

pub proof fn lemma_hex_padded_lower(n: nat, width: nat)
    ensures
        forall|i: int| 0 <= i < hex_padded(n, width).len() ==> is_lower_hex_digit(#[trigger] hex_padded(n, width)[i]),
        hex_padded(n, width).len() >= width,
        hex_padded(n, width).len() >= 1,
{
    lemma_hex_digits_lower(n);
}

/// `16^w`.
pub open spec fn pow16(w: nat) -> nat
    decreases w,
{
    if w == 0 {
        1
    } else {
        16 * pow16((w - 1) as nat)
    }
}

/// The last `w` hexadecimal digits of `n`, most significant first.
pub open spec fn hex_fixed(n: nat, w: nat) -> Seq<char>
    decreases w,
{
    if w == 0 {
        Seq::empty()
    } else {
        hex_fixed(n / 16, (w - 1) as nat).push(hex_char(n % 16))
    }
}

/// `a` comes before `b` as `str`'s `<` orders them: at the first place where
/// they differ, `a` has the smaller character, or `a` is a proper prefix of `b`.
pub open spec fn lex_less(a: Seq<char>, b: Seq<char>) -> bool {
    exists|i: int|
        0 <= i <= a.len() && i <= b.len() && #[trigger] a.take(i) == b.take(i) && ((i == a.len() && i < b.len()) || (i
            < a.len() && i < b.len() && a[i] < b[i]))
}

pub proof fn lemma_hex_fixed_len(n: nat, w: nat)
    ensures
        hex_fixed(n, w).len() == w,
    decreases w,
{
    if w > 0 {
        lemma_hex_fixed_len(n / 16, (w - 1) as nat);
    }
}

/// Below `16^w`, the padded hexadecimal form is exactly the last `w` digits.
pub proof fn lemma_hex_padded_fixed(n: nat, w: nat)
    requires
        w >= 1,
        n < pow16(w),
    ensures
        hex_padded(n, w) == hex_fixed(n, w),
    decreases w,
{
    lemma_hex_len_small(n, w);
    lemma_hex_digits_lower(n);
    lemma_hex_fixed_len(n, w);
    let p = pow16((w - 1) as nat);
    if w == 1 {
        assert(pow16(1) == 16) by {
            assert(pow16(0) == 1);
        }
        assert(hex_fixed(n / 16, 0) =~= Seq::<char>::empty());
        assert(hex_padded(n, w) =~= hex_fixed(n, w));
    } else if n < 16 {
        lemma_hex_padded_fixed(0, (w - 1) as nat);
        assert(pow16((w - 1) as nat) >= 1) by {
            lemma_pow16_positive((w - 1) as nat);
        }
        assert(hex_padded(0, (w - 1) as nat) =~= Seq::new((w - 1) as nat, |i: int| '0'));
        assert(hex_padded(n, w) =~= hex_fixed(n, w));
    } else {
        assert(n / 16 < p) by (nonlinear_arith)
            requires
                n < 16 * p,
        ;
        lemma_hex_padded_fixed(n / 16, (w - 1) as nat);
        lemma_hex_len_small(n / 16, (w - 1) as nat);
        let d = hex_digits(n / 16);
        assert(hex_digits(n) == d.push(hex_char(n % 16)));
        assert(zero_pad(d.push(hex_char(n % 16)), w) =~= zero_pad(d, (w - 1) as nat).push(hex_char(n % 16)));
    }
}

proof fn lemma_pow16_positive(w: nat)
    ensures
        pow16(w) >= 1,
    decreases w,
{
    if w > 0 {
        lemma_pow16_positive((w - 1) as nat);
    }
}

proof fn lemma_hex_char_ordered(x: nat, y: nat)
    requires
        x < y < 16,
    ensures
        hex_char(x) < hex_char(y),
{
}

/// For numbers below `16^w`, the order of their last `w` digits is the order
/// of the numbers: the first digit where they differ is smaller in the smaller
/// number. Returns that place.
pub proof fn lemma_hex_fixed_ordered(n: nat, m: nat, w: nat) -> (i: int)
    requires
        n < m < pow16(w),
    ensures
        0 <= i < w,
        hex_fixed(n, w).take(i) == hex_fixed(m, w).take(i),
        hex_fixed(n, w)[i] < hex_fixed(m, w)[i],
    decreases w,
{
    if w == 0 {
        assert(pow16(0) == 1);
        assert(false);
        0
    } else {
        let p = pow16((w - 1) as nat);
        let q1 = n / 16;
        let q2 = m / 16;
        lemma_hex_fixed_len(q1, (w - 1) as nat);
        lemma_hex_fixed_len(q2, (w - 1) as nat);
        assert(q1 <= q2 && q2 < p) by (nonlinear_arith)
            requires
                n < m,
                m < 16 * p,
                q1 == n / 16,
                q2 == m / 16,
        ;
        let a = hex_fixed(n, w);
        let b = hex_fixed(m, w);
        if q1 < q2 {
            let i = lemma_hex_fixed_ordered(q1, q2, (w - 1) as nat);
            assert(a.take(i) =~= hex_fixed(q1, (w - 1) as nat).take(i));
            assert(b.take(i) =~= hex_fixed(q2, (w - 1) as nat).take(i));
            i
        } else {
            assert(n % 16 < m % 16) by (nonlinear_arith)
                requires
                    n < m,
                    n / 16 == m / 16,
            ;
            lemma_hex_char_ordered(n % 16, m % 16);
            assert(a.take(w - 1) =~= hex_fixed(q1, (w - 1) as nat));
            assert(b.take(w - 1) =~= hex_fixed(q2, (w - 1) as nat));
            w - 1
        }
    }
}

fn push_hex_digits(out: &mut Vec<char>, n: u64)
    ensures
        final(out)@ == old(out)@ + hex_digits(n as nat),
    decreases n,
{
    if n >= 16 {
        push_hex_digits(out, n / 16);
    }
    let c = hex_digit_char((n % 16) as u8);
    out.push(c);
    proof {
        if n >= 16 {
            assert(old(out)@ + hex_digits((n / 16) as nat) + seq![c] =~= old(out)@ + hex_digits(n as nat));
        } else {
            assert(old(out)@ + seq![c] =~= old(out)@ + hex_digits(n as nat));
        }
    }
}

fn hex_len(n: u64) -> (r: usize)
    ensures
        r == hex_digits(n as nat).len(),
        1 <= r <= 16,
    decreases n,
{
    if n >= 16 {
        let r = hex_len(n / 16);
        proof {
            assert(hex_digits(n as nat).len() == hex_digits((n / 16) as nat).len() + 1);
            lemma_hex_len_bound(n as nat);
        }
        r + 1
    } else {
        1
    }
}

proof fn lemma_hex_len_bound(n: nat)
    ensures
        n < 0x1_0000_0000_0000_0000 ==> hex_digits(n).len() <= 16,
        n < 16 ==> hex_digits(n).len() == 1,
        hex_digits(n).len() >= 1,
    decreases n,
{
    if n >= 16 {
        lemma_hex_len_bound(n / 16);
        if n < 0x1_0000_0000_0000_0000 {
            assert(n / 16 < 0x1000_0000_0000_0000);
            reveal_with_fuel(pow16, 16);
            assert(pow16(15) == 0x1000_0000_0000_0000);
            lemma_hex_len_small(n / 16, 15);
        }
    }
}

proof fn lemma_hex_len_small(n: nat, k: nat)
    requires
        n < pow16(k),
    ensures
        hex_digits(n).len() <= (if k == 0 { 1 } else { k }),
    decreases k,
{
    if n >= 16 && k > 0 {
        assert(pow16(k) == 16 * pow16((k - 1) as nat));
        assert(n / 16 < pow16((k - 1) as nat));
        lemma_hex_len_small(n / 16, (k - 1) as nat);
        if k == 1 {
            assert(false);
        }
    } else if n >= 16 {
        assert(false);
    }
}

/// Lower-case hexadecimal digits of `n`, zero-padded to at least `width`.
pub fn push_hex(out: &mut Vec<char>, n: u64, width: usize)
    ensures
        final(out)@ == old(out)@ + hex_padded(n as nat, width as nat),
{
    let len = hex_len(n);
    let ghost start = out@;
    let mut k: usize = len;
    while k < width
        invariant
            len <= k,
            k <= width || k == len,
            out@ == start + Seq::new((k - len) as nat, |i: int| '0'),
        decreases width - k,
    {
        out.push('0');
        k = k + 1;
        assert(out@ =~= start + Seq::new((k - len) as nat, |i: int| '0'));
    }
    let ghost padded = out@;
    push_hex_digits(out, n);
    proof {
        if len >= width {
            assert(padded =~= start);
            assert(out@ =~= start + hex_padded(n as nat, width as nat));
        } else {
            assert(k == width);
            assert(out@ =~= start + hex_padded(n as nat, width as nat));
        }
    }
}


pub fn dec_digit_char(v: u8) -> (c: char)
    requires
        v < 10,
    ensures
        c == dec_char(v as nat),
        is_digit(c),
{
    (v + 48) as char
}

/// Appends the decimal digits of `n`, as `format!("{}", n)` writes them.
pub fn push_dec(out: &mut Vec<char>, n: u64)
    ensures
        final(out)@ == old(out)@ + dec_digits(n as nat),
    decreases n,
{
    if n >= 10 {
        push_dec(out, n / 10);
    }
    let c = dec_digit_char((n % 10) as u8);
    out.push(c);
    proof {
        if n >= 10 {
            assert(old(out)@ + dec_digits((n / 10) as nat) + seq![c] =~= old(out)@ + dec_digits(n as nat));
        } else {
            assert(old(out)@ + seq![c] =~= old(out)@ + dec_digits(n as nat));
        }
    }
}

/// Appends the characters of a string slice.
pub fn push_str(out: &mut Vec<char>, s: &str)
    ensures
        final(out)@ == old(out)@ + s@,
{
    let v = chars_of(s);
    let ghost start = out@;
    for i in 0..v.len()
        invariant
            out@ == start + v@.take(i as int),
    {
        out.push(v[i]);
        assert(start + v@.take(i + 1) =~= start + v@.take(i as int) + seq![v@[i as int]]);
    }
    assert(v@.take(v.len() as int) =~= v@);
}

/// Appends the characters of another vector.
pub fn push_chars(out: &mut Vec<char>, v: &Vec<char>)
    ensures
        final(out)@ == old(out)@ + v@,
{
    let ghost start = out@;
    for i in 0..v.len()
        invariant
            out@ == start + v@.take(i as int),
    {
        out.push(v[i]);
        assert(start + v@.take(i + 1) =~= start + v@.take(i as int) + seq![v@[i as int]]);
    }
    assert(v@.take(v.len() as int) =~= v@);
}

} // verus!
