//! Character-sequence utilities shared by the renderers: building strings,
//! decimal and fixed-point formatting, substring search and replacement, and
//! the lexicographic order of strings.

use vstd::prelude::*;

verus! {

// ───────────────────────── building strings ─────────────────────────

/// Appends one character to a string (`String::push`).
#[verifier::external_body]
pub(crate) fn push_char(s: &mut String, c: char)
    ensures
        final(s)@ == old(s)@.push(c),
{
    s.push(c);
}

/// Removes the last character of a string, if any (`String::pop`).
#[verifier::external_body]
pub(crate) fn pop_char(s: &mut String)
    ensures
        old(s)@.len() > 0 ==> final(s)@ == old(s)@.drop_last(),
        old(s)@.len() == 0 ==> final(s)@ == old(s)@,
{
    s.pop();
}

/// The lowercase form of a string, as Rust's `str::to_lowercase` maps it
/// (Unicode lowercase mapping; it may change the number of characters).
pub uninterp spec fn lowercase(s: Seq<char>) -> Seq<char>;

/// `str::to_lowercase` of std. Claimed: the result is the Unicode lowercase
/// mapping of the string, a function of its characters alone.
#[verifier::external_body]
pub(crate) fn to_lowercase(s: &str) -> (r: String)
    ensures
        r@ == lowercase(s@),
{
    s.to_lowercase()
}

/// The characters of `s`, in order.
pub fn chars_of(s: &str) -> (v: Vec<char>)
    ensures
        v@ == s@,
{
    let mut v: Vec<char> = Vec::new();
    for c in it: s.chars()
        invariant
            v@ == it.seq().take(it.index() as int),
    {
        v.push(c);
    }
    v
}

/// Appends the characters `cs[from..to]` to `out`.
pub fn push_chars_range(out: &mut String, cs: &Vec<char>, from: usize, to: usize)
    requires
        from <= to <= cs.len(),
    ensures
        final(out)@ == old(out)@ + cs@.subrange(from as int, to as int),
{
    let mut i = from;
    while i < to
        invariant
            from <= i <= to <= cs.len(),
            out@ == old(out)@ + cs@.subrange(from as int, i as int),
        decreases to - i,
    {
        push_char(out, cs[i]);
        assert(cs@.subrange(from as int, i + 1) == cs@.subrange(from as int, i as int).push(cs@[i as int]));
        i = i + 1;
    }
}

/// Appends all of `cs` to `out`.
pub fn push_chars(out: &mut String, cs: &Vec<char>)
    ensures
        final(out)@ == old(out)@ + cs@,
{
    push_chars_range(out, cs, 0, cs.len());
    assert(cs@.subrange(0, cs@.len() as int) == cs@);
}

/// A string holding the characters `cs`.
pub fn string_of_chars(cs: &Vec<char>) -> (s: String)
    ensures
        s@ == cs@,
{
    let mut s = String::new();
    push_chars(&mut s, cs);
    s
}

/// `s` repeated `n` times.
pub open spec fn repeat_seq(s: Seq<char>, n: nat) -> Seq<char>
    decreases n,
{
    if n == 0 {
        Seq::empty()
    } else {
        repeat_seq(s, (n - 1) as nat) + s
    }
}

/// Appends `s` repeated `n` times (`str::repeat`).
pub fn push_repeat(out: &mut String, s: &str, n: usize)
    ensures
        final(out)@ == old(out)@ + repeat_seq(s@, n as nat),
{
    let mut i: usize = 0;
    while i < n
        invariant
            i <= n,
            out@ == old(out)@ + repeat_seq(s@, i as nat),
        decreases n - i,
    {
        out.append(s);
        i = i + 1;
        assert(repeat_seq(s@, i as nat) == repeat_seq(s@, (i - 1) as nat) + s@);
    }
}

// ───────────────────────── decimal numbers ─────────────────────────

/// The ASCII digit for `d` (`0 <= d < 10`).
pub open spec fn digit_char(d: nat) -> char {
    (48 + d) as char
}

/// The decimal digits of `n`, most significant first, without leading zeros.
pub open spec fn dec_nat(n: nat) -> Seq<char>
    decreases n,
{
    if n < 10 {
        seq![digit_char(n)]
    } else {
        dec_nat(n / 10).push(digit_char(n % 10))
    }
}

/// The decimal form of an integer, as Rust's `Display` writes it.
pub open spec fn dec_int(i: int) -> Seq<char> {
    if i < 0 {
        seq!['-'] + dec_nat((-i) as nat)
    } else {
        dec_nat(i as nat)
    }
}

/// The digit character for `d`.
fn digit(d: u8) -> (c: char)
    requires
        d < 10,
    ensures
        c == digit_char(d as nat),
{
    let table: [char; 10] = ['0', '1', '2', '3', '4', '5', '6', '7', '8', '9'];
    let c = table[d as usize];
    assert(c == digit_char(d as nat)) by {
        assert(table@[d as int] == c);
    }
    c
}

/// Appends the decimal form of `n`.
pub fn push_dec_u128(out: &mut String, n: u128)
    ensures
        final(out)@ == old(out)@ + dec_nat(n as nat),
    decreases n,
{
    if n >= 10 {
        push_dec_u128(out, n / 10);
    }
    push_char(out, digit((n % 10) as u8));
}

/// Appends the decimal form of `n`.
pub fn push_dec_u64(out: &mut String, n: u64)
    ensures
        final(out)@ == old(out)@ + dec_nat(n as nat),
{
    push_dec_u128(out, n as u128);
}

/// Appends the decimal form of `n`.
pub fn push_dec_usize(out: &mut String, n: usize)
    ensures
        final(out)@ == old(out)@ + dec_nat(n as nat),
{
    push_dec_u128(out, n as u128);
}

/// Appends the decimal form of `n`, with a leading `-` when it is negative.
pub fn push_dec_i64(out: &mut String, n: i64)
    ensures
        final(out)@ == old(out)@ + dec_int(n as int),
{
    if n < 0 {
        push_char(out, '-');
        let m: i128 = 0 - (n as i128);
        push_dec_u128(out, m as u128);
    } else {
        push_dec_u128(out, n as u128);
    }
}


// ───────────────────────── fixed-point numbers ─────────────────────────

/// `10^p`.
pub open spec fn pow10(p: nat) -> nat
    decreases p,
{
    if p == 0 {
        1
    } else {
        10 * pow10((p - 1) as nat)
    }
}

/// `a / b` rounded to the nearest integer, ties to the even neighbour (the
/// rounding that Rust's `{:.N}` formatting applies to an exact value).
pub open spec fn round_half_even(a: nat, b: nat) -> nat {
    let q = a / b;
    let r = a % b;
    if 2 * r > b {
        q + 1
    } else if 2 * r < b {
        q
    } else if q % 2 == 0 {
        q
    } else {
        q + 1
    }
}

/// The decimal digits of `n`, padded on the left with zeros to `width`.
pub open spec fn zero_padded(n: nat, width: nat) -> Seq<char> {
    let d = dec_nat(n);
    if d.len() < width {
        repeat_seq(seq!['0'], (width - d.len()) as nat) + d
    } else {
        d
    }
}

/// `num / den` written with exactly `p` digits after the point, as Rust's
/// `{:.p}` writes a number: a `-` for a negative value, the integer part,
/// and, when `p > 0`, a point and `p` digits.
pub open spec fn fixed_ratio(num: int, den: nat, p: nat) -> Seq<char> {
    let a: nat = if num < 0 { (-num) as nat } else { num as nat };
    let mag = round_half_even(a * pow10(p), den);
    let sign: Seq<char> = if num < 0 { seq!['-'] } else { Seq::empty() };
    let frac: Seq<char> = if p > 0 {
        seq!['.'] + zero_padded(mag % pow10(p), p)
    } else {
        Seq::empty()
    };
    sign + dec_nat(mag / pow10(p)) + frac
}

/// A cost held in millionths of a dollar, written with `p` decimals.
pub open spec fn cost_text(micros: int, p: nat) -> Seq<char> {
    fixed_ratio(micros, 1_000_000, p)
}

/// A cost written with six decimals is exact: the whole dollars, a point,
/// then the millionths, padded to six digits, after a `-` for a negative
/// cost.
pub proof fn law_cost_with_six_decimals_is_exact(micros: int)
    ensures
        ({
            let a: nat = if micros < 0 { (-micros) as nat } else { micros as nat };
            let sign: Seq<char> = if micros < 0 { seq!['-'] } else { Seq::empty() };
            cost_text(micros, 6) == sign + dec_nat(a / 1_000_000) + (seq!['.'] + zero_padded(a % 1_000_000, 6))
        }),
{
    let a: nat = if micros < 0 { (-micros) as nat } else { micros as nat };
    reveal_with_fuel(pow10, 7);
    assert(pow10(6) == 1_000_000);
    assert((a * 1_000_000) / 1_000_000 == a && (a * 1_000_000) % 1_000_000 == 0) by (nonlinear_arith);
    assert(round_half_even(a * 1_000_000, 1_000_000) == a);
}

/// `10^p` for `p <= 6`.
fn pow10_exec(p: u32) -> (r: u128)
    requires
        p <= 6,
    ensures
        r == pow10(p as nat),
        1 <= r <= 1_000_000,
{
    let mut r: u128 = 1;
    let mut i: u32 = 0;
    while i < p
        invariant
            i <= p <= 6,
            r == pow10(i as nat),
        decreases p - i,
    {
        proof {
            lemma_pow10_le(i as nat, 6);
            reveal_with_fuel(pow10, 7);
        }
        r = r * 10;
        i = i + 1;
    }
    proof {
        lemma_pow10_le(p as nat, 6);
        reveal_with_fuel(pow10, 7);
    }
    r
}

proof fn lemma_pow10_le(i: nat, j: nat)
    requires
        i <= j,
    ensures
        pow10(i) <= pow10(j),
        pow10(i) >= 1,
    decreases j,
{
    if j > i {
        lemma_pow10_le(i, (j - 1) as nat);
    } else if i > 0 {
        lemma_pow10_le((i - 1) as nat, (i - 1) as nat);
    }
}

/// Appends the digits of `n`, padded with zeros on the left to `width`.
pub fn push_zero_padded(out: &mut String, n: u128, width: usize)
    ensures
        final(out)@ == old(out)@ + zero_padded(n as nat, width as nat),
{
    let mut digits = String::new();
    push_dec_u128(&mut digits, n);
    assert(digits@ == dec_nat(n as nat));
    let len = digits.as_str().unicode_len();
    proof {
        reveal_strlit("0");
        assert("0"@ == seq!['0']);
    }
    if len < width {
        push_repeat(out, "0", width - len);
    }
    out.append(digits.as_str());
}

/// Appends `num / den` with `p` digits after the point (see [`fixed_ratio`]).
pub fn push_fixed_ratio(out: &mut String, num: i128, den: u128, p: u32)
    requires
        den > 0,
        p <= 6,
        -1_000_000_000_000_000_000_000_000_000i128 <= num
            <= 1_000_000_000_000_000_000_000_000_000i128,
    ensures
        final(out)@ == old(out)@ + fixed_ratio(num as int, den as nat, p as nat),
{
    let a: u128 = if num < 0 {
        (0 - num) as u128
    } else {
        num as u128
    };
    let scale = pow10_exec(p);
    proof {
        assert(a * scale <= 1_000_000_000_000_000_000_000_000_000u128 * 1_000_000u128) by (nonlinear_arith)
            requires
                a <= 1_000_000_000_000_000_000_000_000_000u128,
                scale <= 1_000_000u128,
        ;
    }
    let scaled = a * scale;
    let q = scaled / den;
    let r = scaled % den;
    let mag: u128 = if r > den - r {
        q + 1
    } else if r < den - r {
        q
    } else if q % 2 == 0 {
        q
    } else {
        q + 1
    };
    assert(mag == round_half_even((a as nat) * pow10(p as nat), den as nat));
    if num < 0 {
        push_char(out, '-');
    }
    push_dec_u128(out, mag / scale);
    if p > 0 {
        push_char(out, '.');
        push_zero_padded(out, mag % scale, p as usize);
    }
    assert(out@ == old(out)@ + fixed_ratio(num as int, den as nat, p as nat));
}

/// Appends a cost held in millionths of a dollar with `p` decimals.
pub fn push_cost(out: &mut String, micros: i64, p: u32)
    requires
        p <= 6,
    ensures
        final(out)@ == old(out)@ + cost_text(micros as int, p as nat),
{
    push_fixed_ratio(out, micros as i128, 1_000_000, p);
}


// ───────────────────────── substrings ─────────────────────────

/// `pat` occurs in `s` starting at index `i`.
pub open spec fn occurs_at(s: Seq<char>, pat: Seq<char>, i: int) -> bool {
    0 <= i && i + pat.len() <= s.len() && s.subrange(i, i + pat.len()) == pat
}

/// `pat` occurs somewhere in `s` (`str::contains`).
pub open spec fn contains_seq(s: Seq<char>, pat: Seq<char>) -> bool {
    exists|i: int| occurs_at(s, pat, i)
}

/// The first index at or after `from` where `pat` occurs in `s`, if any.
pub open spec fn first_occurrence_from(s: Seq<char>, pat: Seq<char>, from: int, r: Option<int>) -> bool {
    match r {
        Some(i) => from <= i && occurs_at(s, pat, i) && forall|j: int|
            from <= j < i ==> !#[trigger] occurs_at(s, pat, j),
        None => forall|j: int| from <= j ==> !#[trigger] occurs_at(s, pat, j),
    }
}

/// Whether `pat` occurs in `s` at index `i`.
pub fn matches_at(s: &Vec<char>, pat: &Vec<char>, i: usize) -> (r: bool)
    ensures
        r == occurs_at(s@, pat@, i as int),
{
    if i > s.len() || pat.len() > s.len() - i {
        return false;
    }
    let mut k: usize = 0;
    while k < pat.len()
        invariant
            i + pat.len() <= s.len(),
            k <= pat.len(),
            forall|m: int| 0 <= m < k ==> s@[i + m] == pat@[m],
        decreases pat.len() - k,
    {
        if s[i + k] != pat[k] {
            assert(s@.subrange(i as int, i + pat.len())[k as int] != pat@[k as int]);
            return false;
        }
        k = k + 1;
    }
    assert(s@.subrange(i as int, i + pat.len()) =~= pat@);
    true
}

/// The first index at or after `from` where `pat` occurs in `s`.
pub fn find_from(s: &Vec<char>, pat: &Vec<char>, from: usize) -> (r: Option<usize>)
    ensures
        first_occurrence_from(
            s@,
            pat@,
            from as int,
            match r {
                Some(i) => Some(i as int),
                None => None,
            },
        ),
{
    if pat.len() > s.len() {
        return None;
    }
    let last = s.len() - pat.len();
    let mut i = from;
    while i <= last
        invariant
            last == s.len() - pat.len(),
            from <= i,
            forall|j: int| from <= j < i ==> !#[trigger] occurs_at(s@, pat@, j),
        decreases last + 1 - i,
    {
        if matches_at(s, pat, i) {
            return Some(i);
        }
        if i == last {
            assert forall|j: int| from <= j implies !#[trigger] occurs_at(s@, pat@, j) by {
                if j > last {
                    assert(!occurs_at(s@, pat@, j));
                }
            }
            return None;
        }
        i = i + 1;
    }
    None
}

/// Whether `pat` occurs in `s`.
pub fn seq_contains(s: &Vec<char>, pat: &Vec<char>) -> (r: bool)
    ensures
        r == contains_seq(s@, pat@),
{
    match find_from(s, pat, 0) {
        Some(i) => true,
        None => {
            assert forall|j: int| !occurs_at(s@, pat@, j) by {
                if 0 <= j {
                    assert(!occurs_at(s@, pat@, j));
                }
            }
            false
        },
    }
}

/// Whether the string `s` contains `pat` (`str::contains`).
pub fn str_contains(s: &str, pat: &str) -> (r: bool)
    ensures
        r == contains_seq(s@, pat@),
{
    let sv = chars_of(s);
    let pv = chars_of(pat);
    seq_contains(&sv, &pv)
}

/// `s` with every non-overlapping occurrence of `from`, scanned left to right,
/// replaced by `to` (`str::replace`; an empty `from` matches before every
/// character and at the end).
pub open spec fn replace_seq(s: Seq<char>, from: Seq<char>, to: Seq<char>) -> Seq<char>
    decreases s.len(),
{
    if from.len() == 0 {
        if s.len() == 0 {
            to
        } else {
            to + seq![s[0]] + replace_seq(s.skip(1), from, to)
        }
    } else if s.len() < from.len() {
        s
    } else if s.subrange(0, from.len() as int) == from {
        to + replace_seq(s.skip(from.len() as int), from, to)
    } else {
        seq![s[0]] + replace_seq(s.skip(1), from, to)
    }
}

/// Appends `s` with every occurrence of `from` replaced by `to`.
pub fn push_replaced(out: &mut String, s: &str, from: &str, to: &str)
    ensures
        final(out)@ == old(out)@ + replace_seq(s@, from@, to@),
{
    let sv = chars_of(s);
    let fv = chars_of(from);
    let ghost start = out@;
    let mut i: usize = 0;
    assert(s@.skip(0) =~= s@);
    while i < sv.len()
        invariant
            i <= sv.len(),
            sv@ == s@,
            fv@ == from@,
            start + replace_seq(s@, from@, to@) == out@ + replace_seq(s@.skip(i as int), from@, to@),
        decreases sv.len() - i,
    {
        let ghost rest = s@.skip(i as int);
        if fv.len() == 0 {
            out.append(to);
            push_char(out, sv[i]);
            assert(rest[0] == sv@[i as int]);
            assert(rest.skip(1) =~= s@.skip(i + 1));
            i = i + 1;
        } else if matches_at(&sv, &fv, i) {
            out.append(to);
            assert(rest.subrange(0, fv@.len() as int) =~= sv@.subrange(i as int, i + fv@.len()));
            assert(rest.skip(fv@.len() as int) =~= s@.skip(i + fv@.len()));
            i = i + fv.len();
        } else {
            push_char(out, sv[i]);
            assert(rest[0] == sv@[i as int]);
            assert(rest.skip(1) =~= s@.skip(i + 1));
            proof {
                if rest.len() >= fv@.len() {
                    assert(rest.subrange(0, fv@.len() as int) =~= sv@.subrange(i as int, i + fv@.len()));
                } else {
                    assert(rest =~= seq![rest[0]] + rest.skip(1));
                }
            }
            i = i + 1;
        }
    }
    if fv.len() == 0 {
        out.append(to);
    }
    assert(s@.skip(i as int) =~= Seq::<char>::empty());
}

/// The part of `s` after its last `/` (all of `s` when it has none), as
/// `s.rsplit('/').next()` yields it.
pub open spec fn last_segment(s: Seq<char>) -> Seq<char>
    decreases s.len(),
{
    if s.len() == 0 {
        s
    } else if s.last() == '/' {
        Seq::empty()
    } else {
        last_segment(s.drop_last()).push(s.last())
    }
}

/// Appends the part of `s` after its last `/`.
pub fn push_last_segment(out: &mut String, s: &str)
    ensures
        final(out)@ == old(out)@ + last_segment(s@),
{
    let cs = chars_of(s);
    let mut start = cs.len();
    assert(s@.subrange(0, start as int) =~= s@);
    assert(s@.subrange(start as int, s@.len() as int) =~= Seq::<char>::empty());
    while start > 0 && cs[start - 1] != '/'
        invariant
            start <= cs.len(),
            cs@ == s@,
            last_segment(s@) == last_segment(s@.subrange(0, start as int)) + s@.subrange(start as int, s@.len() as int),
        decreases start,
    {
        let ghost pre = s@.subrange(0, start as int);
        assert(pre.drop_last() =~= s@.subrange(0, start - 1));
        assert(s@.subrange(start - 1, s@.len() as int) =~= seq![pre.last()] + s@.subrange(start as int, s@.len() as int));
        start = start - 1;
    }
    if start > 0 {
        let ghost pre = s@.subrange(0, start as int);
        assert(pre.last() == '/');
    }
    push_chars_range(out, &cs, start, cs.len());
}

// ───────────────────────── lexicographic order ─────────────────────────

/// `a` sorts before or equal to `b`, comparing characters by code point and a
/// prefix before any longer string. Because UTF-8 preserves code point order,
/// this is the order of `String`'s `Ord`.
pub open spec fn seq_le(a: Seq<char>, b: Seq<char>) -> bool
    decreases a.len(),
{
    if a.len() == 0 {
        true
    } else if b.len() == 0 {
        false
    } else if (a[0] as int) < (b[0] as int) {
        true
    } else if (a[0] as int) > (b[0] as int) {
        false
    } else {
        seq_le(a.drop_first(), b.drop_first())
    }
}

/// `a` sorts strictly before `b`.
pub open spec fn seq_lt(a: Seq<char>, b: Seq<char>) -> bool {
    seq_le(a, b) && a != b
}

/// Any two strings are ordered one way or the other.
pub proof fn lemma_seq_le_total(a: Seq<char>, b: Seq<char>)
    ensures
        seq_le(a, b) || seq_le(b, a),
    decreases a.len(),
{
    if a.len() > 0 && b.len() > 0 && a[0] == b[0] {
        lemma_seq_le_total(a.drop_first(), b.drop_first());
    }
}

/// Strings ordered both ways are equal.
pub proof fn lemma_seq_le_antisym(a: Seq<char>, b: Seq<char>)
    requires
        seq_le(a, b),
        seq_le(b, a),
    ensures
        a == b,
    decreases a.len(),
{
    if a.len() == 0 {
        assert(b.len() == 0);
        assert(a =~= b);
    } else {
        assert(b.len() > 0);
        assert(a[0] == b[0]);
        lemma_seq_le_antisym(a.drop_first(), b.drop_first());
        assert(a =~= seq![a[0]] + a.drop_first());
        assert(b =~= seq![b[0]] + b.drop_first());
    }
}

/// The order is transitive.
pub proof fn lemma_seq_le_trans(a: Seq<char>, b: Seq<char>, c: Seq<char>)
    requires
        seq_le(a, b),
        seq_le(b, c),
    ensures
        seq_le(a, c),
    decreases a.len(),
{
    if a.len() > 0 && b.len() > 0 && c.len() > 0 && a[0] == b[0] && b[0] == c[0] {
        lemma_seq_le_trans(a.drop_first(), b.drop_first(), c.drop_first());
    }
}

/// Every string is ordered before or equal to itself.
pub proof fn lemma_seq_le_refl(a: Seq<char>)
    ensures
        seq_le(a, a),
    decreases a.len(),
{
    if a.len() > 0 {
        lemma_seq_le_refl(a.drop_first());
    }
}

/// Strict order is transitive.
pub proof fn lemma_seq_lt_trans(a: Seq<char>, b: Seq<char>, c: Seq<char>)
    requires
        seq_lt(a, b),
        seq_lt(b, c),
    ensures
        seq_lt(a, c),
{
    lemma_seq_le_trans(a, b, c);
    if a == c {
        lemma_seq_le_antisym(a, b);
    }
}

/// Whether `a` sorts before or equal to `b`.
pub fn chars_le(a: &Vec<char>, b: &Vec<char>) -> (r: bool)
    ensures
        r == seq_le(a@, b@),
{
    let mut i: usize = 0;
    assert(a@.skip(0) =~= a@);
    assert(b@.skip(0) =~= b@);
    while i < a.len() && i < b.len() && a[i] == b[i]
        invariant
            i <= a.len(),
            i <= b.len(),
            seq_le(a@, b@) == seq_le(a@.skip(i as int), b@.skip(i as int)),
        decreases a.len() - i,
    {
        assert(a@.skip(i as int).drop_first() =~= a@.skip(i + 1));
        assert(b@.skip(i as int).drop_first() =~= b@.skip(i + 1));
        i = i + 1;
    }
    if i == a.len() {
        assert(a@.skip(i as int).len() == 0);
        true
    } else if i == b.len() {
        assert(b@.skip(i as int).len() == 0);
        false
    } else {
        assert(a@.skip(i as int)[0] == a@[i as int]);
        assert(b@.skip(i as int)[0] == b@[i as int]);
        a[i] < b[i]
    }
}

/// Whether the string `a` sorts before or equal to `b`.
pub fn str_le(a: &str, b: &str) -> (r: bool)
    ensures
        r == seq_le(a@, b@),
{
    let av = chars_of(a);
    let bv = chars_of(b);
    chars_le(&av, &bv)
}

/// Whether two strings are equal.
pub fn str_eq(a: &str, b: &str) -> (r: bool)
    ensures
        r == (a@ == b@),
{
    let av = chars_of(a);
    let bv = chars_of(b);
    if av.len() != bv.len() {
        assert(av@.len() != bv@.len());
        return false;
    }
    let mut i: usize = 0;
    while i < av.len()
        invariant
            av@ == a@,
            bv@ == b@,
            av.len() == bv.len(),
            i <= av.len(),
            forall|k: int| 0 <= k < i ==> av@[k] == bv@[k],
        decreases av.len() - i,
    {
        if av[i] != bv[i] {
            assert(av@[i as int] != bv@[i as int]);
            return false;
        }
        i = i + 1;
    }
    assert(av@ =~= bv@);
    true
}


// ───────────────────────── joining ─────────────────────────

/// The strings of `list` separated by `sep` (`[..].join(sep)`).
pub open spec fn join_seq(list: Seq<Seq<char>>, sep: Seq<char>) -> Seq<char>
    decreases list.len(),
{
    if list.len() == 0 {
        Seq::empty()
    } else if list.len() == 1 {
        list[0]
    } else {
        join_seq(list.drop_last(), sep) + sep + list.last()
    }
}

/// The views of a sequence of strings.
pub open spec fn strs(v: Seq<String>) -> Seq<Seq<char>> {
    Seq::new(v.len(), |i: int| v[i]@)
}

/// The views after a push are the views before, and the new string's.
pub proof fn lemma_strs_push(v: Seq<String>, x: String)
    ensures
        strs(v.push(x)) == strs(v).push(x@),
{
    assert(strs(v.push(x)) =~= strs(v).push(x@));
}

/// Appends the strings of `list` separated by `sep`.
pub fn push_joined(out: &mut String, list: &Vec<String>, sep: &str)
    ensures
        final(out)@ == old(out)@ + join_seq(strs(list@), sep@),
{
    let ghost start = out@;
    let mut i: usize = 0;
    while i < list.len()
        invariant
            i <= list.len(),
            out@ == start + join_seq(strs(list@).take(i as int), sep@),
        decreases list.len() - i,
    {
        if i > 0 {
            out.append(sep);
        }
        out.append(list[i].as_str());
        proof {
            let t = strs(list@).take(i + 1);
            assert(t.drop_last() =~= strs(list@).take(i as int));
            if i == 0 {
                assert(strs(list@).take(0) =~= Seq::<Seq<char>>::empty());
            }
        }
        i = i + 1;
    }
    assert(strs(list@).take(list.len() as int) =~= strs(list@));
}

} // verus!
