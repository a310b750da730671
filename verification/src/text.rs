//! Characters and strings: the scanning and formatting helpers the rest of
//! the library is built from. Text is handled as sequences of `char`; the
//! `*_in` helpers work on a window `cs[lo..hi]` of a character vector.

use vstd::prelude::*;
use vstd::string::StringExecFns;

verus! {

// ---- what the helpers compute --------------------------------------------

/// Unicode `White_Space`: the characters that `char::is_whitespace` accepts,
/// and so the ones `trim` and `split_whitespace` treat as blanks.
pub open spec fn is_ws(c: char) -> bool {
    let u = c as u32;
    ||| 0x09 <= u <= 0x0D
    ||| u == 0x20
    ||| u == 0x85
    ||| u == 0xA0
    ||| u == 0x1680
    ||| 0x2000 <= u <= 0x200A
    ||| u == 0x2028
    ||| u == 0x2029
    ||| u == 0x202F
    ||| u == 0x205F
    ||| u == 0x3000
}

/// Sets of characters that get trimmed off the end of a piece of text.
#[derive(Clone, Copy, Debug, PartialEq, Eq, Structural)]
pub enum Class {
    /// Whitespace, as `is_ws`.
    Blank,
    /// `/`, for trailing slashes of a link.
    Slash,
    /// What tends to stick to a link pasted inside prose: `)]},.;"'>`.
    Closing,
    /// `.` and `,`, the end of a sentence.
    Stop,
}

pub open spec fn in_class(k: Class, c: char) -> bool {
    match k {
        Class::Blank => is_ws(c),
        Class::Slash => c == '/',
        Class::Closing => c == ')' || c == ']' || c == '}' || c == ',' || c == '.' || c == ';'
            || c == '"' || c == '\'' || c == '>',
        Class::Stop => c == '.' || c == ',',
    }
}

/// `s` without its leading whitespace.
pub open spec fn trim_start_ws(s: Seq<char>) -> Seq<char>
    decreases s.len(),
{
    if s.len() > 0 && is_ws(s[0]) {
        trim_start_ws(s.drop_first())
    } else {
        s
    }
}

/// `s` without the characters of class `k` at its end.
pub open spec fn trim_end_in(s: Seq<char>, k: Class) -> Seq<char>
    decreases s.len(),
{
    if s.len() > 0 && in_class(k, s.last()) {
        trim_end_in(s.drop_last(), k)
    } else {
        s
    }
}

/// `str::trim`: `s` without whitespace at either end.
pub open spec fn trim_ws(s: Seq<char>) -> Seq<char> {
    trim_end_in(trim_start_ws(s), Class::Blank)
}

pub open spec fn starts_with(s: Seq<char>, p: Seq<char>) -> bool {
    p.len() <= s.len() && s.take(p.len() as int) == p
}

/// `str::trim_start_matches` with a text pattern: every leading copy of `p` removed.
pub open spec fn strip_all(s: Seq<char>, p: Seq<char>) -> Seq<char>
    decreases s.len(),
{
    if p.len() > 0 && starts_with(s, p) {
        strip_all(s.skip(p.len() as int), p)
    } else {
        s
    }
}

pub open spec fn occurs_at(s: Seq<char>, p: Seq<char>, i: int) -> bool {
    0 <= i && i + p.len() <= s.len() && s.subrange(i, i + p.len()) == p
}

/// Where `p` first occurs in `s` at or after `i`.
pub open spec fn find_from(s: Seq<char>, p: Seq<char>, i: int) -> Option<int>
    decreases s.len() - i,
{
    if i < 0 || i + p.len() > s.len() {
        None
    } else if occurs_at(s, p, i) {
        Some(i)
    } else if i >= s.len() {
        None
    } else {
        find_from(s, p, i + 1)
    }
}

/// `str::find`: where `p` first occurs in `s`.
pub open spec fn find(s: Seq<char>, p: Seq<char>) -> Option<int> {
    find_from(s, p, 0)
}

/// The earlier of two places, where either is found.
pub open spec fn first_of(a: Option<int>, b: Option<int>) -> Option<int> {
    match (a, b) {
        (Some(x), Some(y)) => Some(if x <= y { x } else { y }),
        (Some(x), None) => Some(x),
        (None, _) => b,
    }
}

/// A place in `cs[lo..]`, counted from `lo`.
pub open spec fn from_lo(o: Option<usize>, lo: usize) -> Option<int> {
    match o {
        Some(k) => Some(k - lo),
        None => None,
    }
}

/// How many characters `s` starts with before its first blank.
pub open spec fn run_len(s: Seq<char>) -> nat
    decreases s.len(),
{
    if s.len() == 0 || is_ws(s[0]) {
        0
    } else {
        1 + run_len(s.drop_first())
    }
}

/// `str::split_whitespace`: the maximal runs of non-blank characters, in order.
pub open spec fn words(s: Seq<char>) -> Seq<Seq<char>>
    decreases s.len(),
{
    let t = trim_start_ws(s);
    if t.len() == 0 {
        seq![]
    } else {
        proof {
            lemma_trim_start_ws(s);
            lemma_run_len(t);
        }
        let n = run_len(t);
        seq![t.take(n as int)] + words(t.skip(n as int))
    }
}

// ---- facts about them ----------------------------------------------------

pub proof fn lemma_trim_start_ws(s: Seq<char>)
    ensures
        trim_start_ws(s).len() <= s.len(),
        trim_start_ws(s) == s.skip(s.len() - trim_start_ws(s).len()),
        trim_start_ws(s).len() > 0 ==> !is_ws(trim_start_ws(s)[0]),
        forall|i: int| 0 <= i < s.len() - trim_start_ws(s).len() ==> is_ws(#[trigger] s[i]),
    decreases s.len(),
{
    if s.len() > 0 && is_ws(s[0]) {
        lemma_trim_start_ws(s.drop_first());
        let t = trim_start_ws(s.drop_first());
        assert(s.drop_first().skip(s.drop_first().len() - t.len()) =~= s.skip(s.len() - t.len()));
        assert forall|i: int| 0 <= i < s.len() - trim_start_ws(s).len() implies is_ws(#[trigger] s[i]) by {
            if i > 0 {
                assert(s[i] == s.drop_first()[i - 1]);
            }
        }
    } else {
        assert(s.skip(0) =~= s);
    }
}

pub proof fn lemma_trim_end_in(s: Seq<char>, k: Class)
    ensures
        trim_end_in(s, k).len() <= s.len(),
        trim_end_in(s, k) == s.take(trim_end_in(s, k).len() as int),
        trim_end_in(s, k).len() > 0 ==> !in_class(k, trim_end_in(s, k).last()),
        forall|i: int| trim_end_in(s, k).len() <= i < s.len() ==> in_class(k, #[trigger] s[i]),
        trim_end_in(trim_end_in(s, k), k) == trim_end_in(s, k),
    decreases s.len(),
{
    if s.len() > 0 && in_class(k, s.last()) {
        lemma_trim_end_in(s.drop_last(), k);
        let t = trim_end_in(s.drop_last(), k);
        assert(s.drop_last().take(t.len() as int) =~= s.take(t.len() as int));
        assert forall|i: int| trim_end_in(s, k).len() <= i < s.len() implies in_class(k, #[trigger] s[i]) by {
            if i < s.len() - 1 {
                assert(s[i] == s.drop_last()[i]);
            }
        }
    } else {
        assert(s.take(s.len() as int) =~= s);
    }
}

pub proof fn lemma_run_len(s: Seq<char>)
    ensures
        run_len(s) <= s.len(),
        s.len() > 0 && !is_ws(s[0]) ==> run_len(s) >= 1,
        forall|i: int| 0 <= i < run_len(s) ==> !is_ws(#[trigger] s[i]),
        run_len(s) < s.len() ==> is_ws(s[run_len(s) as int]),
    decreases s.len(),
{
    if s.len() > 0 && !is_ws(s[0]) {
        lemma_run_len(s.drop_first());
        assert forall|i: int| 0 <= i < run_len(s) implies !is_ws(#[trigger] s[i]) by {
            if i > 0 {
                assert(s[i] == s.drop_first()[i - 1]);
            }
        }
        if run_len(s) < s.len() {
            assert(s[run_len(s) as int] == s.drop_first()[run_len(s.drop_first()) as int]);
        }
    }
}

// ---- scanning windows of a character vector --------------------------------

/// `char::is_whitespace`.
pub fn is_whitespace(c: char) -> (b: bool)
    ensures
        b == is_ws(c),
{
    let u = c as u32;
    (0x09 <= u && u <= 0x0D) || u == 0x20 || u == 0x85 || u == 0xA0 || u == 0x1680 || (0x2000
        <= u && u <= 0x200A) || u == 0x2028 || u == 0x2029 || u == 0x202F || u == 0x205F || u
        == 0x3000
}

pub fn is_in_class(k: Class, c: char) -> (b: bool)
    ensures
        b == in_class(k, c),
{
    match k {
        Class::Blank => is_whitespace(c),
        Class::Slash => c == '/',
        Class::Closing => c == ')' || c == ']' || c == '}' || c == ',' || c == '.' || c == ';'
            || c == '"' || c == '\'' || c == '>',
        Class::Stop => c == '.' || c == ',',
    }
}

/// Start of `cs[lo..hi]` once its leading whitespace is skipped.
pub fn skip_ws_in(cs: &Vec<char>, lo: usize, hi: usize) -> (k: usize)
    requires
        lo <= hi <= cs@.len(),
    ensures
        lo <= k <= hi,
        cs@.subrange(k as int, hi as int) == trim_start_ws(cs@.subrange(lo as int, hi as int)),
{
    let mut i = lo;
    while i < hi && is_whitespace(cs[i])
        invariant
            lo <= i <= hi <= cs@.len(),
            trim_start_ws(cs@.subrange(lo as int, hi as int)) == trim_start_ws(
                cs@.subrange(i as int, hi as int),
            ),
        decreases hi - i,
    {
        assert(cs@.subrange(i as int, hi as int).drop_first() =~= cs@.subrange(i + 1, hi as int));
        i += 1;
    }
    i
}

/// End of `cs[lo..hi]` once the characters of class `k` at its end are dropped.
pub fn trim_end_class_in(cs: &Vec<char>, lo: usize, hi: usize, k: Class) -> (e: usize)
    requires
        lo <= hi <= cs@.len(),
    ensures
        lo <= e <= hi,
        cs@.subrange(lo as int, e as int) == trim_end_in(cs@.subrange(lo as int, hi as int), k),
{
    let mut j = hi;
    while j > lo && is_in_class(k, cs[j - 1])
        invariant
            lo <= j <= hi <= cs@.len(),
            trim_end_in(cs@.subrange(lo as int, hi as int), k) == trim_end_in(
                cs@.subrange(lo as int, j as int),
                k,
            ),
        decreases j,
    {
        assert(cs@.subrange(lo as int, j as int).drop_last() =~= cs@.subrange(lo as int, j - 1));
        j -= 1;
    }
    j
}

/// `cs[lo..hi]` trimmed at both ends, as a window `(lo', hi')`.
pub fn trim_in(cs: &Vec<char>, lo: usize, hi: usize) -> (r: (usize, usize))
    requires
        lo <= hi <= cs@.len(),
    ensures
        lo <= r.0 <= r.1 <= hi,
        cs@.subrange(r.0 as int, r.1 as int) == trim_ws(cs@.subrange(lo as int, hi as int)),
{
    let a = skip_ws_in(cs, lo, hi);
    let b = trim_end_class_in(cs, a, hi, Class::Blank);
    (a, b)
}

/// End of the run of non-blank characters that starts at `lo`.
pub fn run_end_in(cs: &Vec<char>, lo: usize, hi: usize) -> (e: usize)
    requires
        lo <= hi <= cs@.len(),
    ensures
        lo <= e <= hi,
        e - lo == run_len(cs@.subrange(lo as int, hi as int)),
{
    let mut i = lo;
    while i < hi && !is_whitespace(cs[i])
        invariant
            lo <= i <= hi <= cs@.len(),
            run_len(cs@.subrange(lo as int, hi as int)) == (i - lo) + run_len(
                cs@.subrange(i as int, hi as int),
            ),
        decreases hi - i,
    {
        assert(cs@.subrange(i as int, hi as int).drop_first() =~= cs@.subrange(i + 1, hi as int));
        i += 1;
    }
    i
}

/// Whether `p` occurs in `cs` at `i` (and fits before `hi`).
pub fn matches_at(cs: &Vec<char>, i: usize, hi: usize, p: &Vec<char>) -> (b: bool)
    requires
        i <= hi <= cs@.len(),
    ensures
        b == (i + p@.len() <= hi && cs@.subrange(i as int, i + p@.len()) == p@),
{
    if p.len() > hi - i {
        return false;
    }
    let mut j: usize = 0;
    while j < p.len()
        invariant
            i + p@.len() <= hi <= cs@.len(),
            j <= p@.len(),
            forall|t: int| 0 <= t < j ==> cs@[i + t] == p@[t],
        decreases p@.len() - j,
    {
        if cs[i + j] != p[j] {
            assert(cs@.subrange(i as int, i + p@.len())[j as int] != p@[j as int]);
            return false;
        }
        j += 1;
    }
    assert(cs@.subrange(i as int, i + p@.len()) =~= p@);
    true
}

/// Where `p` first occurs in `cs[lo..hi]`, as an index into `cs`.
pub fn find_in(cs: &Vec<char>, lo: usize, hi: usize, p: &Vec<char>) -> (r: Option<usize>)
    requires
        lo <= hi <= cs@.len(),
    ensures
        match r {
            Some(k) => lo <= k && k + p@.len() <= hi && find(
                cs@.subrange(lo as int, hi as int),
                p@,
            ) == Some(k - lo),
            None => find(cs@.subrange(lo as int, hi as int), p@) is None,
        },
{
    let ghost s = cs@.subrange(lo as int, hi as int);
    let mut i = lo;
    loop
        invariant
            lo <= i <= hi <= cs@.len(),
            s == cs@.subrange(lo as int, hi as int),
            find(s, p@) == find_from(s, p@, i - lo),
        decreases hi - i,
    {
        if p.len() > hi - i {
            return None;
        }
        if matches_at(cs, i, hi, p) {
            assert(s.subrange(i - lo, i - lo + p@.len()) =~= cs@.subrange(i as int, i + p@.len()));
            return Some(i);
        }
        assert(s.subrange(i - lo, i - lo + p@.len()) =~= cs@.subrange(i as int, i + p@.len()));
        if p.len() == 0 {
            assert(cs@.subrange(i as int, i as int) =~= p@);
        }
        i += 1;
    }
}

/// The earlier of two places in `cs`.
pub(crate) fn sooner(a: Option<usize>, b: Option<usize>) -> (r: Option<usize>)
    ensures
        forall|lo: usize| #[trigger] from_lo(r, lo) == first_of(from_lo(a, lo), from_lo(b, lo)),
{
    match (a, b) {
        (Some(x), Some(y)) => Some(if x <= y { x } else { y }),
        (Some(x), None) => Some(x),
        (None, _) => b,
    }
}

// ---- strings -------------------------------------------------------------

/// `String::push`: appends one character to the end of the string.
#[verifier::external_body]
pub(crate) fn push_char(s: &mut String, c: char)
    ensures
        final(s)@ == old(s)@.push(c),
{
    s.push(c)
}

/// `String::pop`: removes the last character, if there is one.
#[verifier::external_body]
pub(crate) fn pop_char(s: &mut String)
    ensures
        final(s)@ == if old(s)@.len() > 0 {
            old(s)@.drop_last()
        } else {
            old(s)@
        },
{
    s.pop();
}

/// The characters of `s`, in order.
pub fn chars_of(s: &str) -> (v: Vec<char>)
    ensures
        v@ == s@,
{
    let mut v: Vec<char> = Vec::new();
    for c in it: s.chars()
        invariant
            v@ == it.seq().take(it.index() as int),
    {
        v.push(c);
    }
    v
}

/// Appends the characters `cs[from..to]` to `s`.
pub fn push_range(s: &mut String, cs: &Vec<char>, from: usize, to: usize)
    requires
        from <= to <= cs@.len(),
    ensures
        final(s)@ == old(s)@ + cs@.subrange(from as int, to as int),
{
    let mut i = from;
    while i < to
        invariant
            from <= i <= to <= cs@.len(),
            s@ == old(s)@ + cs@.subrange(from as int, i as int),
        decreases to - i,
    {
        push_char(s, cs[i]);
        assert(cs@.subrange(from as int, i + 1) =~= cs@.subrange(from as int, i as int).push(
            cs@[i as int],
        ));
        i += 1;
    }
    assert(old(s)@ + cs@.subrange(from as int, to as int) =~= s@);
}

/// A string made of the characters `cs[from..to]`.
pub fn string_of(cs: &Vec<char>, from: usize, to: usize) -> (s: String)
    requires
        from <= to <= cs@.len(),
    ensures
        s@ == cs@.subrange(from as int, to as int),
{
    let mut s = String::new();
    push_range(&mut s, cs, from, to);
    assert(Seq::<char>::empty() + cs@.subrange(from as int, to as int) =~= cs@.subrange(
        from as int,
        to as int,
    ));
    s
}


// ---- numbers as text ------------------------------------------------------

/// The digit for `d < 10`.
pub open spec fn digit(d: nat) -> char {
    (d + 48) as char
}

/// `n` in decimal, as `format!("{n}")` writes it.
pub open spec fn dec(n: nat) -> Seq<char>
    decreases n,
{
    if n < 10 {
        seq![digit(n)]
    } else {
        dec(n / 10).push(digit(n % 10))
    }
}

/// `format!("{:02}", n)` for `n < 100`.
pub open spec fn two_digits(n: nat) -> Seq<char> {
    if n < 10 {
        seq!['0'] + dec(n)
    } else {
        dec(n)
    }
}

pub fn digit_char(d: u64) -> (c: char)
    requires
        d < 10,
    ensures
        c == digit(d as nat),
{
    let b: u8 = d as u8 + 48;
    b as char
}

/// Appends `n` in decimal.
pub fn push_dec(s: &mut String, n: u128)
    ensures
        final(s)@ == old(s)@ + dec(n as nat),
    decreases n,
{
    if n >= 10 {
        push_dec(s, n / 10);
    }
    push_char(s, digit_char((n % 10) as u64));
    assert(old(s)@ + dec(n as nat) =~= s@);
}

/// `n` in decimal.
pub fn decimal(n: u64) -> (r: String)
    ensures
        r@ == dec(n as nat),
{
    let mut s = String::new();
    push_dec(&mut s, n as u128);
    assert(Seq::<char>::empty() + dec(n as nat) =~= dec(n as nat));
    s
}

/// Appends `n` with at least two digits.
pub fn push_two_digits(s: &mut String, n: u64)
    requires
        n < 100,
    ensures
        final(s)@ == old(s)@ + two_digits(n as nat),
{
    if n < 10 {
        push_char(s, '0');
    }
    push_dec(s, n as u128);
    assert(old(s)@ + two_digits(n as nat) =~= s@);
}

/// A length of time the way the queue shows it: `m:ss`, or `h:mm:ss` from
/// an hour up.
pub open spec fn duration_text(secs: nat) -> Seq<char> {
    if secs >= 3600 {
        dec(secs / 3600) + seq![':'] + two_digits((secs / 60) % 60) + seq![':'] + two_digits(
            secs % 60,
        )
    } else {
        dec(secs / 60) + seq![':'] + two_digits(secs % 60)
    }
}

/// Seconds as `m:ss`, or `h:mm:ss` from an hour up.
pub fn human_secs(secs: u64) -> (r: String)
    ensures
        r@ == duration_text(secs as nat),
{
    let mut s = String::new();
    if secs >= 3600 {
        push_dec(&mut s, (secs / 3600) as u128);
        push_char(&mut s, ':');
        push_two_digits(&mut s, (secs / 60) % 60);
        push_char(&mut s, ':');
        push_two_digits(&mut s, secs % 60);
    } else {
        push_dec(&mut s, (secs / 60) as u128);
        push_char(&mut s, ':');
        push_two_digits(&mut s, secs % 60);
    }
    assert(s@ =~= duration_text(secs as nat));
    s
}


// ---- byte sizes ----------------------------------------------------------

pub open spec fn pow2(k: nat) -> nat
    decreases k,
{
    if k == 0 {
        1
    } else {
        2 * pow2((k - 1) as nat)
    }
}

pub proof fn lemma_pow2_pos(k: nat)
    ensures
        pow2(k) > 0,
    decreases k,
{
    if k > 0 {
        lemma_pow2_pos((k - 1) as nat);
    }
}

/// How many low bits an `f64` drops from `n`: it keeps 53 significant bits.
pub open spec fn dropped_bits(n: nat) -> nat
    decreases n,
{
    if n < pow2(53) {
        0
    } else {
        proof {
            lemma_pow2_pos(53);
        }
        1 + dropped_bits(n / 2)
    }
}

/// `a / b` rounded to the nearest whole number, ties to the even one.
pub open spec fn div_round_even(a: nat, b: nat) -> nat {
    let q = a / b;
    let r = a % b;
    if 2 * r > b || (2 * r == b && q % 2 == 1) {
        q + 1
    } else {
        q
    }
}

/// The value of `n as f64`: `n` rounded to 53 significant bits, ties to even.
pub open spec fn as_double(n: nat) -> nat {
    let p = pow2(dropped_bits(n));
    div_round_even(n, p) * p
}

/// Which of B, KiB, MiB, GiB a size is shown in.
pub open spec fn size_unit(n: nat) -> nat {
    if n < 1024 {
        0
    } else if n < 1048576 {
        1
    } else if n < 1073741824 {
        2
    } else {
        3
    }
}

pub open spec fn unit_bytes(u: nat) -> nat {
    if u == 1 {
        1024
    } else if u == 2 {
        1048576
    } else {
        1073741824
    }
}

pub open spec fn unit_name(u: nat) -> Seq<char> {
    if u == 1 {
        "KiB"@
    } else if u == 2 {
        "MiB"@
    } else {
        "GiB"@
    }
}

/// A byte count as the dashboard shows it: whole bytes below 1 KiB, else the
/// `f64` value of `n` in the largest unit up to GiB, to one decimal place
/// (`{:.1}`, which rounds ties to even).
pub open spec fn size_text(n: nat) -> Seq<char> {
    let u = size_unit(n);
    if u == 0 {
        dec(n) + " B"@
    } else {
        let t = div_round_even(as_double(n) * 10, unit_bytes(u));
        dec(t / 10) + seq!['.', digit(t % 10), ' '] + unit_name(u)
    }
}

proof fn lemma_div_step(n: nat, p: nat, x: nat, r: nat, b: nat)
    requires
        p > 0,
        n == x * p + r,
        r < p,
        b == x % 2,
    ensures
        n == (x / 2) * (2 * p) + (b * p + r),
        b * p + r < 2 * p,
{
    assert(x == 2 * (x / 2) + b);
    assert(n == (x / 2) * (2 * p) + (b * p + r)) by (nonlinear_arith)
        requires
            n == x * p + r,
            x == 2 * (x / 2) + b,
    ;
    assert(b * p + r < 2 * p) by (nonlinear_arith)
        requires
            b <= 1,
            r < p,
    ;
}

pub(crate) proof fn lemma_pow2_53()
    ensures
        pow2(53) == 9007199254740992,
{
    reveal_with_fuel(pow2, 54);
}

proof fn lemma_double_le(n: nat, x: nat, p: nat, r: nat)
    requires
        n == x * p + r,
        x >= 2,
    ensures
        2 * p <= n,
{
    assert(2 * p <= n) by (nonlinear_arith)
        requires
            n == x * p + r,
            x >= 2,
    ;
}

proof fn lemma_div_unique(n: nat, p: nat, x: nat, r: nat)
    requires
        p > 0,
        n == x * p + r,
        r < p,
    ensures
        n / p == x,
        n % p == r,
{
    vstd::arithmetic::div_mod::lemma_fundamental_div_mod_converse(n as int, p as int, x as int, r as int);
}

/// `n as f64`, as an exact whole number.
fn double_of(n: u64) -> (m: u128)
    ensures
        m == as_double(n as nat),
        m <= 2 * n,
{
    let mut x: u64 = n;
    let mut p: u128 = 1;
    let mut r: u128 = 0;
    let ghost mut k: nat = 0;
    proof {
        lemma_pow2_53();
    }
    while x >= 9007199254740992
        invariant
            n == x * p + r,
            r < p,
            p == pow2(k),
            p == 1 || p <= n,
            dropped_bits(n as nat) == k + dropped_bits(x as nat),
            pow2(53) == 9007199254740992,
        decreases x,
    {
        let b = x % 2;
        proof {
            lemma_div_step(n as nat, p as nat, x as nat, r as nat, b as nat);
            lemma_double_le(n as nat, x as nat, p as nat, r as nat);
        }
        r = (b as u128) * p + r;
        p = 2 * p;
        x = x / 2;
        proof {
            k = k + 1;
        }
    }
    assert(dropped_bits(x as nat) == 0);
    proof {
        lemma_div_unique(n as nat, p as nat, x as nat, r as nat);
    }
    let q: u128 = x as u128;
    let q2: u128 = if 2 * r > p || (2 * r == p && q % 2 == 1) {
        q + 1
    } else {
        q
    };
    if p == 1 {
        assert(r == 0 && q == n);
    } else {
        assert(q2 * p <= (q + 1) * p) by (nonlinear_arith)
            requires
                q2 <= q + 1,
        ;
        assert((q + 1) * p <= 2 * n) by (nonlinear_arith)
            requires
                n == q * p + r,
                r < p,
                p <= n,
        ;
    }
    q2 * p
}

/// A byte count in B, KiB, MiB or GiB.
pub fn human_bytes(n: u64) -> (r: String)
    ensures
        r@ == size_text(n as nat),
{
    let mut s = String::new();
    if n < 1024 {
        push_dec(&mut s, n as u128);
        s.append(" B");
        assert(s@ =~= size_text(n as nat));
        return s;
    }
    let unit: u128 = if n < 1048576 {
        1024
    } else if n < 1073741824 {
        1048576
    } else {
        1073741824
    };
    let m = double_of(n);
    assert(m <= 2 * n);
    let a: u128 = m * 10;
    let q = a / unit;
    let rem = a % unit;
    let t: u128 = if 2 * rem > unit || (2 * rem == unit && q % 2 == 1) {
        q + 1
    } else {
        q
    };
    assert(q <= a) by (nonlinear_arith)
        requires
            q == a / unit,
            unit >= 1,
    ;
    push_dec(&mut s, t / 10);
    push_char(&mut s, '.');
    push_char(&mut s, digit_char((t % 10) as u64));
    push_char(&mut s, ' ');
    if n < 1048576 {
        s.append("KiB");
    } else if n < 1073741824 {
        s.append("MiB");
    } else {
        s.append("GiB");
    }
    assert(s@ =~= size_text(n as nat));
    s
}


// ---- cutting text to a width -----------------------------------------------

/// The end of `s` in at most `width` characters, led by `…` where it was cut.
/// Widths under 4 leave the text alone.
pub open spec fn tail_of(s: Seq<char>, width: nat) -> Seq<char> {
    if s.len() <= width || width < 4 {
        s
    } else {
        seq!['…'] + s.skip(s.len() - (width - 1))
    }
}

/// The start of `s` in at most `width` characters (at least one), ending in
/// `…` where it was cut.
pub open spec fn truncate_of(s: Seq<char>, width: nat) -> Seq<char> {
    if s.len() <= width {
        s
    } else if width >= 1 {
        s.take(width - 1).push('…')
    } else {
        seq!['…']
    }
}

/// Keep the end of a string, which is the useful half of a long path.
pub fn tail(text: &str, width: usize) -> (r: String)
    ensures
        r@ == tail_of(text@, width as nat),
{
    let cs = chars_of(text);
    let n = cs.len();
    if n <= width || width < 4 {
        return string_of(&cs, 0, n);
    }
    let mut s = String::new();
    push_char(&mut s, '…');
    push_range(&mut s, &cs, n - (width - 1), n);
    assert(s@ =~= tail_of(text@, width as nat));
    s
}

/// Cut a string to `width` characters, marking the cut with `…`.
pub fn truncate(text: &str, width: usize) -> (r: String)
    ensures
        r@ == truncate_of(text@, width as nat),
{
    let cs = chars_of(text);
    let n = cs.len();
    if n <= width {
        return string_of(&cs, 0, n);
    }
    let keep = if width >= 1 {
        width - 1
    } else {
        0
    };
    let mut s = string_of(&cs, 0, keep);
    push_char(&mut s, '…');
    assert(s@ =~= truncate_of(text@, width as nat));
    s
}

// ---- comparing and copying ------------------------------------------------

/// Whether two strings hold the same characters.
pub fn same_text(a: &str, b: &str) -> (r: bool)
    ensures
        r == (a@ == b@),
{
    let x = chars_of(a);
    let y = chars_of(b);
    if x.len() != y.len() {
        return false;
    }
    let mut i: usize = 0;
    while i < x.len()
        invariant
            x@ == a@,
            y@ == b@,
            x@.len() == y@.len(),
            i <= x@.len(),
            forall|t: int| 0 <= t < i ==> x@[t] == y@[t],
        decreases x@.len() - i,
    {
        if x[i] != y[i] {
            return false;
        }
        i += 1;
    }
    assert(x@ =~= y@);
    true
}

/// A fresh string holding the characters of `s`.
pub fn copy_text(s: &str) -> (r: String)
    ensures
        r@ == s@,
{
    let cs = chars_of(s);
    string_of(&cs, 0, cs.len())
}

/// The Unicode lowercase mapping of a text, the one `str::to_lowercase` applies.
pub uninterp spec fn lowercase(s: Seq<char>) -> Seq<char>;

/// `str::to_lowercase`. Its result is named `lowercase` of the argument's
/// characters; nothing more of the Unicode case mapping is stated here.
#[verifier::external_body]
pub(crate) fn to_lowercase(s: &str) -> (r: String)
    ensures
        r@ == lowercase(s@),
{
    s.to_lowercase()
}

// ---- words ---------------------------------------------------------------

/// Where the words of `cs[lo..hi]` lie, as `split_whitespace` finds them.
pub fn word_spans(cs: &Vec<char>, lo: usize, hi: usize) -> (r: Vec<(usize, usize)>)
    requires
        lo <= hi <= cs@.len(),
    ensures
        r@.len() == words(cs@.subrange(lo as int, hi as int)).len(),
        forall|i: int|
            0 <= i < r@.len() ==> {
                &&& lo <= (#[trigger] r@[i]).0 <= r@[i].1 <= hi
                &&& cs@.subrange(r@[i].0 as int, r@[i].1 as int) == words(
                    cs@.subrange(lo as int, hi as int),
                )[i]
            },
{
    let ghost all = words(cs@.subrange(lo as int, hi as int));
    let ghost mut seen: Seq<Seq<char>> = seq![];
    let mut r: Vec<(usize, usize)> = Vec::new();
    let mut i = lo;
    loop
        invariant
            lo <= i <= hi <= cs@.len(),
            all == words(cs@.subrange(lo as int, hi as int)),
            all == seen + words(cs@.subrange(i as int, hi as int)),
            r@.len() == seen.len(),
            forall|t: int|
                0 <= t < r@.len() ==> {
                    &&& lo <= (#[trigger] r@[t]).0 <= r@[t].1 <= i
                    &&& cs@.subrange(r@[t].0 as int, r@[t].1 as int) == seen[t]
                },
        decreases hi - i,
    {
        let k = skip_ws_in(cs, i, hi);
        if k == hi {
            assert(words(cs@.subrange(i as int, hi as int)) =~= Seq::<Seq<char>>::empty());
            assert(all =~= seen);
            return r;
        }
        let j = run_end_in(cs, k, hi);
        proof {
            let t = cs@.subrange(k as int, hi as int);
            lemma_trim_start_ws(cs@.subrange(i as int, hi as int));
            lemma_run_len(t);
            assert(t.take((j - k) as int) =~= cs@.subrange(k as int, j as int));
            assert(t.skip((j - k) as int) =~= cs@.subrange(j as int, hi as int));
            assert(words(cs@.subrange(i as int, hi as int)) == seq![cs@.subrange(k as int, j as int)]
                + words(cs@.subrange(j as int, hi as int)));
            assert(all =~= seen.push(cs@.subrange(k as int, j as int)) + words(
                cs@.subrange(j as int, hi as int),
            ));
            seen = seen.push(cs@.subrange(k as int, j as int));
        }
        r.push((k, j));
        i = j;
    }
}

/// `str::split_whitespace`, collected.
pub fn split_words(text: &str) -> (r: Vec<String>)
    ensures
        r@.len() == words(text@).len(),
        forall|i: int| 0 <= i < r@.len() ==> (#[trigger] r@[i])@ == words(text@)[i],
{
    let cs = chars_of(text);
    let spans = word_spans(&cs, 0, cs.len());
    assert(cs@.subrange(0, cs@.len() as int) =~= text@);
    let mut r: Vec<String> = Vec::new();
    for t in 0..spans.len()
        invariant
            cs@ == text@,
            spans@.len() == words(text@).len(),
            forall|i: int|
                0 <= i < spans@.len() ==> {
                    &&& 0 <= (#[trigger] spans@[i]).0 <= spans@[i].1 <= cs@.len()
                    &&& cs@.subrange(spans@[i].0 as int, spans@[i].1 as int) == words(text@)[i]
                },
            r@.len() == t,
            forall|i: int| 0 <= i < t ==> (#[trigger] r@[i])@ == words(text@)[i],
    {
        let (a, b) = spans[t];
        r.push(string_of(&cs, a, b));
    }
    r
}


/// Start of `cs[lo..hi]` once every leading copy of `p` is removed.
pub fn strip_all_in(cs: &Vec<char>, lo: usize, hi: usize, p: &Vec<char>) -> (k: usize)
    requires
        lo <= hi <= cs@.len(),
        p@.len() > 0,
    ensures
        lo <= k <= hi,
        cs@.subrange(k as int, hi as int) == strip_all(cs@.subrange(lo as int, hi as int), p@),
{
    let mut i = lo;
    while matches_at(cs, i, hi, p)
        invariant
            lo <= i <= hi <= cs@.len(),
            p@.len() > 0,
            strip_all(cs@.subrange(lo as int, hi as int), p@) == strip_all(
                cs@.subrange(i as int, hi as int),
                p@,
            ),
        decreases hi - i,
    {
        assert(cs@.subrange(i as int, hi as int).take(p@.len() as int) =~= cs@.subrange(
            i as int,
            i + p@.len(),
        ));
        assert(cs@.subrange(i as int, hi as int).skip(p@.len() as int) =~= cs@.subrange(
            i + p@.len(),
            hi as int,
        ));
        i = i + p.len();
    }
    assert(cs@.subrange(i as int, hi as int).take(p@.len() as int) =~= cs@.subrange(
        i as int,
        i + p@.len(),
    ) || p@.len() > hi - i);
    i
}

/// Where the first `c` in `cs[lo..hi]` is, or `hi`: the end of the text
/// `split(c).next()` gives.
pub fn first_piece_end(cs: &Vec<char>, lo: usize, hi: usize, c: char) -> (e: usize)
    requires
        lo <= hi <= cs@.len(),
    ensures
        lo <= e <= hi,
        cs@.subrange(lo as int, e as int) == before(cs@.subrange(lo as int, hi as int), c),
        e < hi <==> find(cs@.subrange(lo as int, hi as int), seq![c]) is Some,
        e < hi ==> find(cs@.subrange(lo as int, hi as int), seq![c]) == Some(e - lo),
{
    let mut p: Vec<char> = Vec::new();
    p.push(c);
    assert(p@ =~= seq![c]);
    match find_in(cs, lo, hi, &p) {
        Some(k) => {
            assert(cs@.subrange(lo as int, hi as int).take(k - lo) =~= cs@.subrange(lo as int, k as int));
            k
        },
        None => hi,
    }
}

/// The text before the first `c`, or all of it.
pub open spec fn before(s: Seq<char>, c: char) -> Seq<char> {
    match find(s, seq![c]) {
        Some(k) => s.take(k),
        None => s,
    }
}

} // verus!
