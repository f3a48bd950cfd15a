//! Verified character-sequence utilities: trimming, splitting, substring
//! search, and decimal rendering/parsing.  The protocol and the credential
//! store state their contracts over these spec functions.

use vstd::prelude::*;

verus! {

/// The whitespace characters that trimming removes.
pub open spec fn is_space(c: char) -> bool {
    c == ' ' || c == '\t' || c == '\r' || c == '\n'
}

/// Exec mirror of `is_space`.
pub fn space(c: char) -> (r: bool)
    ensures
        r == is_space(c),
{
    c == ' ' || c == '\t' || c == '\r' || c == '\n'
}

/// `s` without its leading whitespace.
pub open spec fn trim_front(s: Seq<char>) -> Seq<char>
    decreases s.len(),
{
    if s.len() > 0 && is_space(s[0]) {
        trim_front(s.drop_first())
    } else {
        s
    }
}

/// `s` without its trailing whitespace.
pub open spec fn trim_back(s: Seq<char>) -> Seq<char>
    decreases s.len(),
{
    if s.len() > 0 && is_space(s.last()) {
        trim_back(s.drop_last())
    } else {
        s
    }
}

/// `s` without leading or trailing whitespace.
pub open spec fn trim(s: Seq<char>) -> Seq<char> {
    trim_back(trim_front(s))
}

/// The index of the first occurrence of `c` in `s`, or `s.len()` if `c`
/// does not occur.
pub open spec fn first_idx(s: Seq<char>, c: char) -> int
    decreases s.len(),
{
    if s.len() == 0 {
        0
    } else if s[0] == c {
        0
    } else {
        1 + first_idx(s.drop_first(), c)
    }
}

/// `first_idx` points at the first occurrence of `c`, or past the end.
pub proof fn lemma_first_idx(s: Seq<char>, c: char)
    ensures
        0 <= first_idx(s, c) <= s.len(),
        first_idx(s, c) < s.len() ==> s[first_idx(s, c)] == c,
        forall|j: int| 0 <= j < first_idx(s, c) ==> s[j] != c,
    decreases s.len(),
{
    if s.len() > 0 && s[0] != c {
        lemma_first_idx(s.drop_first(), c);
        let i = first_idx(s, c);
        assert forall|j: int| 0 <= j < i implies s[j] != c by {
            if j > 0 {
                assert(s.drop_first()[j - 1] != c);
            }
        }
    }
}

/// If `c` first occurs at `k`, then `first_idx` is `k`.
pub proof fn lemma_first_idx_is(s: Seq<char>, c: char, k: int)
    requires
        0 <= k <= s.len(),
        k < s.len() ==> s[k] == c,
        forall|j: int| 0 <= j < k ==> s[j] != c,
        k == s.len() ==> forall|j: int| 0 <= j < s.len() ==> s[j] != c,
    ensures
        first_idx(s, c) == k,
{
    lemma_first_idx(s, c);
    let i = first_idx(s, c);
    if i < k {
        assert(s[i] != c);
    }
    if k < i {
        assert(s[k] != c);
    }
}

/// Splitting `s` at every occurrence of `c`; the separators are dropped
/// and the pieces keep their order.  A string without `c` is one piece.
pub open spec fn split_char(s: Seq<char>, c: char) -> Seq<Seq<char>>
    decreases s.len(),
    via split_char_decreases
{
    let i = first_idx(s, c);
    if i == s.len() {
        seq![s]
    } else {
        seq![s.take(i)] + split_char(s.skip(i + 1), c)
    }
}

#[via_fn]
proof fn split_char_decreases(s: Seq<char>, c: char) {
    lemma_first_idx(s, c);
}

/// A sequence without the separator splits into itself alone.
pub proof fn lemma_split_whole(s: Seq<char>, c: char)
    requires
        forall|j: int| 0 <= j < s.len() ==> s[j] != c,
    ensures
        split_char(s, c) == seq![s],
{
    lemma_first_idx_is(s, c, s.len() as int);
}

/// Splitting a sequence that starts with a separator-free piece,
/// a separator, and a rest: the piece comes off the front.
pub proof fn lemma_split_step(a: Seq<char>, rest: Seq<char>, c: char)
    requires
        forall|j: int| 0 <= j < a.len() ==> a[j] != c,
    ensures
        split_char(a + seq![c] + rest, c) == seq![a] + split_char(rest, c),
{
    let s = a + seq![c] + rest;
    assert forall|j: int| 0 <= j < a.len() implies s[j] != c by {
        assert(s[j] == a[j]);
    }
    assert(s[a.len() as int] == c);
    lemma_first_idx_is(s, c, a.len() as int);
    assert(s.take(a.len() as int) =~= a);
    assert(s.skip(a.len() as int + 1) =~= rest);
}

/// Whether `pat` occurs somewhere in `s` as a contiguous run.
pub open spec fn contains_sub(s: Seq<char>, pat: Seq<char>) -> bool {
    exists|i: int| 0 <= i && i + pat.len() <= s.len() && #[trigger] s.subrange(i, i + pat.len()) == pat
}

/// A sequence that contains a pattern is at least as long as the pattern.
pub proof fn lemma_contains_sub_len(s: Seq<char>, pat: Seq<char>)
    requires
        contains_sub(s, pat),
    ensures
        s.len() >= pat.len(),
{
}

/// The characters of `s`, one by one.
pub fn str_chars(s: &str) -> (r: Vec<char>)
    ensures
        r@ == s@,
{
    let n = s.unicode_len();
    let mut r: Vec<char> = Vec::new();
    let mut i: usize = 0;
    while i < n
        invariant
            n == s@.len(),
            i <= n,
            r@ == s@.take(i as int),
        decreases n - i,
    {
        let c = s.get_char(i);
        r.push(c);
        assert(r@ =~= s@.take(i + 1));
        i = i + 1;
    }
    assert(r@ =~= s@);
    r
}

/// Relies on `String::push`: appends one character to the string.
#[verifier::external_body]
fn push_char(s: &mut String, c: char)
    ensures
        final(s)@ == old(s)@.push(c),
{
    s.push(c);
}

/// A `String` holding exactly the given characters.
pub fn chars_string(v: &Vec<char>) -> (r: String)
    ensures
        r@ == v@,
{
    let mut r = String::new();
    let mut i: usize = 0;
    while i < v.len()
        invariant
            i <= v@.len(),
            r@ == v@.take(i as int),
        decreases v@.len() - i,
    {
        push_char(&mut r, v[i]);
        assert(r@ =~= v@.take(i + 1));
        i = i + 1;
    }
    assert(r@ =~= v@);
    r
}

/// Whether two character vectors hold the same characters.
pub fn chars_eq(a: &Vec<char>, b: &Vec<char>) -> (r: bool)
    ensures
        r == (a@ == b@),
{
    if a.len() != b.len() {
        return false;
    }
    let mut i: usize = 0;
    while i < a.len()
        invariant
            a@.len() == b@.len(),
            i <= a@.len(),
            forall|j: int| 0 <= j < i ==> a@[j] == b@[j],
        decreases a@.len() - i,
    {
        if a[i] != b[i] {
            return false;
        }
        i = i + 1;
    }
    assert(a@ =~= b@);
    true
}

/// Whether two string slices hold the same characters.
pub fn str_eq(a: &str, b: &str) -> (r: bool)
    ensures
        r == (a@ == b@),
{
    let av = str_chars(a);
    let bv = str_chars(b);
    chars_eq(&av, &bv)
}

/// `v` without leading or trailing whitespace.
pub fn trim_chars(v: &Vec<char>) -> (r: Vec<char>)
    ensures
        r@ == trim(v@),
{
    let mut start: usize = 0;
    assert(v@.skip(0) =~= v@);
    while start < v.len() && space(v[start])
        invariant
            start <= v@.len(),
            trim_front(v@) == trim_front(v@.skip(start as int)),
        decreases v@.len() - start,
    {
        assert(v@.skip(start as int).drop_first() =~= v@.skip(start as int + 1));
        start = start + 1;
    }
    let ghost f = v@.skip(start as int);
    assert(trim_front(v@) == f);
    let mut end: usize = v.len();
    while end > start && space(v[end - 1])
        invariant
            start <= end <= v@.len(),
            f == v@.skip(start as int),
            trim_back(f) == trim_back(v@.subrange(start as int, end as int)),
        decreases end,
    {
        let ghost t = v@.subrange(start as int, end as int);
        assert(t.last() == v@[end - 1]);
        assert(t.drop_last() =~= v@.subrange(start as int, end as int - 1));
        end = end - 1;
    }
    assert(v@.subrange(start as int, end as int) =~= f.take(end - start));
    let ghost t = v@.subrange(start as int, end as int);
    assert(trim_back(t) == t);
    let mut r: Vec<char> = Vec::new();
    let mut i: usize = start;
    while i < end
        invariant
            start <= i <= end <= v@.len(),
            r@ == v@.subrange(start as int, i as int),
        decreases end - i,
    {
        r.push(v[i]);
        assert(r@ =~= v@.subrange(start as int, i as int + 1));
        i = i + 1;
    }
    assert(r@ == trim(v@));
    r
}

/// The pieces of `v` split at every occurrence of `c`.
pub fn split_vec(v: &Vec<char>, c: char) -> (r: Vec<Vec<char>>)
    ensures
        r.deep_view() == split_char(v@, c),
{
    let mut r: Vec<Vec<char>> = Vec::new();
    let mut piece: Vec<char> = Vec::new();
    let mut pstart: usize = 0;
    let mut i: usize = 0;
    assert(v@.skip(0) =~= v@);
    while i < v.len()
        invariant
            pstart <= i <= v@.len(),
            piece@ == v@.subrange(pstart as int, i as int),
            forall|j: int| pstart <= j < i ==> v@[j] != c,
            split_char(v@, c) == r.deep_view() + split_char(v@.skip(pstart as int), c),
        decreases v@.len() - i,
    {
        if v[i] == c {
            let ghost p = piece@;
            let ghost dv0 = r.deep_view();
            let ghost rest = v@.skip(i as int + 1);
            proof {
                assert(forall|j: int| 0 <= j < p.len() ==> p[j] == v@[pstart + j] && p[j] != c);
                assert(v@.skip(pstart as int) =~= p + seq![c] + rest);
                lemma_split_step(p, rest, c);
                assert(piece.deep_view() =~= p);
            }
            r.push(piece);
            proof {
                assert(r.deep_view() =~= dv0 + seq![p]);
                assert((dv0 + seq![p]) + split_char(rest, c) =~= dv0 + (seq![p] + split_char(
                    rest,
                    c,
                )));
            }
            piece = Vec::new();
            pstart = i + 1;
            assert(piece@ =~= v@.subrange(pstart as int, pstart as int));
        } else {
            piece.push(v[i]);
            assert(piece@ =~= v@.subrange(pstart as int, i as int + 1));
        }
        i = i + 1;
    }
    let ghost p = piece@;
    let ghost dv0 = r.deep_view();
    proof {
        assert(forall|j: int| 0 <= j < p.len() ==> p[j] == v@[pstart + j] && p[j] != c);
        assert(v@.skip(pstart as int) =~= p);
        lemma_split_whole(p, c);
        assert(piece.deep_view() =~= p);
    }
    r.push(piece);
    proof {
        assert(r.deep_view() =~= dv0 + seq![p]);
    }
    r
}

/// Whether `pat` occurs in `v` as a contiguous run.
pub fn vec_contains_sub(v: &Vec<char>, pat: &Vec<char>) -> (r: bool)
    ensures
        r == contains_sub(v@, pat@),
{
    if pat.len() == 0 {
        assert(v@.subrange(0, 0 + pat@.len() as int) =~= pat@);
        return true;
    }
    if pat.len() > v.len() {
        return false;
    }
    let last_start = v.len() - pat.len();
    let mut i: usize = 0;
    while i <= last_start
        invariant
            0 < pat@.len() <= v@.len(),
            v@.len() <= usize::MAX,
            last_start == v@.len() - pat@.len(),
            i <= last_start + 1,
            forall|k: int| 0 <= k < i ==> #[trigger] v@.subrange(k, k + pat@.len()) != pat@,
        decreases last_start + 1 - i,
    {
        let mut j: usize = 0;
        let mut matched = true;
        while j < pat.len()
            invariant
                0 < pat@.len(),
                v@.len() <= usize::MAX,
                i + pat@.len() <= v@.len(),
                j <= pat@.len(),
                matched ==> forall|m: int| 0 <= m < j ==> v@[i + m] == pat@[m],
                !matched ==> exists|m: int| 0 <= m < pat@.len() && #[trigger] v@[i + m] != pat@[m],
                !matched ==> j == pat@.len(),
            decreases pat@.len() - j,
        {
            if v[i + j] != pat[j] {
                assert(v@[i + j as int] != pat@[j as int]);
                matched = false;
                j = pat.len();
            } else {
                j = j + 1;
            }
        }
        if matched {
            assert(v@.subrange(i as int, i + pat@.len()) =~= pat@);
            return true;
        }
        assert(v@.subrange(i as int, i + pat@.len()) != pat@) by {
            let m = choose|m: int| 0 <= m < pat@.len() && v@[i + m] != pat@[m];
            assert(v@.subrange(i as int, i + pat@.len())[m] == v@[i + m]);
        }
        i = i + 1;
    }
    assert forall|k: int| 0 <= k && k + pat@.len() <= v@.len() implies #[trigger] v@.subrange(
        k,
        k + pat@.len(),
    ) != pat@ by {
        assert(k < i);
    }
    false
}

/// The character for one decimal digit.
pub open spec fn digit_char(d: int) -> char {
    if d == 0 {
        '0'
    } else if d == 1 {
        '1'
    } else if d == 2 {
        '2'
    } else if d == 3 {
        '3'
    } else if d == 4 {
        '4'
    } else if d == 5 {
        '5'
    } else if d == 6 {
        '6'
    } else if d == 7 {
        '7'
    } else if d == 8 {
        '8'
    } else {
        '9'
    }
}

/// Whether `c` is a decimal digit.
pub open spec fn is_digit(c: char) -> bool {
    '0' as int <= c as int <= '9' as int
}

/// The numeric value of a digit character.
pub open spec fn digit_val(c: char) -> int {
    c as int - '0' as int
}

/// The decimal rendering of `n`, most significant digit first, without
/// leading zeros (`0` renders as "0").
pub open spec fn dec_rep(n: nat) -> Seq<char>
    decreases n,
{
    if n < 10 {
        seq![digit_char(n as int)]
    } else {
        dec_rep(n / 10) + seq![digit_char((n % 10) as int)]
    }
}

/// Whether `s` is one or more decimal digits.
pub open spec fn is_digits(s: Seq<char>) -> bool {
    s.len() > 0 && forall|j: int| 0 <= j < s.len() ==> is_digit(#[trigger] s[j])
}

/// The numeric value of a digit sequence.
pub open spec fn dec_val(s: Seq<char>) -> int
    decreases s.len(),
{
    if s.len() == 0 {
        0
    } else {
        dec_val(s.drop_last()) * 10 + digit_val(s.last())
    }
}

/// The number a digit sequence denotes: its value if `s` is all digits
/// and fits, and zero otherwise.
pub open spec fn parse_dec(s: Seq<char>) -> u64 {
    if is_digits(s) && dec_val(s) <= u64::MAX {
        dec_val(s) as u64
    } else {
        0
    }
}

/// A digit sequence has a non-negative value.
pub proof fn lemma_dec_val_nonneg(s: Seq<char>)
    requires
        forall|j: int| 0 <= j < s.len() ==> is_digit(#[trigger] s[j]),
    ensures
        dec_val(s) >= 0,
    decreases s.len(),
{
    if s.len() > 0 {
        lemma_dec_val_nonneg(s.drop_last());
    }
}

/// Extending a digit sequence does not shrink its value.
pub proof fn lemma_dec_val_prefix(s: Seq<char>, k: int)
    requires
        0 <= k <= s.len(),
        forall|j: int| 0 <= j < s.len() ==> is_digit(#[trigger] s[j]),
    ensures
        dec_val(s) >= dec_val(s.take(k)),
    decreases s.len() - k,
{
    if k < s.len() {
        lemma_dec_val_prefix(s, k + 1);
        let t = s.take(k + 1);
        assert(t.drop_last() =~= s.take(k));
        assert(dec_val(t) == dec_val(s.take(k)) * 10 + digit_val(s[k]));
        assert(forall|j: int| 0 <= j < s.take(k).len() ==> is_digit(#[trigger] s.take(k)[j]));
        lemma_dec_val_nonneg(s.take(k));
    } else {
        assert(s.take(k) =~= s);
    }
}

/// The rendering of `n` is all digits and reads back as `n`.
pub proof fn lemma_dec_rep_val(n: nat)
    ensures
        is_digits(dec_rep(n)),
        dec_val(dec_rep(n)) == n,
        forall|j: int|
            0 <= j < dec_rep(n).len() ==> is_digit(#[trigger] dec_rep(n)[j]),
    decreases n,
{
    if n < 10 {
        let s = dec_rep(n);
        assert(s == seq![digit_char(n as int)]);
        assert(is_digit(digit_char(n as int)));
        assert(dec_val(s.drop_last()) == 0);
        assert(s.last() == digit_char(n as int));
        assert(dec_val(s) == digit_val(digit_char(n as int)));
        assert(digit_val(digit_char(n as int)) == n);
    } else {
        lemma_dec_rep_val(n / 10);
        let a = dec_rep(n / 10);
        let s = a + seq![digit_char((n % 10) as int)];
        assert(s.drop_last() =~= a);
        assert(s.last() == digit_char((n % 10) as int));
        assert(digit_val(digit_char((n % 10) as int)) == n % 10);
        assert(dec_val(s) == dec_val(a) * 10 + n % 10);
        assert((n / 10) * 10 + n % 10 == n) by (nonlinear_arith);
        assert forall|j: int| 0 <= j < s.len() implies is_digit(#[trigger] s[j]) by {
            if j < a.len() {
                assert(s[j] == a[j]);
            }
        }
    }
}

/// The decimal round trip: rendering and reading back is the identity.
pub proof fn lemma_dec_round_trip(n: u64)
    ensures
        parse_dec(dec_rep(n as nat)) == n,
{
    lemma_dec_rep_val(n as nat);
}

/// The code point of a character.
fn char_code(c: char) -> (r: u32)
    ensures
        r == c as int,
{
    c as u32
}

/// Exec mirror of `digit_char`.
fn digit_char_of(d: u64) -> (c: char)
    requires
        d < 10,
    ensures
        c == digit_char(d as int),
{
    if d == 0 {
        '0'
    } else if d == 1 {
        '1'
    } else if d == 2 {
        '2'
    } else if d == 3 {
        '3'
    } else if d == 4 {
        '4'
    } else if d == 5 {
        '5'
    } else if d == 6 {
        '6'
    } else if d == 7 {
        '7'
    } else if d == 8 {
        '8'
    } else {
        '9'
    }
}

/// The decimal rendering of `n` as characters.
pub fn u64_dec_chars(n: u64) -> (r: Vec<char>)
    ensures
        r@ == dec_rep(n as nat),
    decreases n,
{
    if n < 10 {
        let mut r: Vec<char> = Vec::new();
        r.push(digit_char_of(n));
        assert(r@ =~= dec_rep(n as nat));
        r
    } else {
        let mut r = u64_dec_chars(n / 10);
        r.push(digit_char_of(n % 10));
        assert(r@ =~= dec_rep((n / 10) as nat) + seq![digit_char((n % 10) as int)]);
        r
    }
}

/// The number a digit vector denotes; zero when it is not all digits or
/// does not fit.
pub fn parse_dec_chars(v: &Vec<char>) -> (r: u64)
    ensures
        r == parse_dec(v@),
{
    if v.len() == 0 {
        return 0;
    }
    let mut acc: u64 = 0;
    let mut i: usize = 0;
    while i < v.len()
        invariant
            0 < v@.len(),
            i <= v@.len(),
            forall|j: int| 0 <= j < i ==> is_digit(#[trigger] v@[j]),
            acc == dec_val(v@.take(i as int)),
        decreases v@.len() - i,
    {
        let c = v[i];
        let cv = char_code(c);
        if cv < '0' as u32 || cv > '9' as u32 {
            assert(!is_digit(v@[i as int]));
            return 0;
        }
        let d = (cv - '0' as u32) as u64;
        assert(d == digit_val(v@[i as int]));
        assert(d <= 9);
        proof {
            assert(v@.take(i + 1).drop_last() =~= v@.take(i as int));
            assert(v@.take(i + 1).last() == v@[i as int]);
        }
        if acc > (u64::MAX - d) / 10 {
            proof {
                assert(acc * 10 + d > u64::MAX) by (nonlinear_arith)
                    requires
                        acc > (u64::MAX - d) / 10,
                        d <= 9,
                ;
                assert(dec_val(v@.take(i + 1)) > u64::MAX);
                if is_digits(v@) {
                    lemma_dec_val_prefix(v@, i + 1);
                    assert(dec_val(v@) > u64::MAX);
                }
            }
            return 0;
        }
        proof {
            assert(acc * 10 + d <= u64::MAX) by (nonlinear_arith)
                requires
                    acc <= (u64::MAX - d) / 10,
                    d <= 9,
            ;
        }
        acc = acc * 10 + d;
        i = i + 1;
    }
    proof {
        assert(v@.take(v@.len() as int) =~= v@);
        lemma_dec_val_nonneg(v@);
    }
    acc
}

} // verus!
