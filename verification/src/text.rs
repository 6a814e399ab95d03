//! Character-level text primitives: substring search, splitting, replacement,
//! and decimal digits.  Everything here works on `Vec<char>` / `Seq<char>`;
//! the public entry points of the other modules convert from `&str` once.

use vstd::prelude::*;
use vstd::string::StrSliceExecFns;

verus! {

/// `pat` occurs in `s` starting at position `i`.
pub open spec fn contains_at(s: Seq<char>, pat: Seq<char>, i: int) -> bool {
    0 <= i && i + pat.len() <= s.len() && s.subrange(i, i + pat.len()) == pat
}

/// `pat` occurs somewhere in `s`.
pub open spec fn contains_seq(s: Seq<char>, pat: Seq<char>) -> bool {
    exists|i: int| contains_at(s, pat, i)
}

/// `i` is the first position at which `pat` occurs in `s`.
pub open spec fn first_match_at(s: Seq<char>, pat: Seq<char>, i: int) -> bool {
    contains_at(s, pat, i) && forall|j: int| 0 <= j < i ==> !contains_at(s, pat, j)
}

/// The characters of `s`, in order.
pub fn chars_of(s: &str) -> (r: Vec<char>)
    ensures
        r@ == s@,
{
    let n = s.unicode_len();
    let mut r: Vec<char> = Vec::new();
    let mut i: usize = 0;
    while i < n
        invariant
            n == s@.len(),
            i <= n,
            r@ == s@.take(i as int),
        decreases n - i,
    {
        let c = s.get_char(i);
        r.push(c);
        proof {
            assert(s@.take(i as int).push(s@[i as int]) =~= s@.take(i + 1));
        }
        i = i + 1;
    }
    proof {
        assert(s@.take(n as int) =~= s@);
    }
    r
}

/// Builds the string of exactly the given characters.
///
/// Relies on `String`'s `FromIterator<char>` implementation from std, which
/// vstd gives no specification: collecting characters yields the string of
/// those characters in order.
#[verifier::external_body]
pub fn chars_to_string(v: &Vec<char>) -> (r: String)
    ensures
        r@ == v@,
{
    v.iter().collect()
}

/// Whether `pat` occurs in `s` at position `i`.
pub fn match_at(s: &Vec<char>, pat: &Vec<char>, i: usize) -> (r: bool)
    requires
        i + pat@.len() <= s@.len(),
    ensures
        r == contains_at(s@, pat@, i as int),
{
    let m = pat.len();
    let n = s.len();
    let mut j: usize = 0;
    while j < m
        invariant
            i + m <= n,
            n == s@.len(),
            m == pat@.len(),
            j <= m,
            forall|k: int| 0 <= k < j ==> s@[i + k] == pat@[k],
        decreases m - j,
    {
        if s[i + j] != pat[j] {
            proof {
                assert(s@.subrange(i as int, i + pat@.len())[j as int] == s@[i + j]);
            }
            return false;
        }
        j = j + 1;
    }
    proof {
        assert(s@.subrange(i as int, i + pat@.len()) =~= pat@);
    }
    true
}

/// The position of the first occurrence of `pat` in `s`, if any.
pub fn find_sub(s: &Vec<char>, pat: &Vec<char>) -> (r: Option<usize>)
    ensures
        (match r {
            Some(i) => first_match_at(s@, pat@, i as int),
            None => !contains_seq(s@, pat@),
        }),
{
    if pat.len() > s.len() {
        return None;
    }
    let last = s.len() - pat.len();
    let mut i: usize = 0;
    while i < last
        invariant
            pat@.len() <= s@.len(),
            last == s@.len() - pat@.len(),
            i <= last,
            forall|j: int| 0 <= j < i ==> !contains_at(s@, pat@, j),
        decreases last - i,
    {
        if match_at(s, pat, i) {
            return Some(i);
        }
        i = i + 1;
    }
    if match_at(s, pat, last) {
        Some(last)
    } else {
        proof {
            assert(forall|j: int| contains_at(s@, pat@, j) ==> 0 <= j <= last);
        }
        None
    }
}

/// Whether `pat` occurs anywhere in `s`.
pub fn contains_sub(s: &Vec<char>, pat: &Vec<char>) -> (r: bool)
    ensures
        r == contains_seq(s@, pat@),
{
    match find_sub(s, pat) {
        Some(_) => true,
        None => false,
    }
}

/// The pieces of `s` between occurrences of `sep`, in order.  A separator at
/// either end, or two adjacent separators, contribute empty pieces, as with
/// `str::split`.
pub open spec fn spec_split(s: Seq<char>, sep: char) -> Seq<Seq<char>>
    decreases s.len(),
{
    if s.len() == 0 {
        seq![Seq::<char>::empty()]
    } else if s[0] == sep {
        seq![Seq::<char>::empty()] + spec_split(s.drop_first(), sep)
    } else {
        let rest = spec_split(s.drop_first(), sep);
        seq![seq![s[0]] + rest[0]] + rest.drop_first()
    }
}

pub proof fn lemma_split_nonempty(s: Seq<char>, sep: char)
    ensures
        spec_split(s, sep).len() >= 1,
    decreases s.len(),
{
    if s.len() != 0 && s[0] != sep {
        lemma_split_nonempty(s.drop_first(), sep);
    }
}

/// Splits `s` at every occurrence of `sep`.
pub fn split_char(s: &Vec<char>, sep: char) -> (r: Vec<Vec<char>>)
    ensures
        r.deep_view() == spec_split(s@, sep),
{
    let ghost whole = s@;
    let n = s.len();
    let mut out: Vec<Vec<char>> = Vec::new();
    let mut cur: Vec<char> = Vec::new();
    let mut i: usize = 0;
    proof {
        lemma_split_nonempty(whole, sep);
        assert(whole.skip(0) =~= whole);
        let ss = spec_split(whole, sep);
        assert(seq![cur@ + ss[0]] + ss.drop_first() =~= ss);
    }
    while i < n
        invariant
            n == whole.len(),
            whole == s@,
            i <= n,
            spec_split(whole.skip(i as int), sep).len() >= 1,
            spec_split(whole, sep) =~= out.deep_view() + (seq![
                cur@ + spec_split(whole.skip(i as int), sep)[0],
            ] + spec_split(whole.skip(i as int), sep).drop_first()),
        decreases n - i,
    {
        let ghost tail = whole.skip(i as int);
        let ghost tail1 = whole.skip(i + 1);
        proof {
            assert(tail.len() > 0);
            assert(tail[0] == whole[i as int]);
            assert(tail.drop_first() =~= tail1);
            lemma_split_nonempty(tail1, sep);
        }
        let c = s[i];
        if c == sep {
            let ghost ss1 = spec_split(tail1, sep);
            let ghost old_out = out.deep_view();
            proof {
                assert(spec_split(tail, sep) =~= seq![Seq::<char>::empty()] + ss1);
                assert(cur@ + spec_split(tail, sep)[0] =~= cur@);
                assert(spec_split(tail, sep).drop_first() =~= ss1);
                assert(spec_split(whole, sep) =~= old_out + (seq![cur@] + ss1));
            }
            let done = cur;
            cur = Vec::new();
            out.push(done);
            proof {
                assert(out.deep_view() =~~= old_out.push(done@));
                assert(old_out + (seq![done@] + ss1) =~= old_out.push(done@) + ss1);
                assert(seq![cur@ + ss1[0]] + ss1.drop_first() =~= ss1);
                assert(spec_split(whole, sep) =~= out.deep_view() + (seq![
                    cur@ + ss1[0],
                ] + ss1.drop_first()));
            }
        } else {
            proof {
                let ss1 = spec_split(tail1, sep);
                assert(spec_split(tail, sep) =~= seq![seq![tail[0]] + ss1[0]]
                    + ss1.drop_first());
                assert(spec_split(tail, sep)[0] =~= seq![c] + ss1[0]);
                assert(cur@ + spec_split(tail, sep)[0] =~= cur@.push(c) + ss1[0]);
                assert(spec_split(tail, sep).drop_first() =~= ss1.drop_first());
            }
            cur.push(c);
        }
        i = i + 1;
    }
    let ghost old_out = out.deep_view();
    let ghost cur_v = cur@;
    proof {
        let tail = whole.skip(n as int);
        assert(tail =~= Seq::<char>::empty());
        assert(spec_split(tail, sep) =~= seq![Seq::<char>::empty()]);
        assert(cur@ + spec_split(tail, sep)[0] =~= cur@);
        assert(spec_split(tail, sep).drop_first() =~= Seq::<Seq<char>>::empty());
        assert(old_out + (seq![cur_v] + Seq::<Seq<char>>::empty()) =~= old_out.push(cur_v));
        assert(spec_split(whole, sep) =~= old_out.push(cur_v));
    }
    out.push(cur);
    proof {
        assert(out.deep_view() =~~= old_out.push(cur_v));
    }
    out
}

/// `s` with every occurrence of `pat` replaced by `repl`, scanning left to
/// right over the original text, as with `str::replace`: a match consumes the
/// pattern, and replacement text is never rescanned.  An empty pattern
/// replaces nothing.
pub open spec fn spec_replace(s: Seq<char>, pat: Seq<char>, repl: Seq<char>) -> Seq<char>
    decreases s.len(),
{
    if pat.len() == 0 || s.len() < pat.len() {
        s
    } else if s.take(pat.len() as int) == pat {
        repl + spec_replace(s.skip(pat.len() as int), pat, repl)
    } else {
        seq![s[0]] + spec_replace(s.drop_first(), pat, repl)
    }
}

/// Replaces every occurrence of `pat` in `s` with `repl`.
pub fn replace_all(s: &Vec<char>, pat: &Vec<char>, repl: &Vec<char>) -> (r: Vec<char>)
    ensures
        r@ == spec_replace(s@, pat@, repl@),
{
    let ghost whole = s@;
    if pat.len() == 0 {
        return s.clone();
    }
    let n = s.len();
    let m = pat.len();
    let mut out: Vec<char> = Vec::new();
    let mut i: usize = 0;
    proof {
        assert(whole.skip(0) =~= whole);
    }
    while i < n
        invariant
            n == whole.len(),
            whole == s@,
            m == pat@.len(),
            m >= 1,
            i <= n,
            spec_replace(whole, pat@, repl@) =~= out@ + spec_replace(
                whole.skip(i as int),
                pat@,
                repl@,
            ),
        decreases n - i,
    {
        let ghost tail = whole.skip(i as int);
        if n - i >= m && match_at(s, pat, i) {
            proof {
                assert(tail.take(m as int) =~= whole.subrange(i as int, i + m));
                assert(tail.skip(m as int) =~= whole.skip(i + m));
                assert(spec_replace(tail, pat@, repl@) =~= repl@ + spec_replace(
                    whole.skip(i + m),
                    pat@,
                    repl@,
                ));
            }
            let mut j: usize = 0;
            let rl = repl.len();
            let ghost out_before = out@;
            while j < rl
                invariant
                    rl == repl@.len(),
                    j <= rl,
                    out@ == out_before + repl@.take(j as int),
                decreases rl - j,
            {
                let c = repl[j];
                out.push(c);
                proof {
                    assert(out_before + repl@.take(j as int) + seq![repl@[j as int]]
                        =~= out_before + repl@.take(j + 1));
                }
                j = j + 1;
            }
            proof {
                assert(out@ =~= out_before + repl@);
            }
            i = i + m;
        } else {
            proof {
                assert(tail.len() > 0);
                assert(tail[0] == whole[i as int]);
                assert(tail.drop_first() =~= whole.skip(i + 1));
                if tail.len() >= m {
                    assert(tail.take(m as int) =~= whole.subrange(i as int, i + m));
                    assert(tail.take(m as int) != pat@);
                }
                assert(spec_replace(tail, pat@, repl@) =~= seq![whole[i as int]]
                    + spec_replace(whole.skip(i + 1), pat@, repl@));
            }
            let c = s[i];
            out.push(c);
            i = i + 1;
        }
    }
    proof {
        let tail = whole.skip(n as int);
        assert(tail =~= Seq::<char>::empty());
        assert(spec_replace(tail, pat@, repl@) =~= Seq::<char>::empty());
        assert(out@ =~= spec_replace(whole, pat@, repl@));
    }
    out
}

/// Whether the two character vectors hold the same text.
pub fn vec_eq(a: &Vec<char>, b: &Vec<char>) -> (r: bool)
    ensures
        r == (a@ == b@),
{
    if a.len() != b.len() {
        return false;
    }
    let n = a.len();
    let mut i: usize = 0;
    while i < n
        invariant
            n == a@.len() == b@.len(),
            i <= n,
            forall|k: int| 0 <= k < i ==> a@[k] == b@[k],
        decreases n - i,
    {
        if a[i] != b[i] {
            return false;
        }
        i = i + 1;
    }
    proof {
        assert(a@ =~= b@);
    }
    true
}

/// `c` is a decimal digit.
pub open spec fn is_digit(c: char) -> bool {
    48 <= c as int <= 57
}

/// The value of a decimal digit.
pub open spec fn digit_val(c: char) -> int {
    c as int - 48
}

/// A non-empty sequence of decimal digits.
pub open spec fn is_digit_seq(s: Seq<char>) -> bool {
    s.len() > 0 && forall|i: int| 0 <= i < s.len() ==> is_digit(#[trigger] s[i])
}

/// The number that a digit sequence denotes, most significant digit first.
pub open spec fn digits_val(s: Seq<char>) -> int
    decreases s.len(),
{
    if s.len() == 0 {
        0
    } else {
        digits_val(s.drop_last()) * 10 + digit_val(s.last())
    }
}

/// The digit character for a value 0 through 9.
pub open spec fn digit_char(d: int) -> char {
    if d == 0 {
        '0'
    } else if d == 1 {
        '1'
    } else if d == 2 {
        '2'
    } else if d == 3 {
        '3'
    } else if d == 4 {
        '4'
    } else if d == 5 {
        '5'
    } else if d == 6 {
        '6'
    } else if d == 7 {
        '7'
    } else if d == 8 {
        '8'
    } else {
        '9'
    }
}

/// The decimal digits of a non-negative number, without leading zeros
/// (a single zero for 0).
pub open spec fn spec_dec(n: int) -> Seq<char>
    decreases n,
{
    if n <= 9 {
        seq![digit_char(n)]
    } else {
        spec_dec(n / 10).push(digit_char(n % 10))
    }
}

pub proof fn lemma_digits_val_nonneg(s: Seq<char>)
    requires
        forall|i: int| 0 <= i < s.len() ==> is_digit(#[trigger] s[i]),
    ensures
        digits_val(s) >= 0,
    decreases s.len(),
{
    if s.len() > 0 {
        lemma_digits_val_nonneg(s.drop_last());
    }
}

/// A digit sequence denotes at least as much as any of its prefixes.
pub proof fn lemma_digits_val_prefix(s: Seq<char>, i: int)
    requires
        is_digit_seq(s),
        0 <= i <= s.len(),
    ensures
        digits_val(s.take(i)) <= digits_val(s),
    decreases s.len() - i,
{
    if i < s.len() {
        lemma_digits_val_prefix(s, i + 1);
        let t = s.take(i + 1);
        assert(t.drop_last() =~= s.take(i));
        lemma_digits_val_nonneg(s.take(i));
        assert(digits_val(s.take(i)) <= digits_val(t));
    } else {
        assert(s.take(i) =~= s);
    }
}

/// The decimal digits of `n` are digits, denote `n`, and hold no colon.
pub proof fn lemma_dec_digits(n: int)
    requires
        n >= 0,
    ensures
        is_digit_seq(spec_dec(n)),
        digits_val(spec_dec(n)) == n,
        !spec_dec(n).contains(':'),
    decreases n,
{
    if n <= 9 {
        assert(spec_dec(n) =~= seq![digit_char(n)]);
        assert(seq![digit_char(n)].drop_last() =~= Seq::<char>::empty());
        assert(digits_val(Seq::<char>::empty()) == 0);
        assert(seq![digit_char(n)].last() == digit_char(n));
        assert(digits_val(seq![digit_char(n)]) == digit_val(digit_char(n)));
        assert(digit_val(digit_char(n)) == n);
        assert(!spec_dec(n).contains(':'));
    } else {
        vstd::arithmetic::div_mod::lemma_fundamental_div_mod(n, 10);
        lemma_dec_digits(n / 10);
        let d = spec_dec(n);
        assert(d =~= spec_dec(n / 10).push(digit_char(n % 10)));
        assert(d.drop_last() =~= spec_dec(n / 10));
        assert(forall|i: int| 0 <= i < d.len() ==> is_digit(#[trigger] d[i]));
        assert(!d.contains(':')) by {
            assert(forall|i: int| 0 <= i < d.len() ==> #[trigger] d[i] != ':');
        }
    }
}

/// The digit value of a character, if it is one.
pub fn digit_of(c: char) -> (r: Option<u32>)
    ensures
        (match r {
            Some(d) => is_digit(c) && d == digit_val(c),
            None => !is_digit(c),
        }),
{
    let u = c as u32;
    if 48 <= u && u <= 57 {
        Some(u - 48)
    } else {
        None
    }
}

/// Parses a non-empty all-digit text as a `u32`.
pub fn parse_u32_chars(s: &Vec<char>) -> (r: Option<u32>)
    ensures
        (match r {
            Some(v) => is_digit_seq(s@) && digits_val(s@) <= u32::MAX && v == digits_val(s@),
            None => !is_digit_seq(s@) || digits_val(s@) > u32::MAX,
        }),
{
    let n = s.len();
    if n == 0 {
        return None;
    }
    let mut acc: u64 = 0;
    let mut i: usize = 0;
    while i < n
        invariant
            n == s@.len(),
            0 < n,
            i <= n,
            forall|k: int| 0 <= k < i ==> is_digit(#[trigger] s@[k]),
            acc == digits_val(s@.take(i as int)),
            acc <= u32::MAX,
        decreases n - i,
    {
        let d = match digit_of(s[i]) {
            Some(d) => d,
            None => {
                return None;
            },
        };
        proof {
            assert(s@.take(i + 1).drop_last() =~= s@.take(i as int));
        }
        acc = acc * 10 + (d as u64);
        if acc > (u32::MAX as u64) {
            proof {
                if is_digit_seq(s@) {
                    lemma_digits_val_prefix(s@, i + 1);
                }
            }
            return None;
        }
        i = i + 1;
    }
    proof {
        assert(s@.take(n as int) =~= s@);
    }
    Some(acc as u32)
}

/// The digit character for a value below ten.
pub fn digit_to_char(d: u32) -> (r: char)
    requires
        d < 10,
    ensures
        r == digit_char(d as int),
{
    match d {
        0 => '0',
        1 => '1',
        2 => '2',
        3 => '3',
        4 => '4',
        5 => '5',
        6 => '6',
        7 => '7',
        8 => '8',
        _ => '9',
    }
}

/// Appends the decimal digits of `n`.
pub fn push_dec(n: u32, out: &mut Vec<char>)
    ensures
        final(out)@ == old(out)@ + spec_dec(n as int),
    decreases n,
{
    if n >= 10 {
        push_dec(n / 10, out);
    }
    let ghost mid = out@;
    let d = digit_to_char(n % 10);
    out.push(d);
    proof {
        if n <= 9 {
            assert(old(out)@ + spec_dec(n as int) =~= out@);
        } else {
            assert(mid == old(out)@ + spec_dec(n as int / 10));
            assert(spec_dec(n as int) == spec_dec(n as int / 10).push(digit_char(n as int % 10)));
            assert(old(out)@ + spec_dec(n as int) =~= out@);
        }
    }
}

/// The characters of `s` from `from` (inclusive) to `to` (exclusive).
pub fn sub_vec(s: &Vec<char>, from: usize, to: usize) -> (r: Vec<char>)
    requires
        from <= to <= s@.len(),
    ensures
        r@ == s@.subrange(from as int, to as int),
{
    let mut out: Vec<char> = Vec::new();
    let mut i: usize = from;
    while i < to
        invariant
            from <= i <= to <= s@.len(),
            out@ == s@.subrange(from as int, i as int),
        decreases to - i,
    {
        let c = s[i];
        out.push(c);
        proof {
            assert(s@.subrange(from as int, i as int).push(s@[i as int]) =~= s@.subrange(
                from as int,
                i + 1,
            ));
        }
        i = i + 1;
    }
    out
}

/// The characters of `a` followed by those of `b`.
pub fn concat_vec(a: &Vec<char>, b: &Vec<char>) -> (r: Vec<char>)
    ensures
        r@ == a@ + b@,
{
    let mut out: Vec<char> = Vec::new();
    let na = a.len();
    let mut j: usize = 0;
    while j < na
        invariant
            na == a@.len(),
            j <= na,
            out@ == a@.take(j as int),
        decreases na - j,
    {
        let c = a[j];
        out.push(c);
        proof {
            assert(a@.take(j as int).push(a@[j as int]) =~= a@.take(j + 1));
        }
        j = j + 1;
    }
    proof {
        assert(a@.take(na as int) =~= a@);
        assert(out@ =~= a@ + b@.take(0));
    }
    let n = b.len();
    let mut i: usize = 0;
    while i < n
        invariant
            n == b@.len(),
            i <= n,
            out@ == a@ + b@.take(i as int),
        decreases n - i,
    {
        let c = b[i];
        out.push(c);
        proof {
            assert((a@ + b@.take(i as int)).push(b@[i as int]) =~= a@ + b@.take(i + 1));
        }
        i = i + 1;
    }
    proof {
        assert(b@.take(n as int) =~= b@);
    }
    out
}

/// `c` is ASCII whitespace.
pub open spec fn is_space(c: char) -> bool {
    c == ' ' || c == '\t' || c == '\r' || c == '\n'
}

/// Whether `c` is ASCII whitespace.
pub fn is_space_exec(c: char) -> (r: bool)
    ensures
        r == is_space(c),
{
    c == ' ' || c == '\t' || c == '\r' || c == '\n'
}

/// `s` without leading whitespace.
pub open spec fn spec_trim_start(s: Seq<char>) -> Seq<char>
    decreases s.len(),
{
    if s.len() > 0 && is_space(s[0]) {
        spec_trim_start(s.drop_first())
    } else {
        s
    }
}

/// `s` without trailing whitespace.
pub open spec fn spec_trim_end(s: Seq<char>) -> Seq<char>
    decreases s.len(),
{
    if s.len() > 0 && is_space(s.last()) {
        spec_trim_end(s.drop_last())
    } else {
        s
    }
}

/// `s` without leading and trailing ASCII whitespace.
pub open spec fn spec_trim(s: Seq<char>) -> Seq<char> {
    spec_trim_end(spec_trim_start(s))
}

/// Removes leading and trailing ASCII whitespace.
pub fn trim_chars(s: &Vec<char>) -> (r: Vec<char>)
    ensures
        r@ == spec_trim(s@),
{
    let n = s.len();
    let mut lo: usize = 0;
    proof {
        assert(s@.skip(0) =~= s@);
    }
    while lo < n && is_space_exec(s[lo])
        invariant
            n == s@.len(),
            lo <= n,
            spec_trim_start(s@) == spec_trim_start(s@.skip(lo as int)),
        decreases n - lo,
    {
        proof {
            assert(s@.skip(lo as int).drop_first() =~= s@.skip(lo + 1));
        }
        lo = lo + 1;
    }
    let ghost t = s@.skip(lo as int);
    proof {
        assert(spec_trim_start(t) == t);
    }
    let mut hi: usize = n;
    proof {
        assert(t.take(n - lo) =~= t);
    }
    while hi > lo && is_space_exec(s[hi - 1])
        invariant
            n == s@.len(),
            lo <= hi <= n,
            t == s@.skip(lo as int),
            spec_trim_start(s@) == t,
            spec_trim_end(t) == spec_trim_end(t.take(hi - lo)),
        decreases hi,
    {
        proof {
            let u = t.take(hi - lo);
            assert(u.last() == s@[hi - 1]);
            assert(u.drop_last() =~= t.take(hi - 1 - lo));
        }
        hi = hi - 1;
    }
    let mut out: Vec<char> = Vec::new();
    let mut i: usize = lo;
    while i < hi
        invariant
            lo <= i <= hi <= n,
            n == s@.len(),
            out@ == s@.subrange(lo as int, i as int),
        decreases hi - i,
    {
        let c = s[i];
        out.push(c);
        proof {
            assert(s@.subrange(lo as int, i as int).push(s@[i as int]) =~= s@.subrange(
                lo as int,
                i + 1,
            ));
        }
        i = i + 1;
    }
    proof {
        let u = t.take(hi - lo);
        assert(u =~= s@.subrange(lo as int, hi as int));
        if hi == lo {
            assert(spec_trim_end(u) =~= u);
        } else {
            assert(!is_space(u.last()));
            assert(spec_trim_end(u) == u);
        }
        assert(out@ == spec_trim(s@));
    }
    out
}

} // verus!
