//! Minutes-since-midnight times and their "H:MM" text form, with the
//! round-trip law between the two.

use vstd::prelude::*;

use crate::text::chars_of;
use crate::text::chars_to_string;
use crate::text::digits_val;
use crate::text::find_sub;
use crate::text::is_digit;
use crate::text::digit_val;
use crate::text::is_digit_seq;
use crate::text::lemma_dec_digits;
use crate::text::lemma_digits_val_nonneg;
use crate::text::parse_u32_chars;
use crate::text::push_dec;
use crate::text::spec_dec;
use crate::text::sub_vec;

verus! {

/// The minute count, two digits, zero-padded.
pub open spec fn spec_pad2(m: int) -> Seq<char> {
    if m <= 9 {
        seq!['0'] + spec_dec(m)
    } else {
        spec_dec(m)
    }
}

/// The "H:MM" text of a count of minutes since midnight: hours without
/// padding, minutes two digits.
pub open spec fn spec_time_str(t: int) -> Seq<char> {
    spec_dec(t / 60) + seq![':'] + spec_pad2(t % 60)
}

/// `s` splits at `i` into digits, a colon, and digits.
pub open spec fn time_split_at(s: Seq<char>, i: int) -> bool {
    &&& 0 <= i < s.len()
    &&& s[i] == ':'
    &&& is_digit_seq(s.take(i))
    &&& is_digit_seq(s.skip(i + 1))
}

/// The minute count that the split at `i` denotes.
pub open spec fn time_val_at(s: Seq<char>, i: int) -> int {
    digits_val(s.take(i)) * 60 + digits_val(s.skip(i + 1))
}

/// A well-formed "H:MM"-style text whose minute count fits a `u32`.
pub open spec fn valid_time_str(s: Seq<char>) -> bool {
    exists|i: int| #[trigger] time_split_at(s, i) && time_val_at(s, i) <= u32::MAX
}

/// The minute count a well-formed time text denotes.
pub open spec fn spec_time_val(s: Seq<char>) -> int {
    time_val_at(
        s,
        choose|i: int| #[trigger] time_split_at(s, i) && time_val_at(s, i) <= u32::MAX,
    )
}

/// A time text splits at one position only.
pub proof fn lemma_time_split_unique(s: Seq<char>, i: int, j: int)
    requires
        time_split_at(s, i),
        time_split_at(s, j),
    ensures
        i == j,
{
    if i < j {
        assert(s.skip(i + 1)[j - i - 1] == s[j]);
        assert(is_digit(s[j]));
    }
    if j < i {
        assert(s.skip(j + 1)[i - j - 1] == s[i]);
        assert(is_digit(s[i]));
    }
}

/// A leading zero does not change what digits denote.
pub proof fn lemma_digits_val_zero_prefix(s: Seq<char>)
    ensures
        digits_val(seq!['0'] + s) == digits_val(s),
    decreases s.len(),
{
    let z = seq!['0'] + s;
    if s.len() == 0 {
        assert(z =~= seq!['0']);
        assert(z.drop_last() =~= Seq::<char>::empty());
        assert(digits_val(Seq::<char>::empty()) == 0);
        assert(z.last() == '0');
        assert(digit_val('0') == 0);
    } else {
        lemma_digits_val_zero_prefix(s.drop_last());
        assert(z.drop_last() =~= seq!['0'] + s.drop_last());
        assert(z.last() == s.last());
    }
}

/// Formats minutes since midnight as "H:MM": unpadded hours, a colon, and the
/// minutes zero-padded to two digits.
pub fn format_time(time: u32) -> (r: String)
    ensures
        r@ == spec_time_str(time as int),
{
    let mut out: Vec<char> = Vec::new();
    push_dec(time / 60, &mut out);
    let ghost hours = out@;
    out.push(':');
    let ghost with_colon = out@;
    let m = time % 60;
    if m <= 9 {
        out.push('0');
        proof {
            assert(out@ =~= with_colon + seq!['0']);
        }
    }
    let ghost before_min = out@;
    push_dec(m, &mut out);
    proof {
        assert(hours == spec_dec(time as int / 60));
        assert(with_colon =~= hours + seq![':']);
        if m <= 9 {
            assert(out@ =~= hours + seq![':'] + (seq!['0'] + spec_dec(m as int)));
        } else {
            assert(out@ =~= hours + seq![':'] + spec_dec(m as int));
        }
        assert(out@ =~= spec_time_str(time as int));
    }
    chars_to_string(&out)
}

/// Parses an "H:MM"-style text back into minutes since midnight: the digits
/// before the first colon are hours, those after it minutes.
pub fn start_str_to_number(time: &str) -> (r: u32)
    requires
        valid_time_str(time@),
    ensures
        r == spec_time_val(time@),
{
    let cs = chars_of(time);
    let mut colon: Vec<char> = Vec::new();
    colon.push(':');
    proof {
        assert(colon@ =~= seq![':']);
    }
    let ghost j = choose|i: int| #[trigger] time_split_at(time@, i) && time_val_at(time@, i)
        <= u32::MAX;
    let pos = match find_sub(&cs, &colon) {
        Some(p) => p,
        None => {
            proof {
                assert(cs@.subrange(j, j + 1) =~= seq![':']);
                assert(crate::text::contains_at(cs@, colon@, j));
                assert(false);
            }
            0
        },
    };
    proof {
        assert(cs@.subrange(pos as int, pos + 1)[0] == cs@[pos as int]);
        assert(colon@[0] == ':');
        assert(cs@[pos as int] == ':');
        if pos as int != j {
            if (pos as int) < j {
                assert(time@.take(j)[pos as int] == time@[pos as int]);
                assert(is_digit(time@[pos as int]));
            } else {
                assert(cs@.subrange(j, j + 1) =~= seq![':']);
                assert(crate::text::contains_at(cs@, colon@, j));
            }
            assert(false);
        }
        lemma_digits_val_nonneg(time@.take(j));
        lemma_digits_val_nonneg(time@.skip(j + 1));
    }
    let n = cs.len();
    let h_part = sub_vec(&cs, 0, pos);
    let m_part = sub_vec(&cs, pos + 1, n);
    proof {
        assert(h_part@ =~= time@.take(j));
        assert(m_part@ =~= time@.skip(j + 1));
    }
    let h = match parse_u32_chars(&h_part) {
        Some(h) => h,
        None => {
            proof {
                assert(false);
            }
            0
        },
    };
    let m = match parse_u32_chars(&m_part) {
        Some(m) => m,
        None => {
            proof {
                assert(false);
            }
            0
        },
    };
    let total = (h as u64) * 60 + (m as u64);
    proof {
        lemma_time_split_unique(time@, j, j);
        assert(spec_time_val(time@) == time_val_at(time@, j));
    }
    total as u32
}

/// Formatting a minute count and reading the text back yields the same count:
/// the "H:MM" form of any `u32` is a well-formed time text denoting it.
pub proof fn lemma_time_round_trip(t: u32)
    ensures
        valid_time_str(spec_time_str(t as int)),
        spec_time_val(spec_time_str(t as int)) == t,
{
    let h = t as int / 60;
    let m = t as int % 60;
    vstd::arithmetic::div_mod::lemma_fundamental_div_mod(t as int, 60);
    lemma_dec_digits(h);
    lemma_dec_digits(m);
    let hs = spec_dec(h);
    let ms = spec_pad2(m);
    let s = spec_time_str(t as int);
    assert(s =~= hs + seq![':'] + ms);
    let i = hs.len() as int;
    assert(s[i] == ':');
    assert(s.take(i) =~= hs);
    assert(s.skip(i + 1) =~= ms);
    if m <= 9 {
        lemma_digits_val_zero_prefix(spec_dec(m));
        assert(is_digit_seq(ms)) by {
            assert(ms =~= seq!['0'] + spec_dec(m));
            assert(ms[0] == '0');
            assert(forall|k: int|
                1 <= k < ms.len() ==> ms[k] == spec_dec(m)[k - 1] && is_digit(#[trigger] ms[k]));
            assert(is_digit(ms[0]));
        }
    }
    assert(digits_val(ms) == m);
    assert(time_split_at(s, i));
    assert(time_val_at(s, i) == h * 60 + m);
    assert(time_val_at(s, i) == t);
    let k = choose|k: int| #[trigger] time_split_at(s, k) && time_val_at(s, k) <= u32::MAX;
    lemma_time_split_unique(s, i, k);
}

} // verus!
