//! Plain-text input handling: trimming, whitespace tokenizing, and parsing
//! of a small signed index, with exact specifications of each.

use vstd::prelude::*;

verus! {

/// The whitespace characters this crate recognizes.
pub open spec fn is_space(c: char) -> bool {
    c == ' ' || c == '\t' || c == '\n' || c == '\r'
}

/// How many whitespace characters `s` starts with.
pub open spec fn ws_prefix_len(s: Seq<char>) -> nat
    decreases s.len(),
{
    if s.len() > 0 && is_space(s[0]) {
        1 + ws_prefix_len(s.drop_first())
    } else {
        0
    }
}

/// How many whitespace characters `s` ends with.
pub open spec fn ws_suffix_len(s: Seq<char>) -> nat
    decreases s.len(),
{
    if s.len() > 0 && is_space(s.last()) {
        1 + ws_suffix_len(s.drop_last())
    } else {
        0
    }
}

/// `s` without leading and trailing whitespace.
pub open spec fn trim_spec(s: Seq<char>) -> Seq<char> {
    if ws_prefix_len(s) == s.len() {
        Seq::empty()
    } else {
        s.subrange(ws_prefix_len(s) as int, s.len() - ws_suffix_len(s))
    }
}

/// How many non-whitespace characters `s` starts with.
pub open spec fn nonspace_prefix_len(s: Seq<char>) -> nat
    decreases s.len(),
{
    if s.len() > 0 && !is_space(s[0]) {
        1 + nonspace_prefix_len(s.drop_first())
    } else {
        0
    }
}

pub proof fn lemma_nonspace_prefix_le(s: Seq<char>)
    ensures
        nonspace_prefix_len(s) <= s.len(),
    decreases s.len(),
{
    if s.len() > 0 && !is_space(s[0]) {
        lemma_nonspace_prefix_le(s.drop_first());
    }
}

/// The maximal whitespace-separated words of `s`, in order.
pub open spec fn tokens_spec(s: Seq<char>) -> Seq<Seq<char>>
    decreases s.len(),
    via tokens_spec_decreases
{
    if s.len() == 0 {
        Seq::empty()
    } else if is_space(s[0]) {
        tokens_spec(s.drop_first())
    } else {
        seq![s.subrange(0, nonspace_prefix_len(s) as int)] + tokens_spec(
            s.subrange(nonspace_prefix_len(s) as int, s.len() as int),
        )
    }
}

#[via_fn]
proof fn tokens_spec_decreases(s: Seq<char>) {
    lemma_nonspace_prefix_le(s);
}

/// `ws_prefix_len` equals the position of the first non-whitespace character.
pub proof fn lemma_ws_prefix_at(s: Seq<char>, k: int)
    requires
        0 <= k <= s.len(),
        forall|j: int| 0 <= j < k ==> is_space(s[j]),
        k == s.len() || !is_space(s[k]),
    ensures
        ws_prefix_len(s) == k,
    decreases k,
{
    if k == 0 {
    } else {
        assert(is_space(s[0]));
        lemma_ws_prefix_at(s.drop_first(), k - 1);
    }
}

/// `ws_suffix_len` equals the length of the maximal run of whitespace at the
/// end of `s`.
pub proof fn lemma_ws_suffix_at(s: Seq<char>, k: int)
    requires
        0 <= k <= s.len(),
        forall|j: int| s.len() - k <= j < s.len() ==> is_space(s[j]),
        k == s.len() || !is_space(s[s.len() - k - 1]),
    ensures
        ws_suffix_len(s) == k,
    decreases k,
{
    if k == 0 {
    } else {
        assert(is_space(s.last()));
        lemma_ws_suffix_at(s.drop_last(), k - 1);
    }
}

/// `nonspace_prefix_len` equals the position of the first whitespace
/// character.
pub proof fn lemma_nonspace_prefix_at(s: Seq<char>, k: int)
    requires
        0 <= k <= s.len(),
        forall|j: int| 0 <= j < k ==> !is_space(s[j]),
        k == s.len() || is_space(s[k]),
    ensures
        nonspace_prefix_len(s) == k,
    decreases k,
{
    if k == 0 {
    } else {
        assert(!is_space(s[0]));
        lemma_nonspace_prefix_at(s.drop_first(), k - 1);
    }
}

/// Whether `c` is whitespace.
pub fn is_space_char(c: char) -> (b: bool)
    ensures
        b == is_space(c),
{
    c == ' ' || c == '\t' || c == '\n' || c == '\r'
}

/// `s` without leading and trailing whitespace.
pub fn trim_chars(s: &str) -> (r: String)
    ensures
        r@ == trim_spec(s@),
{
    let n = s.unicode_len();
    let mut lo: usize = 0;
    while lo < n && is_space_char(s.get_char(lo))
        invariant
            lo <= n,
            n == s@.len(),
            forall|j: int| 0 <= j < lo ==> is_space(s@[j]),
        decreases n - lo,
    {
        lo = lo + 1;
    }
    if lo == n {
        proof {
            lemma_ws_prefix_at(s@, n as int);
        }
        return String::new();
    }
    let mut hi: usize = n;
    while is_space_char(s.get_char(hi - 1))
        invariant
            lo < hi <= n,
            n == s@.len(),
            !is_space(s@[lo as int]),
            forall|j: int| hi <= j < n ==> is_space(s@[j]),
        decreases hi,
    {
        hi = hi - 1;
    }
    let r = s.substring_char(lo, hi).to_owned();
    proof {
        lemma_ws_prefix_at(s@, lo as int);
        lemma_ws_suffix_at(s@, n - hi);
    }
    r
}

/// The maximal whitespace-separated words of `s`, in order.
pub fn split_tokens(s: &str) -> (toks: Vec<String>)
    ensures
        toks.deep_view() == tokens_spec(s@),
{
    let n = s.unicode_len();
    let mut toks: Vec<String> = Vec::new();
    let mut i: usize = 0;
    proof {
        assert(s@.subrange(0, n as int) =~= s@);
        assert(toks.deep_view() + tokens_spec(s@) =~= tokens_spec(s@));
    }
    while i < n
        invariant
            i <= n,
            n == s@.len(),
            tokens_spec(s@) == toks.deep_view() + tokens_spec(s@.subrange(i as int, n as int)),
        decreases n - i,
    {
        let ghost pending = s@.subrange(i as int, n as int);
        if is_space_char(s.get_char(i)) {
            proof {
                assert(pending.drop_first() =~= s@.subrange(i + 1, n as int));
            }
            i = i + 1;
        } else {
            let mut j = i + 1;
            while j < n && !is_space_char(s.get_char(j))
                invariant
                    i < j <= n,
                    n == s@.len(),
                    forall|m: int| i <= m < j ==> !is_space(s@[m]),
                decreases n - j,
            {
                j = j + 1;
            }
            let t = s.substring_char(i, j).to_owned();
            let ghost old_toks = toks.deep_view();
            toks.push(t);
            proof {
                assert forall|m: int| 0 <= m < j - i implies !is_space(pending[m]) by {
                    assert(pending[m] == s@[i + m]);
                }
                lemma_nonspace_prefix_at(pending, j - i);
                assert(pending.subrange(0, (j - i) as int) =~= s@.subrange(i as int, j as int));
                assert(pending.subrange((j - i) as int, pending.len() as int) =~= s@.subrange(
                    j as int,
                    n as int,
                ));
                assert(toks.deep_view() =~= old_toks.push(t@));
                assert(toks.deep_view() + tokens_spec(s@.subrange(j as int, n as int))
                    =~= old_toks + tokens_spec(pending));
            }
            i = j;
        }
    }
    proof {
        assert(s@.subrange(n as int, n as int) =~= Seq::<char>::empty());
        assert(toks.deep_view() =~= toks.deep_view() + tokens_spec(Seq::<char>::empty()));
    }
    toks
}

/// Whether `c` is a decimal digit.
pub open spec fn is_digit(c: char) -> bool {
    c == '0' || c == '1' || c == '2' || c == '3' || c == '4' || c == '5' || c == '6' || c == '7'
        || c == '8' || c == '9'
}

/// The value of a decimal digit character; other characters count as zero.
pub open spec fn digit_val(c: char) -> nat {
    if c == '1' {
        1
    } else if c == '2' {
        2
    } else if c == '3' {
        3
    } else if c == '4' {
        4
    } else if c == '5' {
        5
    } else if c == '6' {
        6
    } else if c == '7' {
        7
    } else if c == '8' {
        8
    } else if c == '9' {
        9
    } else {
        0
    }
}

/// Whether every character of `s` is a decimal digit.
pub open spec fn all_digits(s: Seq<char>) -> bool {
    forall|i: int| 0 <= i < s.len() ==> is_digit(s[i])
}

/// The value of a string of decimal digits, most significant first.
pub open spec fn digits_val(s: Seq<char>) -> nat
    decreases s.len(),
{
    if s.len() == 0 {
        0
    } else {
        digits_val(s.drop_last()) * 10 + digit_val(s.last())
    }
}

/// What parsing `s` as a signed decimal integer yields: an optional sign
/// followed by at least one digit, or nothing.
pub open spec fn parse_int_spec(s: Seq<char>) -> Option<int> {
    if s.len() == 0 {
        None
    } else {
        let neg = s[0] == '-';
        let ds = if s[0] == '-' || s[0] == '+' {
            s.drop_first()
        } else {
            s
        };
        if ds.len() > 0 && all_digits(ds) {
            if neg {
                Some(-(digits_val(ds) as int))
            } else {
                Some(digits_val(ds) as int)
            }
        } else {
            None
        }
    }
}

/// What parsing `s` as an `i8` yields: `parse_int_spec`, rejected when out
/// of the type's range.
pub open spec fn parse_i8_spec(s: Seq<char>) -> Option<int> {
    match parse_int_spec(s) {
        Some(v) => if -128 <= v <= 127 {
            Some(v)
        } else {
            None
        },
        None => None,
    }
}

/// The value of one decimal digit character, if it is one.
fn digit_value(c: char) -> (r: Option<u8>)
    ensures
        r is Some <==> is_digit(c),
        r is Some ==> r.unwrap() == digit_val(c),
{
    match c {
        '0' => Some(0),
        '1' => Some(1),
        '2' => Some(2),
        '3' => Some(3),
        '4' => Some(4),
        '5' => Some(5),
        '6' => Some(6),
        '7' => Some(7),
        '8' => Some(8),
        '9' => Some(9),
        _ => None,
    }
}

/// Parses `s` as an `i8`: an optional sign, then digits, in range.
#[verifier::loop_isolation(false)]
pub fn parse_i8_chars(s: &str) -> (r: Option<i8>)
    ensures
        match parse_i8_spec(s@) {
            Some(v) => r == Some(v as i8),
            None => r is None,
        },
{
    let n = s.unicode_len();
    if n == 0 {
        return None;
    }
    let c0 = s.get_char(0);
    let signed = c0 == '-' || c0 == '+';
    let neg = c0 == '-';
    let start: usize = if signed {
        1
    } else {
        0
    };
    if start == n {
        return None;
    }
    let ghost ds = if signed {
        s@.drop_first()
    } else {
        s@
    };
    proof {
        assert(ds =~= s@.subrange(start as int, n as int));
    }
    let mut acc: u32 = 0;
    let mut i = start;
    while i < n
        invariant
            start <= i <= n,
            n == s@.len(),
            acc <= 9999,
            ds == s@.subrange(start as int, n as int),
            forall|m: int| start <= m < i ==> is_digit(s@[m]),
            acc <= 999 ==> acc == digits_val(s@.subrange(start as int, i as int)),
            acc > 999 ==> digits_val(s@.subrange(start as int, i as int)) >= 1000,
        decreases n - i,
    {
        let c = s.get_char(i);
        let ghost before = s@.subrange(start as int, i as int);
        let ghost after = s@.subrange(start as int, i + 1);
        proof {
            assert(after.drop_last() =~= before);
            assert(after.last() == s@[i as int]);
        }
        match digit_value(c) {
            None => {
                proof {
                    assert(ds[i - start] == s@[i as int]);
                    assert(!all_digits(ds));
                }
                return None;
            },
            Some(d) => {
                if acc <= 999 {
                    acc = acc * 10 + (d as u32);
                } else {
                    proof {
                        assert(digits_val(after) == digits_val(before) * 10 + digit_val(
                            s@[i as int],
                        ));
                    }
                }
            },
        }
        i = i + 1;
    }
    proof {
        assert(s@.subrange(start as int, n as int) == ds);
        assert forall|m: int| 0 <= m < ds.len() implies is_digit(ds[m]) by {
            assert(ds[m] == s@[start + m]);
        }
        assert(all_digits(ds));
    }
    if acc > 999 {
        return None;
    }
    if neg {
        if acc > 128 {
            None
        } else {
            let v: i32 = -(acc as i32);
            Some(v as i8)
        }
    } else {
        if acc > 127 {
            None
        } else {
            Some(acc as i8)
        }
    }
}

} // verus!
