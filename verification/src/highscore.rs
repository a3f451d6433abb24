//! The high-score record: parsing the stored text form. A missing, empty or
//! corrupt record is worth zero, never an error.

use vstd::prelude::*;
use vstd::string::*;

verus! {

/// ASCII whitespace, as trimmed around a stored score.
pub open spec fn spec_is_space(c: char) -> bool {
    c == ' ' || c == '\t' || c == '\n' || c == '\r'
}

pub open spec fn spec_is_digit(c: char) -> bool {
    48 <= c as u32 <= 57
}

pub open spec fn spec_digit_val(c: char) -> int {
    c as u32 - 48
}

/// The text with its leading whitespace removed.
pub open spec fn spec_trim_start(s: Seq<char>) -> Seq<char>
    decreases s.len(),
{
    if s.len() > 0 && spec_is_space(s[0]) {
        spec_trim_start(s.drop_first())
    } else {
        s
    }
}

/// The text with its trailing whitespace removed.
pub open spec fn spec_trim_end(s: Seq<char>) -> Seq<char>
    decreases s.len(),
{
    if s.len() > 0 && spec_is_space(s.last()) {
        spec_trim_end(s.drop_last())
    } else {
        s
    }
}

pub open spec fn spec_trimmed(s: Seq<char>) -> Seq<char> {
    spec_trim_end(spec_trim_start(s))
}

pub open spec fn spec_all_digits(s: Seq<char>) -> bool {
    forall|i: int| 0 <= i < s.len() ==> spec_is_digit(#[trigger] s[i])
}

/// The number a digit string denotes, most significant digit first.
pub open spec fn spec_digits_value(s: Seq<char>) -> int
    decreases s.len(),
{
    if s.len() == 0 {
        0
    } else {
        spec_digits_value(s.drop_last()) * 10 + spec_digit_val(s.last())
    }
}

/// What a stored high-score text is worth: trim ASCII whitespace, allow one
/// leading plus sign, and read the digits — zero when anything else is left,
/// when no digit is left, or when the value does not fit the score type.
pub open spec fn spec_parse_high_score(s: Seq<char>) -> int {
    let t0 = spec_trimmed(s);
    let t = if t0.len() > 0 && t0[0] == '+' {
        t0.drop_first()
    } else {
        t0
    };
    if t.len() > 0 && spec_all_digits(t) && spec_digits_value(t) <= u32::MAX {
        spec_digits_value(t)
    } else {
        0
    }
}

proof fn lemma_trim_start_at(s: Seq<char>, k: int)
    requires
        0 <= k <= s.len(),
        forall|i: int| 0 <= i < k ==> spec_is_space(#[trigger] s[i]),
        k < s.len() ==> !spec_is_space(s[k]),
    ensures
        spec_trim_start(s) == s.subrange(k, s.len() as int),
    decreases k,
{
    if k == 0 {
        assert(s.subrange(0, s.len() as int) =~= s);
    } else {
        lemma_trim_start_at(s.drop_first(), k - 1);
        assert(s.drop_first().subrange(k - 1, s.drop_first().len() as int) =~= s.subrange(
            k,
            s.len() as int,
        ));
    }
}

proof fn lemma_trim_end_at(s: Seq<char>, k: int)
    requires
        0 <= k <= s.len(),
        forall|i: int| k <= i < s.len() ==> spec_is_space(#[trigger] s[i]),
        k > 0 ==> !spec_is_space(s[k - 1]),
    ensures
        spec_trim_end(s) == s.subrange(0, k),
    decreases s.len() - k,
{
    if k == s.len() {
        assert(s.subrange(0, k) =~= s);
    } else {
        lemma_trim_end_at(s.drop_last(), k);
        assert(s.drop_last().subrange(0, k) =~= s.subrange(0, k));
    }
}

proof fn lemma_digits_value_nonneg(s: Seq<char>)
    requires
        spec_all_digits(s),
    ensures
        spec_digits_value(s) >= 0,
    decreases s.len(),
{
    if s.len() > 0 {
        assert(spec_all_digits(s.drop_last()));
        lemma_digits_value_nonneg(s.drop_last());
    }
}

proof fn lemma_digits_value_prefix(s: Seq<char>, j: int)
    requires
        spec_all_digits(s),
        0 <= j <= s.len(),
    ensures
        spec_digits_value(s) >= spec_digits_value(s.take(j)),
    decreases s.len() - j,
{
    if j == s.len() {
        assert(s.take(j) =~= s);
    } else {
        assert(spec_all_digits(s.drop_last()));
        assert(s.drop_last().take(j) =~= s.take(j));
        lemma_digits_value_prefix(s.drop_last(), j);
        lemma_digits_value_nonneg(s.drop_last());
    }
}

fn is_space_char(c: char) -> (r: bool)
    ensures
        r == spec_is_space(c),
{
    c == ' ' || c == '\t' || c == '\n' || c == '\r'
}

/// Read a stored high score: ASCII whitespace around it is ignored, one
/// leading plus sign is allowed, and anything unreadable — stray characters,
/// no digits at all, or a value beyond the score type — is worth zero.
pub fn parse_high_score(s: &str) -> (score: u32)
    ensures
        score as int == spec_parse_high_score(s@),
{
    let n = s.unicode_len();
    let mut start: usize = 0;
    while start < n && is_space_char(s.get_char(start))
        invariant
            start <= n,
            n == s@.len(),
            forall|i: int| 0 <= i < start as int ==> spec_is_space(#[trigger] s@[i]),
        decreases n - start,
    {
        start += 1;
    }
    let mut end: usize = n;
    while end > start && is_space_char(s.get_char(end - 1))
        invariant
            start <= end <= n,
            n == s@.len(),
            forall|i: int| 0 <= i < start as int ==> spec_is_space(#[trigger] s@[i]),
            forall|i: int| end as int <= i < n as int ==> spec_is_space(#[trigger] s@[i]),
        decreases end,
    {
        end -= 1;
    }
    let ghost t0 = s@.subrange(start as int, end as int);
    proof {
        lemma_trim_start_at(s@, start as int);
        let tail = s@.subrange(start as int, n as int);
        lemma_trim_end_at(tail, end as int - start as int);
        assert(tail.subrange(0, end as int - start as int) =~= t0);
        assert(spec_trimmed(s@) == t0);
    }
    let mut idx = start;
    if idx < end && s.get_char(idx) == '+' {
        idx += 1;
    }
    let ghost t = if t0.len() > 0 && t0[0] == '+' {
        t0.drop_first()
    } else {
        t0
    };
    proof {
        assert(t =~= s@.subrange(idx as int, end as int));
    }
    if idx == end {
        return 0;
    }
    let mut val: u64 = 0;
    let mut i = idx;
    while i < end
        invariant
            idx <= i <= end,
            end <= n,
            n == s@.len(),
            t == s@.subrange(idx as int, end as int),
            t.len() == end as int - idx as int,
            spec_parse_high_score(s@) == (if t.len() > 0 && spec_all_digits(t)
                && spec_digits_value(t) <= u32::MAX {
                spec_digits_value(t)
            } else {
                0
            }),
            forall|j: int| 0 <= j < i as int - idx as int ==> spec_is_digit(#[trigger] t[j]),
            val as int == spec_digits_value(t.take(i as int - idx as int)),
            val <= u32::MAX,
        decreases end - i,
    {
        let c = s.get_char(i);
        let cv = c as u32;
        let ghost pos = i as int - idx as int;
        proof {
            assert(t[pos] == s@[i as int]);
        }
        if cv < 48 || cv > 57 {
            proof {
                assert(!spec_is_digit(t[pos]));
                assert(!spec_all_digits(t));
            }
            return 0;
        }
        let d = cv - 48;
        proof {
            assert(t.take(pos + 1).drop_last() =~= t.take(pos));
            assert(t.take(pos + 1).last() == t[pos]);
        }
        val = val * 10 + d as u64;
        if val > u32::MAX as u64 {
            proof {
                if spec_all_digits(t) {
                    lemma_digits_value_prefix(t, pos + 1);
                }
            }
            return 0;
        }
        i += 1;
    }
    proof {
        assert(t.take(end as int - idx as int) =~= t);
        assert(spec_all_digits(t));
        assert(t.len() > 0);
    }
    val as u32
}

} // verus!
