//! Character tables and small string-building blocks shared by the parser,
//! the scanner and the formatters.

use vstd::prelude::*;

verus! {

/// The decimal digit with value `d` (callers keep `d` in `0..=9`).
pub open spec fn digit_char(d: int) -> char {
    if d == 0 {
        '0'
    } else if d == 1 {
        '1'
    } else if d == 2 {
        '2'
    } else if d == 3 {
        '3'
    } else if d == 4 {
        '4'
    } else if d == 5 {
        '5'
    } else if d == 6 {
        '6'
    } else if d == 7 {
        '7'
    } else if d == 8 {
        '8'
    } else {
        '9'
    }
}

pub open spec fn is_digit(c: char) -> bool {
    48 <= c as u32 && c as u32 <= 57
}

/// Value of a decimal digit character (callers keep `c` a digit).
pub open spec fn digit_val(c: char) -> int {
    c as u32 - 48
}

pub open spec fn all_digits(s: Seq<char>) -> bool {
    forall|i: int| 0 <= i < s.len() ==> is_digit(#[trigger] s[i])
}

/// The number denoted by a digit string, most significant digit first.
pub open spec fn digits_val(s: Seq<char>) -> int
    decreases s.len(),
{
    if s.len() == 0 {
        0
    } else {
        digits_val(s.drop_last()) * 10 + digit_val(s.last())
    }
}

/// The decimal rendering of `n`, without sign or padding.
pub open spec fn digits_of(n: int) -> Seq<char>
    decreases n,
{
    if n < 10 {
        seq![digit_char(n)]
    } else {
        digits_of(n / 10).push(digit_char(n % 10))
    }
}

/// A digit string that a `usize` quantity can be parsed from.
pub open spec fn wf_number(s: Seq<char>) -> bool {
    &&& s.len() > 0
    &&& all_digits(s)
    &&& digits_val(s) <= usize::MAX
}

pub proof fn lemma_digits_of_val(n: int)
    requires
        n >= 0,
    ensures
        digits_val(digits_of(n)) == n,
        all_digits(digits_of(n)),
        digits_of(n).len() >= 1,
    decreases n,
{
    if n < 10 {
        let s = seq![digit_char(n)];
        assert(digits_of(n) =~= s);
        assert(digits_val(Seq::<char>::empty()) == 0);
        assert(s.drop_last() =~= Seq::<char>::empty());
        assert(s.last() == digit_char(n));
        assert(digit_val(digit_char(n)) == n);
    } else {
        lemma_digits_of_val(n / 10);
        let s = digits_of(n / 10);
        let c = digit_char(n % 10);
        assert(digits_of(n) == s.push(c));
        assert(s.push(c).drop_last() =~= s);
        assert(s.push(c).last() == c);
        assert(digit_val(c) == n % 10);
        assert(digits_val(s.push(c)) == n) by {
            vstd::arithmetic::div_mod::lemma_fundamental_div_mod(n, 10);
            assert(digits_val(s.push(c)) == digits_val(s) * 10 + digit_val(c));
            assert(digits_val(s) * 10 + digit_val(c) == (n / 10) * 10 + n % 10);
        }
        assert(forall|i: int|
            0 <= i < digits_of(n).len() ==> is_digit(#[trigger] digits_of(n)[i]));
    }
}

/// Digit strings only grow in value as digits are appended on the right.
pub proof fn lemma_digits_val_prefix_le(s: Seq<char>, i: int)
    requires
        0 <= i <= s.len(),
        all_digits(s),
    ensures
        digits_val(s.take(i)) <= digits_val(s),
        digits_val(s) >= 0,
    decreases s.len() - i,
{
    if i == s.len() {
        assert(s.take(i) =~= s);
        lemma_digits_val_nonneg(s);
    } else {
        lemma_digits_val_prefix_le(s, i + 1);
        assert(s.take(i + 1).drop_last() =~= s.take(i));
        assert(s.take(i + 1).last() == s[i]);
        lemma_digits_val_nonneg(s.take(i));
    }
}

pub proof fn lemma_digits_val_nonneg(s: Seq<char>)
    requires
        all_digits(s),
    ensures
        digits_val(s) >= 0,
    decreases s.len(),
{
    if s.len() > 0 {
        assert(all_digits(s.drop_last()));
        lemma_digits_val_nonneg(s.drop_last());
    }
}

pub fn is_digit_exec(c: char) -> (b: bool)
    ensures
        b == is_digit(c),
{
    let u: u32 = c as u32;
    48 <= u && u <= 57
}

/// Appends the decimal rendering of `n` to `v`.
pub fn push_digits(v: &mut Vec<char>, n: usize)
    ensures
        final(v)@ == old(v)@ + digits_of(n as int),
    decreases n,
{
    if n >= 10 {
        push_digits(v, n / 10);
    }
    let d: usize = n % 10;
    let c: char = if d == 0 {
        '0'
    } else if d == 1 {
        '1'
    } else if d == 2 {
        '2'
    } else if d == 3 {
        '3'
    } else if d == 4 {
        '4'
    } else if d == 5 {
        '5'
    } else if d == 6 {
        '6'
    } else if d == 7 {
        '7'
    } else if d == 8 {
        '8'
    } else {
        '9'
    };
    v.push(c);
    proof {
        if n < 10 {
            assert(digits_of(n as int) =~= seq![digit_char(n as int)]);
            assert(final(v)@ =~= old(v)@ + digits_of(n as int));
        } else {
            assert(final(v)@ =~= old(v)@ + digits_of(n as int));
        }
    }
}

/// Parses the digit string `v[start..end]` as a `usize`; `None` when that
/// range is empty, holds a non-digit, or denotes a value above `usize::MAX`.
pub fn parse_usize(v: &Vec<char>, start: usize, end: usize) -> (r: Option<usize>)
    requires
        start <= end <= v@.len(),
    ensures
        r is Some <==> wf_number(v@.subrange(start as int, end as int)),
        r is Some ==> r->0 == digits_val(v@.subrange(start as int, end as int)),
{
    let ghost s = v@.subrange(start as int, end as int);
    if start == end {
        return None;
    }
    let mut acc: usize = 0;
    let mut i: usize = start;
    while i < end
        invariant
            start <= i <= end <= v@.len(),
            s == v@.subrange(start as int, end as int),
            all_digits(s.take(i - start)),
            acc == digits_val(s.take(i - start)),
        decreases end - i,
    {
        let c = v[i];
        if !is_digit_exec(c) {
            proof {
                assert(s[i - start] == c);
                assert(!is_digit(s[i - start]));
            }
            return None;
        }
        let d: usize = (c as u32 - 48) as usize;
        proof {
            assert(s.take(i + 1 - start).drop_last() =~= s.take(i - start));
            assert(s.take(i + 1 - start).last() == s[i - start]);
        }
        let next = match acc.checked_mul(10) {
            Some(m) => m.checked_add(d),
            None => None,
        };
        match next {
            Some(m) => {
                acc = m;
            },
            None => {
                proof {
                    assert(all_digits(s.take(i + 1 - start)));
                    assert(digits_val(s.take(i + 1 - start)) > usize::MAX);
                    if wf_number(s) {
                        lemma_digits_val_prefix_le(s, i + 1 - start);
                    }
                }
                return None;
            },
        }
        i = i + 1;
    }
    proof {
        assert(s.take(end - start) =~= s);
    }
    Some(acc)
}

/// Collects the characters of `s` into a vector.
pub fn chars_of(s: &str) -> (v: Vec<char>)
    ensures
        v@ == s@,
{
    let mut v: Vec<char> = Vec::new();
    for c in it: s.chars()
        invariant
            it.seq() == s@,
            v@ == it.seq().take(it.index() as int),
    {
        v.push(c);
    }
    proof {
        assert(v@ =~= s@);
    }
    v
}

/// Appends the characters of `s` to `v`.
pub fn extend_str(v: &mut Vec<char>, s: &str)
    ensures
        final(v)@ == old(v)@ + s@,
{
    for c in it: s.chars()
        invariant
            it.seq() == s@,
            v@ == old(v)@ + it.seq().take(it.index() as int),
    {
        v.push(c);
    }
    proof {
        assert(final(v)@ =~= old(v)@ + s@);
    }
}

/// Relies on `String`'s `FromIterator<char>` impl: collecting characters
/// yields a string whose characters are exactly those collected.
#[verifier::external_body]
pub fn string_from_chars(v: &Vec<char>) -> (r: String)
    ensures
        r@ == v@,
{
    v.iter().collect()
}

} // verus!

