//! Decimal text for the language's numbers: turning an integer into its
//! digit string and reading an integer back out of a lexeme.

use vstd::prelude::*;
use crate::text::chars_to_string;
use crate::text::push_char;

verus! {

/// A digit value turned into its ASCII character.
pub open spec fn digit_char(d: int) -> char
    recommends
        0 <= d < 10,
{
    (('0' as u8) + d) as char
}

/// Decimal digits of a natural number, most significant first.
pub open spec fn nat_digits(n: nat) -> Seq<char>
    decreases n,
{
    if n < 10 {
        seq![digit_char(n as int)]
    } else {
        nat_digits(n / 10) + seq![digit_char(n as int % 10)]
    }
}

/// Decimal text of an integer: a minus sign for negative values, then digits.
pub open spec fn int_str(n: int) -> Seq<char> {
    if n < 0 {
        seq!['-'] + nat_digits((-n) as nat)
    } else {
        nat_digits(n as nat)
    }
}

/// Decimal digits of `n`, most significant first.
pub fn u64_digits(n: u64) -> (r: Vec<char>)
    ensures
        r@ == nat_digits(n as nat),
    decreases n,
{
    if n < 10 {
        let c: char = (('0' as u8) + (n as u8)) as char;
        let mut v: Vec<char> = Vec::new();
        v.push(c);
        proof {
            assert(v@ =~= nat_digits(n as nat));
        }
        v
    } else {
        let mut v = u64_digits(n / 10);
        let c: char = (('0' as u8) + ((n % 10) as u8)) as char;
        v.push(c);
        proof {
            assert(v@ =~= nat_digits(n as nat));
        }
        v
    }
}

/// The decimal text of `n`.
pub fn int_to_string(n: i64) -> (r: String)
    ensures
        r@ == int_str(n as int),
{
    if n >= 0 {
        let digits = u64_digits(n as u64);
        chars_to_string(&digits)
    } else {
        let mag: u64 = (-(n as i128)) as u64;
        let digits = u64_digits(mag);
        let mut r = String::new();
        push_char(&mut r, '-');
        let tail = chars_to_string(&digits);
        let r2 = r.concat(tail.as_str());
        proof {
            assert(r2@ =~= int_str(n as int));
        }
        r2
    }
}

/// Integer division rounding toward zero, as machine division does.
pub open spec fn trunc_div(x: int, y: int) -> int
    recommends
        y != 0,
{
    if x == 0 {
        0
    } else if x > 0 && y > 0 {
        x / y
    } else if x < 0 && y < 0 {
        (x * -1) / (y * -1)
    } else if x < 0 {
        ((x * -1) / y) * -1
    } else {
        (x / (y * -1)) * -1
    }
}

/// The remainder matching truncated division: same sign as the dividend.
pub open spec fn trunc_rem(x: int, y: int) -> int
    recommends
        y != 0,
{
    if x == 0 {
        0
    } else if x > 0 && y > 0 {
        x % y
    } else if x < 0 && y < 0 {
        ((x * -1) % (y * -1)) * -1
    } else if x < 0 {
        ((x * -1) % y) * -1
    } else {
        x % (y * -1)
    }
}

/// Whether `c` is an ASCII decimal digit.
pub open spec fn spec_is_digit(c: char) -> bool {
    ('0' as u32) <= (c as u32) <= ('9' as u32)
}

/// The value of a digit character.
pub open spec fn digit_val(c: char) -> int {
    (c as u32) - ('0' as u32)
}

/// Whether every character of `s` is a decimal digit.
pub open spec fn all_digits(s: Seq<char>) -> bool {
    forall|i: int| 0 <= i < s.len() ==> spec_is_digit(#[trigger] s[i])
}

/// The value of a nonempty digit string, most significant first.
pub open spec fn digits_val(s: Seq<char>) -> int
    decreases s.len(),
{
    if s.len() == 0 {
        0
    } else {
        digits_val(s.drop_last()) * 10 + digit_val(s.last())
    }
}

/// Whether `s` is a decimal integer lexeme: an optional minus sign followed
/// by one or more digits.
pub open spec fn is_int_lexeme(s: Seq<char>) -> bool {
    if s.len() > 0 && s[0] == '-' {
        s.len() > 1 && all_digits(s.skip(1))
    } else {
        s.len() > 0 && all_digits(s)
    }
}

/// The integer a valid lexeme denotes.
pub open spec fn int_of_lexeme(s: Seq<char>) -> int {
    if s.len() > 0 && s[0] == '-' {
        -digits_val(s.skip(1))
    } else {
        digits_val(s)
    }
}

pub fn is_digit(c: char) -> (r: bool)
    ensures
        r == spec_is_digit(c),
{
    let u = c as u32;
    ('0' as u32) <= u && u <= ('9' as u32)
}

/// Reads the value of a digit run, keeping a running total bounded so the
/// arithmetic stays exact; fails once the total can no longer fit in `i64`.
fn digits_to_val(s: &Vec<char>, from: usize) -> (r: Option<u64>)
    requires
        from < s@.len(),
        all_digits(s@.skip(from as int)),
    ensures
        match r {
            Some(v) => v == digits_val(s@.skip(from as int)) && v <= i64::MAX as u64 + 1,
            None => digits_val(s@.skip(from as int)) > i64::MAX as u64 + 1,
        },
{
    let ghost whole = s@.skip(from as int);
    let bound: u64 = 9223372036854775808u64;
    let mut acc: u64 = 0;
    let mut i: usize = from;
    proof {
        lemma_digits_val_nonneg(whole);
    }
    while i < s.len()
        invariant
            from <= i <= s@.len(),
            whole == s@.skip(from as int),
            all_digits(whole),
            whole.len() == s@.len() - from,
            acc == digits_val(whole.take(i - from)),
            acc <= bound,
            bound == i64::MAX as u64 + 1,
        decreases s@.len() - i,
    {
        let c = s[i];
        proof {
            assert(whole[i - from] == s@[i as int]);
            assert(spec_is_digit(c));
        }
        let du: u32 = c as u32 - '0' as u32;
        let d: u64 = du as u64;
        proof {
            let pre = whole.take(i - from);
            let post = whole.take(i + 1 - from);
            assert(post.drop_last() =~= pre);
            assert(post.last() == c);
            lemma_all_digits_take(whole, i - from);
            lemma_digits_val_nonneg(pre);
            lemma_digits_val_prefix_grows(whole, i + 1 - from);
        }
        if acc > (bound - d) / 10 {
            proof {
                let post = whole.take(i + 1 - from);
                assert(digits_val(post) == acc * 10 + d);
                assert(digits_val(post) > bound);
                lemma_digits_val_prefix_le(whole, i + 1 - from);
            }
            return None;
        }
        acc = acc * 10 + d;
        i += 1;
    }
    proof {
        assert(whole.take(i - from) =~= whole);
    }
    Some(acc)
}

/// Every prefix of a digit string is itself a digit string.
proof fn lemma_all_digits_take(s: Seq<char>, k: int)
    requires
        0 <= k <= s.len(),
        all_digits(s),
    ensures
        all_digits(s.take(k)),
{
    assert forall|j: int| 0 <= j < s.take(k).len() implies spec_is_digit(#[trigger] s.take(k)[j]) by {
        assert(s.take(k)[j] == s[j]);
    }
}

/// A digit string denotes a nonnegative value.
pub proof fn lemma_digits_val_nonneg(s: Seq<char>)
    requires
        all_digits(s),
    ensures
        digits_val(s) >= 0,
    decreases s.len(),
{
    if s.len() > 0 {
        assert(spec_is_digit(s.last()));
        lemma_all_digits_take(s, s.len() - 1);
        assert(s.drop_last() =~= s.take(s.len() - 1));
        lemma_digits_val_nonneg(s.drop_last());
    }
}

/// A digit prefix is worth no more than the whole string.
proof fn lemma_digits_val_prefix_le(s: Seq<char>, k: int)
    requires
        0 <= k <= s.len(),
        all_digits(s),
    ensures
        digits_val(s.take(k)) <= digits_val(s),
    decreases s.len() - k,
{
    if k < s.len() {
        lemma_digits_val_prefix_grows(s, k + 1);
        lemma_all_digits_take(s, k);
        lemma_digits_val_nonneg(s.take(k));
        lemma_digits_val_prefix_le(s, k + 1);
    } else {
        assert(s.take(k) =~= s);
    }
}

/// Extending a digit prefix never shrinks its value.
proof fn lemma_digits_val_prefix_grows(s: Seq<char>, k: int)
    requires
        0 < k <= s.len(),
        all_digits(s),
    ensures
        digits_val(s.take(k)) >= digits_val(s.take(k - 1)),
        digits_val(s.take(k)) == digits_val(s.take(k - 1)) * 10 + digit_val(s[k - 1]),
{
    let post = s.take(k);
    assert(post.drop_last() =~= s.take(k - 1));
    assert(post.last() == s[k - 1]);
    lemma_all_digits_take(s, k - 1);
    lemma_digits_val_nonneg(s.take(k - 1));
    assert(spec_is_digit(s[k - 1]));
}

/// Reads an integer lexeme: an optional minus sign then digits.  Returns the
/// denoted value exactly when the lexeme is well formed and the value fits in
/// an `i64`.
pub fn parse_int(s: &Vec<char>) -> (r: Option<i64>)
    ensures
        match r {
            Some(v) => is_int_lexeme(s@) && v as int == int_of_lexeme(s@),
            None => !(is_int_lexeme(s@) && i64::MIN <= int_of_lexeme(s@) <= i64::MAX),
        },
{
    if s.len() == 0 {
        return None;
    }
    let neg = s[0] == '-';
    let from: usize = if neg { 1 } else { 0 };
    if from >= s.len() {
        return None;
    }
    // every character after the sign must be a digit
    let mut i: usize = from;
    while i < s.len()
        invariant
            from <= i <= s@.len(),
            from < s@.len(),
            neg == (s@[0] == '-'),
            from == if neg { 1int } else { 0int },
            forall|j: int| from <= j < i ==> spec_is_digit(#[trigger] s@[j]),
        decreases s@.len() - i,
    {
        if !is_digit(s[i]) {
            proof {
                assert(!spec_is_digit(s@[i as int]));
                if neg {
                    assert(s@.skip(1)[i - 1] == s@[i as int]);
                    assert(!all_digits(s@.skip(1)));
                } else {
                    assert(!all_digits(s@));
                }
                assert(!is_int_lexeme(s@));
            }
            return None;
        }
        i += 1;
    }
    proof {
        assert(forall|j: int| 0 <= j < s@.skip(from as int).len()
            ==> s@.skip(from as int)[j] == s@[j + from]);
        assert(all_digits(s@.skip(from as int)));
    }
    let mag = match digits_to_val(s, from) {
        Some(m) => m,
        None => {
            proof {
                if neg {
                    assert(digits_val(s@.skip(1)) > i64::MAX as u64 + 1);
                    assert(int_of_lexeme(s@) == -digits_val(s@.skip(1)));
                    assert(int_of_lexeme(s@) < i64::MIN);
                } else {
                    assert(s@.skip(0) =~= s@);
                    assert(int_of_lexeme(s@) == digits_val(s@));
                    assert(int_of_lexeme(s@) > i64::MAX);
                }
            }
            return None;
        },
    };
    if neg {
        if mag > 9223372036854775808u64 {
            return None;
        }
        let v: i64 = (-(mag as i128)) as i64;
        proof {
            assert(v as int == -digits_val(s@.skip(1)));
        }
        Some(v)
    } else {
        proof {
            assert(s@.skip(0) =~= s@);
        }
        if mag > i64::MAX as u64 {
            return None;
        }
        Some(mag as i64)
    }
}

} // verus!
