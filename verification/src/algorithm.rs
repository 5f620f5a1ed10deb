//! The Luhn checksum over textual card numbers: leading and trailing
//! whitespace is trimmed, remaining space characters are removed, and the
//! residue must be at least two characters, all decimal digits, whose
//! alternating digit sum (doubling every second digit from the right) is
//! divisible by ten.

use vstd::prelude::*;

verus! {

/// Whether `c` has the Unicode `White_Space` property, the set of characters
/// removed from the ends of the input.
pub open spec fn is_whitespace(c: char) -> bool {
    let u = c as u32;
    (0x09 <= u && u <= 0x0D) || u == 0x20 || u == 0x85 || u == 0xA0 || u == 0x1680 || (0x2000
        <= u && u <= 0x200A) || u == 0x2028 || u == 0x2029 || u == 0x202F || u == 0x205F || u
        == 0x3000
}

/// Whether `c` is an ASCII decimal digit.
pub open spec fn is_digit(c: char) -> bool {
    0x30 <= c as u32 && c as u32 <= 0x39
}

/// The numeric value of the ASCII digit `c`.
pub open spec fn digit_val(c: char) -> int {
    c as u32 - 0x30
}

/// `s` without its leading whitespace.
pub open spec fn trim_start(s: Seq<char>) -> Seq<char>
    decreases s.len(),
{
    if s.len() > 0 && is_whitespace(s[0]) {
        trim_start(s.drop_first())
    } else {
        s
    }
}

/// `s` without its trailing whitespace.
pub open spec fn trim_end(s: Seq<char>) -> Seq<char>
    decreases s.len(),
{
    if s.len() > 0 && is_whitespace(s.last()) {
        trim_end(s.drop_last())
    } else {
        s
    }
}

/// `s` with every space character removed.
pub open spec fn strip_spaces(s: Seq<char>) -> Seq<char>
    decreases s.len(),
{
    if s.len() == 0 {
        Seq::empty()
    } else if s[0] == ' ' {
        strip_spaces(s.drop_first())
    } else {
        seq![s[0]] + strip_spaces(s.drop_first())
    }
}

/// The digit candidates of the input: trim whitespace at both ends, then
/// remove the space characters that remain.
pub open spec fn normalized(s: Seq<char>) -> Seq<char> {
    strip_spaces(trim_end(trim_start(s)))
}

/// Whether every character of `t` is an ASCII decimal digit.
pub open spec fn all_digits(t: Seq<char>) -> bool {
    forall|i: int| 0 <= i < t.len() ==> is_digit(t[i])
}

/// What the digit `d` adds to the checksum when it stands `rpos` places from
/// the right end: doubled at odd distances, with the two decimal digits of
/// the doubled value summed (the same as subtracting nine when it reaches
/// ten), and unchanged at even distances.
pub open spec fn contribution(d: int, rpos: int) -> int {
    if rpos % 2 == 1 {
        if 2 * d >= 10 {
            2 * d - 9
        } else {
            2 * d
        }
    } else {
        d
    }
}

/// The Luhn checksum of the digit string `t`: the sum of each digit's
/// contribution, where the last character stands zero places from the right.
pub open spec fn luhn_sum(t: Seq<char>) -> int
    decreases t.len(),
{
    if t.len() == 0 {
        0
    } else {
        contribution(digit_val(t[0]), t.len() - 1) + luhn_sum(t.drop_first())
    }
}

/// Whether the text `s` passes the Luhn check: after normalization at least
/// two characters remain, all of them decimal digits, and their checksum is
/// divisible by ten.
pub open spec fn spec_luhn(s: Seq<char>) -> bool {
    let t = normalized(s);
    t.len() >= 2 && all_digits(t) && luhn_sum(t) % 10 == 0
}

/// Whether every character of `s` is an ASCII decimal digit or a space.
pub open spec fn digits_and_spaces(s: Seq<char>) -> bool {
    forall|i: int| 0 <= i < s.len() ==> is_digit(s[i]) || s[i] == ' '
}

/// On a string of digits and spaces, trimming the front changes nothing that
/// space removal would keep: the only leading whitespace it can strip is
/// spaces.
proof fn lemma_strip_trim_start(s: Seq<char>)
    requires
        digits_and_spaces(s),
    ensures
        strip_spaces(trim_start(s)) == strip_spaces(s),
        digits_and_spaces(trim_start(s)),
    decreases s.len(),
{
    if s.len() > 0 && is_whitespace(s[0]) {
        assert(s[0] == ' ');
        assert(digits_and_spaces(s.drop_first()));
        lemma_strip_trim_start(s.drop_first());
    }
}

/// On a string of digits and spaces, trimming the back changes nothing that
/// space removal would keep either.
proof fn lemma_strip_trim_end(s: Seq<char>)
    requires
        digits_and_spaces(s),
    ensures
        strip_spaces(trim_end(s)) == strip_spaces(s),
        digits_and_spaces(trim_end(s)),
    decreases s.len(),
{
    if s.len() > 0 && is_whitespace(s.last()) {
        assert(s.last() == ' ');
        assert(digits_and_spaces(s.drop_last()));
        lemma_strip_spaces_push(s.drop_last(), s.last());
        assert(s.drop_last().push(s.last()) =~= s);
        lemma_strip_trim_end(s.drop_last());
    }
}

/// On a string of digits and spaces, normalization is exactly space removal:
/// the trimming steps take away nothing but spaces.
pub proof fn lemma_normalized_digits_spaces(s: Seq<char>)
    requires
        digits_and_spaces(s),
    ensures
        normalized(s) == strip_spaces(s),
{
    lemma_strip_trim_start(s);
    lemma_strip_trim_end(trim_start(s));
}

/// The Luhn check of a string of digits and spaces depends only on its digit
/// sequence: two such strings that agree once their spaces are removed pass
/// or fail together, so inserting or removing spaces never changes the
/// verdict.
pub proof fn lemma_luhn_ignores_spaces(s1: Seq<char>, s2: Seq<char>)
    requires
        digits_and_spaces(s1),
        digits_and_spaces(s2),
        strip_spaces(s1) == strip_spaces(s2),
    ensures
        spec_luhn(s1) == spec_luhn(s2),
{
    lemma_normalized_digits_spaces(s1);
    lemma_normalized_digits_spaces(s2);
}

/// Removing spaces commutes with appending: a trailing space vanishes and
/// any other trailing character survives.
proof fn lemma_strip_spaces_push(s: Seq<char>, c: char)
    ensures
        strip_spaces(s.push(c)) == (if c == ' ' {
            strip_spaces(s)
        } else {
            strip_spaces(s).push(c)
        }),
    decreases s.len(),
{
    if s.len() == 0 {
        assert(s =~= Seq::<char>::empty());
        assert(s.push(c)[0] == c);
        assert(s.push(c).drop_first() =~= Seq::<char>::empty());
        if c != ' ' {
            assert(seq![c] + Seq::<char>::empty() =~= Seq::<char>::empty().push(c));
        }
    } else {
        lemma_strip_spaces_push(s.drop_first(), c);
        assert(s.push(c)[0] == s[0]);
        assert(s.push(c).drop_first() =~= s.drop_first().push(c));
        if s[0] != ' ' && c != ' ' {
            assert(seq![s[0]] + strip_spaces(s.drop_first()).push(c) =~= (seq![s[0]]
                + strip_spaces(s.drop_first())).push(c));
        }
    }
}

/// Tests the Unicode `White_Space` property of `c`.
fn is_whitespace_char(c: char) -> (r: bool)
    ensures
        r == is_whitespace(c),
{
    let u = c as u32;
    (0x09 <= u && u <= 0x0D) || u == 0x20 || u == 0x85 || u == 0xA0 || u == 0x1680 || (0x2000 <= u
        && u <= 0x200A) || u == 0x2028 || u == 0x2029 || u == 0x202F || u == 0x205F || u == 0x3000
}

/// Whether the text passes the Luhn check, exactly as `spec_luhn` states it:
/// whitespace is trimmed from both ends and spaces removed from the middle,
/// and the residue must be at least two characters, all ASCII digits, whose
/// alternating digit sum is divisible by ten. Any other character, or a
/// shorter residue, fails the check; no input is rejected by panic.
pub fn luhn(cc_number: &str) -> (r: bool)
    ensures
        r == spec_luhn(cc_number@),
{
    let ghost s = cc_number@;
    let n = cc_number.unicode_len();

    let mut start: usize = 0;
    proof {
        assert(s.skip(0) =~= s);
    }
    while start < n && is_whitespace_char(cc_number.get_char(start))
        invariant
            n == s.len(),
            s == cc_number@,
            start <= n,
            trim_start(s) == trim_start(s.skip(start as int)),
        decreases n - start,
    {
        proof {
            assert(s.skip(start as int)[0] == s[start as int]);
            assert(s.skip(start as int).drop_first() =~= s.skip(start + 1));
        }
        start += 1;
    }
    proof {
        assert(trim_start(s) == s.skip(start as int));
    }

    let mut end: usize = n;
    while end > start && is_whitespace_char(cc_number.get_char(end - 1))
        invariant
            n == s.len(),
            s == cc_number@,
            start <= end <= n,
            trim_start(s) == s.skip(start as int),
            trim_end(s.skip(start as int)) == trim_end(s.subrange(start as int, end as int)),
        decreases end,
    {
        proof {
            let sub = s.subrange(start as int, end as int);
            assert(sub.last() == s[end - 1]);
            assert(sub.drop_last() =~= s.subrange(start as int, end - 1));
        }
        end -= 1;
    }
    proof {
        assert(trim_end(trim_start(s)) == s.subrange(start as int, end as int));
    }

    let mut stripped: Vec<char> = Vec::new();
    let mut i: usize = start;
    while i < end
        invariant
            n == s.len(),
            s == cc_number@,
            start <= i <= end <= n,
            stripped@ == strip_spaces(s.subrange(start as int, i as int)),
        decreases end - i,
    {
        let c = cc_number.get_char(i);
        proof {
            lemma_strip_spaces_push(s.subrange(start as int, i as int), s[i as int]);
            assert(s.subrange(start as int, i + 1) =~= s.subrange(start as int, i as int).push(
                s[i as int],
            ));
        }
        if c != ' ' {
            stripped.push(c);
        }
        i += 1;
    }
    proof {
        assert(stripped@ == normalized(s));
    }

    let len = stripped.len();
    if len < 2 {
        return false;
    }

    let ghost t = stripped@;
    let mut sum: u128 = 0;
    let mut k: usize = 0;
    proof {
        assert(t.skip(0) =~= t);
    }
    while k < len
        invariant
            t == normalized(s),
            s == cc_number@,
            len == t.len(),
            2 <= len,
            stripped@ == t,
            k <= len,
            forall|j: int| 0 <= j < k ==> is_digit(t[j]),
            sum <= 9 * k,
            sum as int + luhn_sum(t.skip(k as int)) == luhn_sum(t),
        decreases len - k,
    {
        let c = stripped[k];
        let u = c as u32;
        if u < 0x30 || u > 0x39 {
            proof {
                assert(!is_digit(t[k as int]));
                assert(!all_digits(t));
            }
            return false;
        }
        let d = (u - 0x30) as u128;
        let rpos = len - 1 - k;
        let add_val: u128 = if rpos % 2 == 1 {
            let dd = 2 * d;
            if dd >= 10 {
                dd - 9
            } else {
                dd
            }
        } else {
            d
        };
        proof {
            let rest = t.skip(k as int);
            assert(rest[0] == t[k as int]);
            assert(rest.drop_first() =~= t.skip(k + 1));
            assert(add_val as int == contribution(digit_val(t[k as int]), rest.len() - 1));
        }
        sum = sum + add_val;
        k += 1;
    }
    proof {
        assert(t.skip(len as int) =~= Seq::<char>::empty());
        assert(sum as int == luhn_sum(t));
    }
    sum % 10 == 0
}

} // verus!
