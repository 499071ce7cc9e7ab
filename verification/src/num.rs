//! Base-ten text for unsigned numbers: reading them the way the standard
//! library's `usize` parser does, and printing them digit by digit.

use vstd::prelude::*;
use vstd::string::StrSliceExecFns;

verus! {

/// Relies on String::push: appends the one character to the end of the string.
pub assume_specification[ String::push ](s: &mut String, c: char)
    ensures
        final(s)@ == old(s)@ + seq![c],
;

/// True of the ten ASCII digit characters.
pub open spec fn is_digit(c: char) -> bool {
    48 <= c as u32 <= 57
}

/// Numeric value of an ASCII digit character.
pub open spec fn digit_val(c: char) -> nat {
    (c as u32 - 48) as nat
}

/// The digit character for a value below ten.
pub open spec fn digit_char(d: nat) -> char {
    if d == 0 {
        '0'
    } else if d == 1 {
        '1'
    } else if d == 2 {
        '2'
    } else if d == 3 {
        '3'
    } else if d == 4 {
        '4'
    } else if d == 5 {
        '5'
    } else if d == 6 {
        '6'
    } else if d == 7 {
        '7'
    } else if d == 8 {
        '8'
    } else {
        '9'
    }
}

/// Value of a sequence of digit characters read in base ten.
pub open spec fn dec_value(s: Seq<char>) -> nat
    decreases s.len(),
{
    if s.len() == 0 {
        0
    } else {
        dec_value(s.drop_last()) * 10 + digit_val(s.last())
    }
}

/// The base-ten digit characters of `n`, most significant first.
pub open spec fn dec_digits(n: nat) -> Seq<char>
    decreases n,
{
    if n < 10 {
        seq![digit_char(n)]
    } else {
        dec_digits(n / 10).push(digit_char(n % 10))
    }
}

/// True when every character of `s` is an ASCII digit.
pub open spec fn all_digits(s: Seq<char>) -> bool {
    forall|i: int| 0 <= i < s.len() ==> is_digit(s[i])
}

/// What `usize::from_str` accepts: an optional leading plus sign, then one
/// or more digits whose value fits in a `usize`.
pub open spec fn spec_parse_usize(s: Seq<char>) -> Option<nat> {
    let t = if s.len() > 0 && s[0] == '+' {
        s.drop_first()
    } else {
        s
    };
    if t.len() > 0 && all_digits(t) && dec_value(t) <= usize::MAX as nat {
        Some(dec_value(t))
    } else {
        None
    }
}

/// Reading a longer run of digits never yields a smaller value.
pub proof fn lemma_dec_value_extend(s: Seq<char>, i: int, k: int, j: int)
    requires
        0 <= i <= k <= j <= s.len(),
    ensures
        dec_value(s.subrange(i, j)) >= dec_value(s.subrange(i, k)),
    decreases j - k,
{
    if k < j {
        lemma_dec_value_extend(s, i, k, j - 1);
        let sub = s.subrange(i, j);
        assert(sub.drop_last() =~= s.subrange(i, j - 1));
        assert(dec_value(sub) == dec_value(s.subrange(i, j - 1)) * 10 + digit_val(sub.last()));
        assert(dec_value(s.subrange(i, j - 1)) * 10 >= dec_value(s.subrange(i, j - 1)));
    } else {
        assert(s.subrange(i, j) =~= s.subrange(i, k));
    }
}

/// The digit character at `d` below ten, as executable code.
pub fn digit_to_char(d: usize) -> (c: char)
    requires
        d < 10,
    ensures
        c == digit_char(d as nat),
{
    if d == 0 {
        '0'
    } else if d == 1 {
        '1'
    } else if d == 2 {
        '2'
    } else if d == 3 {
        '3'
    } else if d == 4 {
        '4'
    } else if d == 5 {
        '5'
    } else if d == 6 {
        '6'
    } else if d == 7 {
        '7'
    } else if d == 8 {
        '8'
    } else {
        '9'
    }
}

/// Prints `n` in base ten, most significant digit first.
pub fn usize_to_string(n: usize) -> (r: String)
    ensures
        r@ == dec_digits(n as nat),
    decreases n,
{
    if n < 10 {
        let mut s = String::new();
        s.push(digit_to_char(n));
        proof {
            assert(s@ =~= seq![digit_char(n as nat)]);
        }
        s
    } else {
        let mut s = usize_to_string(n / 10);
        s.push(digit_to_char(n % 10));
        proof {
            assert(s@ =~= dec_digits(n as nat / 10).push(digit_char(n as nat % 10)));
        }
        s
    }
}

/// True when the character at `j` is an ASCII digit.
pub(crate) fn digit_at(s: &str, j: usize) -> (r: bool)
    requires
        j < s@.len(),
    ensures
        r == is_digit(s@[j as int]),
{
    let c = s.get_char(j);
    let u = c as u32;
    48 <= u && u <= 57
}

/// Reads the whole of `s` as an unsigned base-ten number, accepting exactly
/// what `usize::from_str` accepts.
pub fn parse_usize(s: &str) -> (r: Option<usize>)
    ensures
        spec_parse_usize(s@) matches Some(n) ==> (r matches Some(v) && v as nat == n),
        spec_parse_usize(s@) is None ==> r is None,
{
    let n = s.unicode_len();
    let start: usize = if n > 0 && s.get_char(0) == '+' {
        1
    } else {
        0
    };
    let ghost t = if start == 1 {
        s@.drop_first()
    } else {
        s@
    };
    proof {
        assert(t =~= s@.subrange(start as int, n as int));
        assert(t == (if s@.len() > 0 && s@[0] == '+' {
            s@.drop_first()
        } else {
            s@
        }));
    }
    if start >= n {
        return None;
    }
    let mut i: usize = start;
    let mut acc: usize = 0;
    while i < n
        invariant
            start <= i <= n,
            n == s@.len(),
            t == s@.subrange(start as int, n as int),
            t == (if s@.len() > 0 && s@[0] == '+' {
                s@.drop_first()
            } else {
                s@
            }),
            all_digits(s@.subrange(start as int, i as int)),
            acc as nat == dec_value(s@.subrange(start as int, i as int)),
        decreases n - i,
    {
        if !digit_at(s, i) {
            proof {
                assert(t[i as int - start as int] == s@[i as int]);
                assert(!all_digits(t));
            }
            return None;
        }
        let c = s.get_char(i);
        let d = (c as u32 - 48) as usize;
        let ghost prefix = s@.subrange(start as int, i as int);
        let ghost prefix2 = s@.subrange(start as int, i as int + 1);
        proof {
            assert(prefix2.drop_last() =~= prefix);
            assert(dec_value(prefix2) == acc as nat * 10 + d as nat);
        }
        if acc > (usize::MAX - d) / 10 {
            proof {
                assert(acc as nat * 10 + d as nat > usize::MAX as nat) by (nonlinear_arith)
                    requires
                        acc as nat > ((usize::MAX - d) as nat) / 10,
                        d < 10,
                ;
                lemma_dec_value_extend(s@, start as int, i as int + 1, n as int);
                assert(dec_value(t) > usize::MAX as nat);
            }
            return None;
        }
        proof {
            assert(acc as nat * 10 + d as nat <= usize::MAX as nat) by (nonlinear_arith)
                requires
                    acc as nat <= ((usize::MAX - d) as nat) / 10,
                    d < 10,
            ;
            assert(forall|k: int|
                0 <= k < prefix2.len() ==> #[trigger] prefix2[k] == s@[start as int + k]);
        }
        acc = acc * 10 + d;
        i += 1;
    }
    proof {
        assert(s@.subrange(start as int, i as int) =~= t);
    }
    Some(acc)
}

} // verus!
