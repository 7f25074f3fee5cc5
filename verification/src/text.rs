//! Text helpers: decimal rendering of integers, concatenation and string
//! comparison, each stated over the character sequence it produces.

use vstd::prelude::*;
use vstd::string::StringExecFns;

verus! {

/// The ASCII digit for `d < 10`.
pub open spec fn digit_char(d: nat) -> char {
    (('0' as nat) + d) as char
}

/// The decimal text of `n`, most significant digit first, without
/// leading zeros (`"0"` for zero).
pub open spec fn decimal_text(n: nat) -> Seq<char>
    decreases n,
{
    if n < 10 {
        seq![digit_char(n)]
    } else {
        decimal_text(n / 10).push(digit_char(n % 10))
    }
}

/// Decimal text of a signed integer: a leading `'-'` for negative values.
pub open spec fn signed_decimal_text(n: int) -> Seq<char> {
    if n < 0 {
        seq!['-'] + decimal_text((-n) as nat)
    } else {
        decimal_text(n as nat)
    }
}

/// The one-character text of the digit `d < 10`.
fn digit_string(d: u64) -> (s: String)
    requires
        d < 10,
    ensures
        s@ == seq![digit_char(d as nat)],
{
    match d {
        0 => {
            proof {
                reveal_strlit("0");
            }
            owned("0")
        },
        1 => {
            proof {
                reveal_strlit("1");
            }
            owned("1")
        },
        2 => {
            proof {
                reveal_strlit("2");
            }
            owned("2")
        },
        3 => {
            proof {
                reveal_strlit("3");
            }
            owned("3")
        },
        4 => {
            proof {
                reveal_strlit("4");
            }
            owned("4")
        },
        5 => {
            proof {
                reveal_strlit("5");
            }
            owned("5")
        },
        6 => {
            proof {
                reveal_strlit("6");
            }
            owned("6")
        },
        7 => {
            proof {
                reveal_strlit("7");
            }
            owned("7")
        },
        8 => {
            proof {
                reveal_strlit("8");
            }
            owned("8")
        },
        _ => {
            proof {
                reveal_strlit("9");
            }
            owned("9")
        },
    }
}

/// The decimal text of `n`: the digits of `n / 10`, then the last digit.
pub fn decimal_string(n: u64) -> (s: String)
    ensures
        s@ == decimal_text(n as nat),
    decreases n,
{
    if n < 10 {
        digit_string(n)
    } else {
        let mut s = decimal_string(n / 10);
        let d = digit_string(n % 10);
        s.append(d.as_str());
        s
    }
}

/// The decimal text of a signed `n`: `'-'` then the digits of `|n|` for a
/// negative `n`.
pub fn signed_decimal_string(n: i64) -> (s: String)
    ensures
        s@ == signed_decimal_text(n as int),
{
    if n < 0 {
        let m: u64 = (-(n as i128)) as u64;
        let digits = decimal_string(m);
        proof {
            reveal_strlit("-");
        }
        concat("-", digits.as_str())
    } else {
        decimal_string(n as u64)
    }
}

/// The characters of `a` followed by those of `b`.
pub fn concat(a: &str, b: &str) -> (s: String)
    ensures
        s@ == a@ + b@,
{
    let mut s = owned(a);
    s.append(b);
    s
}

/// Whether two strings hold the same characters.
pub fn str_equal(a: &str, b: &str) -> (r: bool)
    ensures
        r == (a@ == b@),
{
    let sa = owned(a);
    let sb = owned(b);
    sa == sb
}

/// Owned copy of a string slice (`str::to_owned`).
pub fn owned(a: &str) -> (s: String)
    ensures
        s@ == a@,
{
    a.to_owned()
}

/// `n` occurs in `h` as a contiguous run of characters.
pub open spec fn contains_text(h: Seq<char>, n: Seq<char>) -> bool {
    exists|i: int| 0 <= i && i + n.len() <= h.len() && #[trigger] h.subrange(i, i + n.len()) == n
}

/// Whether `needle` occurs in `hay`.
pub fn str_contains(hay: &str, needle: &str) -> (b: bool)
    ensures
        b == contains_text(hay@, needle@),
{
    let hl = hay.unicode_len();
    let nl = needle.unicode_len();
    if nl > hl {
        return false;
    }
    let mut i: usize = 0;
    while i <= hl - nl
        invariant
            hl == hay@.len(),
            nl == needle@.len(),
            nl <= hl,
            0 <= i <= hl - nl + 1,
            forall|k: int| 0 <= k < i ==> #[trigger] hay@.subrange(k, k + nl) != needle@,
        decreases hl - nl + 1 - i,
    {
        let mut j: usize = 0;
        let mut same = true;
        while j < nl
            invariant
                hl == hay@.len(),
                nl == needle@.len(),
                i + nl <= hl,
                0 <= j <= nl,
                same == forall|q: int| 0 <= q < j ==> hay@[i + q] == needle@[q],
            decreases nl - j,
        {
            if hay.get_char(i + j) != needle.get_char(j) {
                same = false;
            }
            j = j + 1;
        }
        if same {
            assert(hay@.subrange(i as int, i + nl) =~= needle@);
            return true;
        }
        proof {
            let q = choose|q: int| 0 <= q < nl && hay@[i + q] != needle@[q];
            assert(hay@.subrange(i as int, i + nl)[q] != needle@[q]);
        }
        i = i + 1;
    }
    false
}

} // verus!
