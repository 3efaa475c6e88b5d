//! Deterministic naming of output chunks.
//!
//! A chunk's file name is derived from the input path and the chunk index:
//! the index is spliced in front of the extension when the final path
//! segment has one, and appended to the whole path otherwise.

use vstd::prelude::*;
use vstd::string::StrSliceExecFns;
use vstd::string::StringExecFns;

verus! {

broadcast use vstd::string::group_string_axioms;

/// The character for a single decimal digit value.
pub open spec fn digit_char(d: nat) -> char {
    if d == 0 {
        '0'
    } else if d == 1 {
        '1'
    } else if d == 2 {
        '2'
    } else if d == 3 {
        '3'
    } else if d == 4 {
        '4'
    } else if d == 5 {
        '5'
    } else if d == 6 {
        '6'
    } else if d == 7 {
        '7'
    } else if d == 8 {
        '8'
    } else {
        '9'
    }
}

/// The decimal rendering of `n`: most significant digit first, no sign,
/// no leading zeros; `0` renders as the single digit `0`.
pub open spec fn dec_digits(n: nat) -> Seq<char>
    decreases n,
{
    if n < 10 {
        seq![digit_char(n)]
    } else {
        dec_digits(n / 10) + seq![digit_char(n % 10)]
    }
}

/// The one-character string for a decimal digit value.
fn digit_str(d: u32) -> (r: &'static str)
    requires
        d < 10,
    ensures
        r@ == seq![digit_char(d as nat)],
{
    proof {
        reveal_strlit("0");
        reveal_strlit("1");
        reveal_strlit("2");
        reveal_strlit("3");
        reveal_strlit("4");
        reveal_strlit("5");
        reveal_strlit("6");
        reveal_strlit("7");
        reveal_strlit("8");
        reveal_strlit("9");
    }
    let r: &'static str = if d == 0 {
        "0"
    } else if d == 1 {
        "1"
    } else if d == 2 {
        "2"
    } else if d == 3 {
        "3"
    } else if d == 4 {
        "4"
    } else if d == 5 {
        "5"
    } else if d == 6 {
        "6"
    } else if d == 7 {
        "7"
    } else if d == 8 {
        "8"
    } else {
        "9"
    };
    proof {
        assert(r@ =~= seq![digit_char(d as nat)]);
    }
    r
}

/// Appends the decimal rendering of `n` to `s`.
pub fn push_decimal(s: &mut String, n: u32)
    ensures
        final(s)@ == old(s)@ + dec_digits(n as nat),
    decreases n,
{
    if n >= 10 {
        push_decimal(s, n / 10);
        let d = digit_str(n % 10);
        s.append(d);
        proof {
            assert(final(s)@ =~= old(s)@ + dec_digits(n as nat));
        }
    } else {
        let d = digit_str(n);
        s.append(d);
        proof {
            assert(final(s)@ =~= old(s)@ + dec_digits(n as nat));
        }
    }
}

/// Index of the `.` that separates stem from extension: the last `.` of the
/// final path segment. Scanning from the right, a `.` found before any `/`
/// is the separator; a `/` (or the start of the string) first means the
/// final segment has no extension.
pub open spec fn ext_dot(s: Seq<char>) -> Option<int>
    decreases s.len(),
{
    if s.len() == 0 {
        None
    } else if s[s.len() - 1] == '.' {
        Some(s.len() - 1)
    } else if s[s.len() - 1] == '/' {
        None
    } else {
        ext_dot(s.drop_last())
    }
}

/// The name of chunk `n` of an input named `s`: `stem_n.ext` when the final
/// path segment has an extension, `s_n` otherwise.
pub open spec fn spec_new_filename(s: Seq<char>, n: nat) -> Seq<char> {
    match ext_dot(s) {
        Some(d) => s.subrange(0, d) + seq!['_'] + dec_digits(n) + seq!['.'] + s.subrange(
            d + 1,
            s.len() as int,
        ),
        None => s + seq!['_'] + dec_digits(n),
    }
}

/// Builds the file name for chunk `num` of the input named `file`.
pub fn new_filename(file: &String, num: u32) -> (r: String)
    ensures
        r@ == spec_new_filename(file@, num as nat),
{
    let s: &str = file.as_str();
    let len: usize = s.unicode_len();
    let mut i: usize = len;
    let mut dot: usize = len;
    let mut stop = false;
    proof {
        assert(file@.take(len as int) =~= file@);
    }
    while i > 0 && !stop
        invariant
            i <= len,
            len == file@.len(),
            s@ == file@,
            dot <= len,
            !stop ==> dot == len && ext_dot(file@) == ext_dot(file@.take(i as int)),
            stop ==> dot < len ==> ext_dot(file@) == Some(dot as int),
            stop ==> dot == len ==> ext_dot(file@) is None,
        decreases i, (if stop { 0int } else { 1int }),
    {
        let c = s.get_char(i - 1);
        if c == '.' {
            proof {
                assert(file@.take(i as int)[i - 1] == '.');
            }
            dot = i - 1;
            stop = true;
        } else if c == '/' {
            proof {
                assert(file@.take(i as int)[i - 1] == '/');
            }
            stop = true;
        } else {
            proof {
                assert(file@.take(i as int)[i - 1] == c);
                assert(file@.take(i as int).drop_last() =~= file@.take(i - 1));
            }
            i = i - 1;
        }
    }
    proof {
        if !stop {
            assert(file@.take(0) =~= Seq::<char>::empty());
        }
    }
    if dot < len {
        let stem = s.substring_char(0, dot);
        let ext = s.substring_char(dot + 1, len);
        let mut r = stem.to_owned();
        r.append("_");
        push_decimal(&mut r, num);
        r.append(".");
        r.append(ext);
        proof {
            reveal_strlit("_");
            reveal_strlit(".");
            assert(("_")@ =~= seq!['_']);
            assert((".")@ =~= seq!['.']);
            assert(r@ =~= spec_new_filename(file@, num as nat));
        }
        r
    } else {
        let mut r = s.to_owned();
        r.append("_");
        push_decimal(&mut r, num);
        proof {
            reveal_strlit("_");
            assert(("_")@ =~= seq!['_']);
            assert(r@ =~= spec_new_filename(file@, num as nat));
        }
        r
    }
}

} // verus!
