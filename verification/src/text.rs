//! Small verified text helpers: substring search over UTF-8 bytes (used by
//! the display-name filter) and decimal rendering of integers (used by the
//! telemetry display text).
//!
//! Name matching is specified over the UTF-8 byte sequences of the strings
//! involved.  Because UTF-8 is self-synchronizing, a byte-level substring
//! match of one valid UTF-8 string inside another coincides with textual
//! substring search.

use vstd::prelude::*;

verus! {

use vstd::string::StringSliceAdditionalSpecFns;
use vstd::string::StringExecFns;

/// The UTF-8 bytes of a borrowed string slice.
pub open spec fn str_bytes(s: &str) -> Seq<u8> {
    s.spec_bytes()
}

/// The UTF-8 bytes of an owned string.
pub open spec fn string_bytes(s: String) -> Seq<u8> {
    vstd::utf8::encode_utf8(s@)
}

/// `pat` occurs as a contiguous run inside `hay`.
pub open spec fn contains_seq(hay: Seq<u8>, pat: Seq<u8>) -> bool {
    exists|k: int|
        0 <= k <= hay.len() - pat.len() && pat == #[trigger] hay.subrange(
            k,
            k + pat.len() as int,
        )
}

fn match_at(hay: &[u8], pat: &[u8], k: usize) -> (r: bool)
    requires
        k + pat@.len() <= hay@.len(),
    ensures
        r == (pat@ == hay@.subrange(k as int, k + pat@.len())),
{
    let n = pat.len();
    let hn = hay.len();
    let mut j: usize = 0;
    while j < n
        invariant
            n == pat@.len(),
            hn == hay@.len(),
            k + n <= hn,
            0 <= j <= n,
            forall|m: int| 0 <= m < j ==> pat@[m] == hay@[k + m],
        decreases n - j,
    {
        if pat[j] != hay[k + j] {
            assert(pat@ != hay@.subrange(k as int, k + pat@.len())) by {
                assert(hay@.subrange(k as int, k + pat@.len())[j as int] == hay@[k + j]);
            }
            return false;
        }
        j += 1;
    }
    assert(pat@ =~= hay@.subrange(k as int, k + pat@.len()));
    true
}

/// Byte-level substring search, the executable counterpart of
/// [`contains_seq`].
pub fn bytes_contains(hay: &[u8], pat: &[u8]) -> (r: bool)
    ensures
        r == contains_seq(hay@, pat@),
{
    let n = hay.len();
    let m = pat.len();
    if m > n {
        assert(!contains_seq(hay@, pat@));
        return false;
    }
    if m == 0 {
        assert(contains_seq(hay@, pat@)) by {
            assert(pat@ == hay@.subrange(0, 0 + pat@.len() as int)) by {
                assert(pat@ =~= hay@.subrange(0, 0 + pat@.len() as int));
            }
        }
        return true;
    }
    let end = n - m + 1;
    let mut k: usize = 0;
    while k < end
        invariant
            n == hay@.len(),
            m == pat@.len(),
            0 < m <= n,
            end == n - m + 1,
            0 <= k <= end,
            forall|k2: int|
                0 <= k2 < k ==> pat@ != #[trigger] hay@.subrange(k2, k2 + pat@.len() as int),
        decreases end - k,
    {
        if match_at(hay, pat, k) {
            assert(contains_seq(hay@, pat@));
            return true;
        }
        k += 1;
    }
    assert(!contains_seq(hay@, pat@));
    false
}

/// Substring search on string slices, specified over their UTF-8 bytes.
pub fn str_contains(hay: &str, pat: &str) -> (r: bool)
    ensures
        r == contains_seq(str_bytes(hay), str_bytes(pat)),
{
    bytes_contains(hay.as_bytes(), pat.as_bytes())
}

/// String equality, specified over the UTF-8 bytes.
pub fn str_eq(a: &str, b: &str) -> (r: bool)
    ensures
        r == (str_bytes(a) == str_bytes(b)),
{
    let ab = a.as_bytes();
    let bb = b.as_bytes();
    let n = ab.len();
    if n != bb.len() {
        return false;
    }
    let mut i: usize = 0;
    while i < n
        invariant
            n == ab@.len() == bb@.len(),
            ab@ == str_bytes(a),
            bb@ == str_bytes(b),
            0 <= i <= n,
            forall|m: int| 0 <= m < i ==> ab@[m] == bb@[m],
        decreases n - i,
    {
        if ab[i] != bb[i] {
            return false;
        }
        i += 1;
    }
    assert(ab@ =~= bb@);
    true
}

/// The decimal digit character for `d`.
pub open spec fn dec_digit(d: int) -> char {
    if d == 0 {
        '0'
    } else if d == 1 {
        '1'
    } else if d == 2 {
        '2'
    } else if d == 3 {
        '3'
    } else if d == 4 {
        '4'
    } else if d == 5 {
        '5'
    } else if d == 6 {
        '6'
    } else if d == 7 {
        '7'
    } else if d == 8 {
        '8'
    } else {
        '9'
    }
}

/// The decimal representation of a non-negative integer, most significant
/// digit first.
pub open spec fn dec_rep(n: int) -> Seq<char>
    decreases n,
{
    if n < 10 {
        seq![dec_digit(n)]
    } else {
        dec_rep(n / 10).push(dec_digit(n % 10))
    }
}

/// The decimal representation of a possibly negative integer.
pub open spec fn dec_rep_signed(n: int) -> Seq<char> {
    if n < 0 {
        seq!['-'] + dec_rep(-n)
    } else {
        dec_rep(n)
    }
}

pub(crate) fn digit_str(d: u64) -> (s: &'static str)
    requires
        d < 10,
    ensures
        s@.len() == 1,
        s@[0] == dec_digit(d as int),
{
    proof {
        reveal_strlit("0");
        reveal_strlit("1");
        reveal_strlit("2");
        reveal_strlit("3");
        reveal_strlit("4");
        reveal_strlit("5");
        reveal_strlit("6");
        reveal_strlit("7");
        reveal_strlit("8");
        reveal_strlit("9");
    }
    match d {
        0 => "0",
        1 => "1",
        2 => "2",
        3 => "3",
        4 => "4",
        5 => "5",
        6 => "6",
        7 => "7",
        8 => "8",
        _ => "9",
    }
}

/// Renders `n` in decimal.
pub fn u64_to_string(n: u64) -> (s: String)
    ensures
        s@ == dec_rep(n as int),
    decreases n,
{
    if n < 10 {
        let s = String::from_str(digit_str(n));
        assert(s@ =~= dec_rep(n as int));
        s
    } else {
        let mut s = u64_to_string(n / 10);
        s.append(digit_str(n % 10));
        assert(s@ =~= dec_rep(n as int));
        s
    }
}

/// Renders `n` in decimal with a leading minus sign when negative.
pub fn i64_to_string(n: i64) -> (s: String)
    requires
        n > i64::MIN,
    ensures
        s@ == dec_rep_signed(n as int),
{
    if n < 0 {
        let mut s = String::from_str("-");
        proof {
            reveal_strlit("-");
        }
        s.append(u64_to_string((-n) as u64).as_str());
        assert(s@ =~= dec_rep_signed(n as int));
        s
    } else {
        u64_to_string(n as u64)
    }
}

} // verus!
