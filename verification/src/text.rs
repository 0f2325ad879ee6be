//! Verified text utilities: decimal rendering of integers, string equality,
//! and first-occurrence substring search with a splitting model, all specified
//! over `Seq<char>` views.

use vstd::prelude::*;
use vstd::string::StrSliceExecFns;
use vstd::string::StringExecFns;
use vstd::string::StringSliceAdditionalSpecFns;

verus! {

/// The character for the decimal digit `d` (meaningful for `0 <= d < 10`).
pub open spec fn digit_char(d: int) -> char {
    if d == 0 {
        '0'
    } else if d == 1 {
        '1'
    } else if d == 2 {
        '2'
    } else if d == 3 {
        '3'
    } else if d == 4 {
        '4'
    } else if d == 5 {
        '5'
    } else if d == 6 {
        '6'
    } else if d == 7 {
        '7'
    } else if d == 8 {
        '8'
    } else {
        '9'
    }
}

/// The decimal rendering of `n`: most significant digit first, no sign, no
/// leading zeros (and `"0"` for zero).
pub open spec fn dec_str(n: nat) -> Seq<char>
    decreases n,
{
    if n < 10 {
        seq![digit_char(n as int)]
    } else {
        dec_str(n / 10) + seq![digit_char((n % 10) as int)]
    }
}

/// The number of bytes in the UTF-8 encoding of `s`, as the running machine
/// measures it.
pub open spec fn str_byte_len(s: &str) -> nat {
    s.spec_bytes().len() as usize as nat
}

fn digit_str(d: u64) -> (r: &'static str)
    requires
        d < 10,
    ensures
        r@ == seq![digit_char(d as int)],
{
    proof {
        reveal_strlit("0");
        reveal_strlit("1");
        reveal_strlit("2");
        reveal_strlit("3");
        reveal_strlit("4");
        reveal_strlit("5");
        reveal_strlit("6");
        reveal_strlit("7");
        reveal_strlit("8");
        reveal_strlit("9");
    }
    let r = if d == 0 {
        "0"
    } else if d == 1 {
        "1"
    } else if d == 2 {
        "2"
    } else if d == 3 {
        "3"
    } else if d == 4 {
        "4"
    } else if d == 5 {
        "5"
    } else if d == 6 {
        "6"
    } else if d == 7 {
        "7"
    } else if d == 8 {
        "8"
    } else {
        "9"
    };
    proof {
        assert(r@ =~= seq![digit_char(d as int)]);
    }
    r
}

/// Render `n` in decimal.
pub fn u64_to_string(n: u64) -> (r: String)
    ensures
        r@ == dec_str(n as nat),
    decreases n,
{
    if n < 10 {
        digit_str(n).to_owned()
    } else {
        let mut prefix = u64_to_string(n / 10);
        prefix.append(digit_str(n % 10));
        proof {
            assert(prefix@ =~= dec_str(n as nat));
        }
        prefix
    }
}

/// Compare two strings character by character.
pub fn str_eq(a: &str, b: &str) -> (r: bool)
    ensures
        r == (a@ == b@),
{
    let alen = a.unicode_len();
    let blen = b.unicode_len();
    if alen != blen {
        return false;
    }
    let mut i: usize = 0;
    while i < alen
        invariant
            i <= alen,
            alen == a@.len(),
            alen == b@.len(),
            forall|j: int| 0 <= j < i ==> a@[j] == b@[j],
        decreases alen - i,
    {
        if a.get_char(i) != b.get_char(i) {
            return false;
        }
        i = i + 1;
    }
    proof {
        assert(a@ =~= b@);
    }
    true
}

/// The index of the first occurrence of `pat` in `s`, or `-1` when `pat`
/// occurs nowhere in `s`.
pub open spec fn find_pat(s: Seq<char>, pat: Seq<char>) -> int
    decreases s.len(),
{
    if pat.len() > s.len() {
        -1
    } else if s.subrange(0, pat.len() as int) =~= pat {
        0
    } else if s.len() == 0 {
        -1
    } else {
        let r = find_pat(s.subrange(1, s.len() as int), pat);
        if r == -1 {
            -1
        } else {
            r + 1
        }
    }
}

/// Where `pat` is a single character that `a` is free of, the first
/// occurrence of `pat` in `a + pat + b` stands exactly at the end of `a`.
pub proof fn lemma_find_single_after(a: Seq<char>, pat: Seq<char>, b: Seq<char>)
    requires
        pat.len() == 1,
        forall|i: int| 0 <= i < a.len() ==> a[i] != pat[0],
    ensures
        find_pat(a + pat + b, pat) == a.len(),
    decreases a.len(),
{
    let w = a + pat + b;
    if a.len() == 0 {
        assert(w.subrange(0, 1) =~= pat);
    } else {
        assert(w.subrange(0, 1)[0] == a[0]);
        assert(w.subrange(1, w.len() as int) =~= a.subrange(1, a.len() as int) + pat + b);
        lemma_find_single_after(a.subrange(1, a.len() as int), pat, b);
    }
}

/// Where `pat` really occurs at `k` and nowhere earlier, `find_pat` finds it
/// at `k`.
pub proof fn lemma_find_pat_first_at(w: Seq<char>, pat: Seq<char>, k: int)
    requires
        1 <= pat.len(),
        0 <= k,
        k + pat.len() <= w.len(),
        w.subrange(k, k + pat.len() as int) == pat,
        forall|j: int| 0 <= j < k ==> #[trigger] w.subrange(j, j + pat.len() as int) != pat,
    ensures
        find_pat(w, pat) == k,
    decreases w.len(),
{
    if k > 0 {
        let tail = w.subrange(1, w.len() as int);
        assert(w.subrange(0, 0 + pat.len() as int) != pat);
        assert(w.subrange(0, pat.len() as int) != pat);
        assert(tail.subrange(k - 1, k - 1 + pat.len() as int) =~= w.subrange(
            k,
            k + pat.len() as int,
        ));
        assert forall|j: int| 0 <= j < k - 1 implies #[trigger] tail.subrange(
            j,
            j + pat.len() as int,
        ) != pat by {
            assert(tail.subrange(j, j + pat.len() as int) =~= w.subrange(
                j + 1,
                j + 1 + pat.len() as int,
            ));
        }
        lemma_find_pat_first_at(tail, pat, k - 1);
    }
}

/// Where `pat` occurs nowhere in `s`, `find_pat` reports so.
pub proof fn lemma_find_pat_none(s: Seq<char>, pat: Seq<char>)
    requires
        1 <= pat.len(),
        forall|j: int| 0 <= j && j + pat.len() <= s.len() ==> #[trigger] s.subrange(
            j,
            j + pat.len() as int,
        ) != pat,
    ensures
        find_pat(s, pat) == -1,
    decreases s.len(),
{
    if pat.len() > s.len() {
    } else if s.len() == 0 {
    } else {
        assert(s.subrange(0, 0 + pat.len() as int) != pat);
        assert(s.subrange(0, pat.len() as int) != pat);
        let tail = s.subrange(1, s.len() as int);
        assert forall|j: int| 0 <= j && j + pat.len() <= tail.len() implies #[trigger] tail.subrange(
            j,
            j + pat.len() as int,
        ) != pat by {
            assert(tail.subrange(j, j + pat.len() as int) =~= s.subrange(
                j + 1,
                j + 1 + pat.len() as int,
            ));
        }
        lemma_find_pat_none(tail, pat);
    }
}

/// Where `s` is free of the first character of `pat`, `pat` occurs nowhere in
/// `s`.
pub proof fn lemma_find_pat_none_of_first(s: Seq<char>, pat: Seq<char>)
    requires
        1 <= pat.len(),
        forall|i: int| 0 <= i < s.len() ==> s[i] != pat[0],
    ensures
        find_pat(s, pat) == -1,
{
    assert forall|j: int| 0 <= j && j + pat.len() <= s.len() implies #[trigger] s.subrange(
        j,
        j + pat.len() as int,
    ) != pat by {
        assert(s.subrange(j, j + pat.len() as int)[0] == s[j]);
    }
    lemma_find_pat_none(s, pat);
}

/// `s` split at every occurrence of `pat`, in order; the result always has at
/// least one element, and a string free of `pat` splits into itself alone.
pub open spec fn split_all(s: Seq<char>, pat: Seq<char>) -> Seq<Seq<char>>
    decreases s.len(),
{
    let f = find_pat(s, pat);
    if 0 <= f && 1 <= pat.len() && f + pat.len() <= s.len() {
        seq![s.subrange(0, f)] + split_all(s.subrange(f + pat.len(), s.len() as int), pat)
    } else {
        seq![s]
    }
}

fn str_prefix(s: &str, pat: &str) -> (r: bool)
    requires
        pat@.len() <= s@.len(),
    ensures
        r == (s@.subrange(0, pat@.len() as int) =~= pat@),
{
    let plen = pat.unicode_len();
    let mut i: usize = 0;
    while i < plen
        invariant
            i <= plen,
            plen == pat@.len(),
            pat@.len() <= s@.len(),
            forall|j: int| 0 <= j < i ==> s@[j] == pat@[j],
        decreases plen - i,
    {
        if s.get_char(i) != pat.get_char(i) {
            proof {
                assert(s@.subrange(0, pat@.len() as int)[i as int] == s@[i as int]);
            }
            return false;
        }
        i = i + 1;
    }
    proof {
        assert(s@.subrange(0, pat@.len() as int) =~= pat@);
    }
    true
}

/// Locate the first occurrence of `pat` in `s`.
pub fn find(s: &str, pat: &str) -> (r: Option<usize>)
    requires
        1 <= pat@.len(),
    ensures
        (match r {
            Some(i) => find_pat(s@, pat@) == i as int && i + pat@.len() <= s@.len()
                && s@.subrange(i as int, i as int + pat@.len() as int) =~= pat@,
            None => find_pat(s@, pat@) == -1,
        }),
    decreases s@.len(),
{
    let slen = s.unicode_len();
    let plen = pat.unicode_len();
    if plen > slen {
        return None;
    }
    if str_prefix(s, pat) {
        return Some(0);
    }
    let tail = s.substring_char(1, slen);
    match find(tail, pat) {
        Some(i) => {
            proof {
                assert(s@.subrange(i as int + 1, i as int + 1 + pat@.len() as int)
                    =~= tail@.subrange(i as int, i as int + pat@.len() as int));
            }
            Some(i + 1)
        },
        None => None,
    }
}

} // verus!
