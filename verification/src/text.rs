use vstd::prelude::*;
use vstd::string::StrSliceExecFns;

use crate::codec::is_ws;
use crate::codec::p_skip_ws;
use crate::codec::push_char;
use crate::codec::skip_ws;
use crate::codec::ws_len;

verus! {

// ---------------------------------------------------------------------------
// Plain text normalization: trimming surrounding whitespace and upper-casing
// letters, as the prompter applies them to what the user types.
// ---------------------------------------------------------------------------

/// How many whitespace characters end `s`.
pub open spec fn trail_ws(s: Seq<char>) -> nat
    decreases s.len(),
{
    if s.len() > 0 && is_ws(s.last()) {
        1 + trail_ws(s.drop_last())
    } else {
        0
    }
}

/// `s` without its surrounding whitespace.
pub open spec fn trim_of(s: Seq<char>) -> Seq<char> {
    if skip_ws(s, 0) == s.len() {
        Seq::empty()
    } else {
        s.subrange(skip_ws(s, 0), s.len() - trail_ws(s))
    }
}

/// Skipping whitespace stops at the end or at a non-whitespace character.
proof fn lemma_skip_ws_stops(s: Seq<char>, i: int)
    requires
        0 <= i <= s.len(),
    ensures
        i <= skip_ws(s, i) <= s.len(),
        skip_ws(s, i) == s.len() || !is_ws(s[skip_ws(s, i)]),
    decreases s.len() - i,
{
    if i < s.len() && is_ws(s[i]) {
        lemma_skip_ws_stops(s, i + 1);
        assert(ws_len(s, i) == 1 + ws_len(s, i + 1));
    } else {
        assert(ws_len(s, i) == 0);
    }
}

/// The whitespace ending `s` is exactly the part from `b` on, when all of
/// that part is whitespace and what stands just before `b` is not.
proof fn lemma_trail_ws(s: Seq<char>, b: int)
    requires
        0 <= b <= s.len(),
        forall|j: int| b <= j < s.len() ==> is_ws(s[j]),
        b > 0 ==> !is_ws(s[b - 1]),
    ensures
        trail_ws(s) == s.len() - b,
    decreases s.len(),
{
    if s.len() == 0 {
    } else if b == s.len() {
        assert(trail_ws(s) == 0);
    } else {
        assert(is_ws(s.last()));
        lemma_trail_ws(s.drop_last(), b);
    }
}

/// `s` with its leading and trailing whitespace removed.
pub fn trim(s: &str) -> (r: String)
    ensures
        r@ == trim_of(s@),
{
    let n = s.unicode_len();
    let a = p_skip_ws(s, 0, n);
    proof {
        lemma_skip_ws_stops(s@, 0);
    }
    if a == n {
        return String::new();
    }
    let mut b = n;
    loop
        invariant
            n == s@.len(),
            a as int == skip_ws(s@, 0),
            a < n,
            !is_ws(s@[a as int]),
            a < b <= n,
            forall|j: int| b <= j < n ==> is_ws(s@[j]),
        decreases b,
    {
        let c = s.get_char(b - 1);
        if c == ' ' || c == '\n' || c == '\t' || c == '\r' {
            proof {
                assert(b - 1 != a);
            }
            b = b - 1;
        } else {
            proof {
                lemma_trail_ws(s@, b as int);
            }
            let t = s.substring_char(a, b);
            return t.to_owned();
        }
    }
}

/// A character upper-cased, for the letters `a` to `z`.
pub open spec fn upper_char(c: char) -> char {
    if 97 <= c as u32 && c as u32 <= 122 {
        (((c as u32) - 32) as u8) as char
    } else {
        c
    }
}

/// `s` with each of the letters `a` to `z` upper-cased.
pub open spec fn upper_of(s: Seq<char>) -> Seq<char> {
    s.map_values(|c: char| upper_char(c))
}

/// `s` upper-cased.
pub fn to_upper(s: &str) -> (r: String)
    ensures
        r@ == upper_of(s@),
{
    let n = s.unicode_len();
    let mut out = String::new();
    proof {
        assert(upper_of(s@.subrange(0, 0)) =~= Seq::<char>::empty());
    }
    let mut k: usize = 0;
    while k < n
        invariant
            n == s@.len(),
            k <= n,
            out@ == upper_of(s@.subrange(0, k as int)),
        decreases n - k,
    {
        let c = s.get_char(k);
        let v = c as u32;
        let u: char = if 97 <= v && v <= 122 {
            ((v - 32) as u8) as char
        } else {
            c
        };
        push_char(&mut out, u);
        proof {
            assert(upper_of(s@.subrange(0, k as int + 1)) =~= upper_of(
                s@.subrange(0, k as int),
            ).push(upper_char(s@[k as int])));
        }
        k = k + 1;
    }
    proof {
        assert(s@.subrange(0, n as int) =~= s@);
    }
    out
}

} // verus!
