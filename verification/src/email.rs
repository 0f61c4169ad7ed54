use vstd::prelude::*;

verus! {

/// ASCII code points used by the grammar.
pub const CH_A_LOWER: u8 = 97;

pub const CH_Z_LOWER: u8 = 122;

pub const CH_0: u8 = 48;

pub const CH_9: u8 = 57;

pub const CH_UNDERSCORE: u8 = 95;

pub const CH_PLUS: u8 = 43;

pub const CH_DOT: u8 = 46;

pub const CH_HYPHEN: u8 = 45;

pub const CH_AT: u8 = 64;

// Registration emails must match a fixed grammar: a local part made of
// lower-case letters, digits, `_` and `+`, with inner `.` allowed but not
// at either end; an `@`; and a domain made of alphanumeric labels joined
// by single `-` or `.` separators, ending in a `.` and a 2-to-6 letter
// top-level domain.

pub open spec fn is_lower(c: u8) -> bool {
    CH_A_LOWER <= c && c <= CH_Z_LOWER
}

pub open spec fn is_digit(c: u8) -> bool {
    CH_0 <= c && c <= CH_9
}

pub open spec fn is_alnum(c: u8) -> bool {
    is_lower(c) || is_digit(c)
}

/// Characters allowed at the ends (and anywhere) in the local part.
pub open spec fn is_local_plain(c: u8) -> bool {
    is_alnum(c) || c == CH_UNDERSCORE || c == CH_PLUS
}

/// Characters allowed strictly inside the local part.
pub open spec fn is_local_char(c: u8) -> bool {
    is_local_plain(c) || c == CH_DOT
}

pub open spec fn is_domain_sep(c: u8) -> bool {
    c == CH_HYPHEN || c == CH_DOT
}

pub open spec fn is_body_char(c: u8) -> bool {
    is_alnum(c) || is_domain_sep(c)
}

/// The part before the `@`: nonempty, every character from the local
/// class, and no leading or trailing dot.
pub open spec fn valid_local(s: Seq<u8>) -> bool {
    &&& s.len() >= 1
    &&& is_local_plain(s[0])
    &&& is_local_plain(s[s.len() - 1])
    &&& forall|i: int| 0 <= i < s.len() ==> is_local_char(#[trigger] s[i])
}

/// The top-level domain: two to six lower-case letters.
pub open spec fn valid_tld(s: Seq<u8>) -> bool {
    &&& 2 <= s.len() <= 6
    &&& forall|i: int| 0 <= i < s.len() ==> is_lower(#[trigger] s[i])
}

/// The domain up to (not including) the final dot: alphanumeric labels
/// joined by single `-` or `.` separators.
pub open spec fn valid_body(s: Seq<u8>) -> bool {
    &&& s.len() >= 1
    &&& is_alnum(s[0])
    &&& is_alnum(s[s.len() - 1])
    &&& forall|i: int| 0 <= i < s.len() ==> is_body_char(#[trigger] s[i])
    &&& forall|i: int|
        0 <= i < s.len() - 1 ==> !(is_domain_sep(#[trigger] s[i]) && is_domain_sep(s[i + 1]))
}

/// The domain splits at index `k` into a body, a dot, and a tld.
pub open spec fn valid_domain_split(s: Seq<u8>, k: int) -> bool {
    &&& 0 <= k < s.len()
    &&& s[k] == CH_DOT
    &&& valid_body(s.subrange(0, k))
    &&& valid_tld(s.subrange(k + 1, s.len() as int))
}

pub open spec fn valid_domain(s: Seq<u8>) -> bool {
    exists|k: int| valid_domain_split(s, k)
}

/// The whole address splits at index `a` into a local part, an `@`, and a
/// domain. Since neither side of a valid split may contain `@`, at most
/// one split index can be valid.
pub open spec fn valid_email_split(s: Seq<u8>, a: int) -> bool {
    &&& 0 <= a < s.len()
    &&& s[a] == CH_AT
    &&& valid_local(s.subrange(0, a))
    &&& valid_domain(s.subrange(a + 1, s.len() as int))
}

pub open spec fn valid_email(s: Seq<u8>) -> bool {
    exists|a: int| valid_email_split(s, a)
}

/// Index of the first `@`, if any.
fn find_first_at(s: &[u8]) -> (r: Option<usize>)
    ensures
        match r {
            Some(a) => a < s@.len() && s@[a as int] == CH_AT && forall|k: int|
                0 <= k < a ==> s@[k] != CH_AT,
            None => forall|k: int| 0 <= k < s@.len() ==> s@[k] != CH_AT,
        },
{
    let n = s.len();
    let mut i: usize = 0;
    while i < n
        invariant
            n == s@.len(),
            i <= n,
            forall|k: int| 0 <= k < i ==> s@[k] != CH_AT,
        decreases n - i,
    {
        if s[i] == CH_AT {
            return Some(i);
        }
        i = i + 1;
    }
    None
}

/// Index of the last `.` at position `lo` or later, if any.
fn find_last_dot(s: &[u8], lo: usize) -> (r: Option<usize>)
    requires
        lo <= s@.len(),
    ensures
        match r {
            Some(k) => lo <= k < s@.len() && s@[k as int] == CH_DOT && forall|j: int|
                k < j < s@.len() ==> s@[j] != CH_DOT,
            None => forall|j: int| lo <= j < s@.len() ==> s@[j] != CH_DOT,
        },
{
    let mut i = s.len();
    while i > lo
        invariant
            lo <= i <= s@.len(),
            forall|j: int| i <= j < s@.len() ==> s@[j] != CH_DOT,
        decreases i,
    {
        i = i - 1;
        if s[i] == CH_DOT {
            return Some(i);
        }
    }
    None
}

/// Checks the local-part grammar on `s[0..hi]`.
fn check_local(s: &[u8], hi: usize) -> (b: bool)
    requires
        hi <= s@.len(),
    ensures
        b == valid_local(s@.subrange(0, hi as int)),
{
    let ghost sub = s@.subrange(0, hi as int);
    if hi == 0 {
        return false;
    }
    if !is_local_plain_exec(s[0]) || !is_local_plain_exec(s[hi - 1]) {
        return false;
    }
    let mut i: usize = 0;
    while i < hi
        invariant
            hi <= s@.len(),
            i <= hi,
            sub == s@.subrange(0, hi as int),
            forall|k: int| 0 <= k < i ==> is_local_char(#[trigger] s@[k]),
        decreases hi - i,
    {
        if !is_local_char_exec(s[i]) {
            assert(sub[i as int] == s@[i as int]);
            return false;
        }
        i = i + 1;
    }
    assert forall|k: int| 0 <= k < sub.len() implies is_local_char(#[trigger] sub[k]) by {
        assert(sub[k] == s@[k]);
    }
    true
}

/// Checks the domain-body grammar on `s[lo..hi]`.
fn check_body(s: &[u8], lo: usize, hi: usize) -> (b: bool)
    requires
        lo <= hi <= s@.len(),
    ensures
        b == valid_body(s@.subrange(lo as int, hi as int)),
{
    let ghost sub = s@.subrange(lo as int, hi as int);
    if hi == lo {
        return false;
    }
    if !is_alnum_exec(s[lo]) || !is_alnum_exec(s[hi - 1]) {
        return false;
    }
    let mut i: usize = lo;
    while i < hi
        invariant
            lo <= i <= hi <= s@.len(),
            sub == s@.subrange(lo as int, hi as int),
            forall|k: int| lo <= k < i ==> is_body_char(#[trigger] s@[k]),
            forall|k: int|
                lo <= k < i && k + 1 < hi ==> !(is_domain_sep(#[trigger] s@[k]) && is_domain_sep(
                    s@[k + 1],
                )),
        decreases hi - i,
    {
        let c = s[i];
        if !is_body_char_exec(c) {
            assert(sub[i - lo] == s@[i as int]);
            return false;
        }
        if i + 1 < hi && is_domain_sep_exec(c) && is_domain_sep_exec(s[i + 1]) {
            assert(sub[i - lo] == s@[i as int]);
            assert(sub[i - lo + 1] == s@[i + 1]);
            return false;
        }
        i = i + 1;
    }
    assert forall|k: int| 0 <= k < sub.len() implies is_body_char(#[trigger] sub[k]) by {
        assert(sub[k] == s@[lo + k]);
    }
    assert forall|k: int|
        0 <= k < sub.len() - 1 implies !(is_domain_sep(#[trigger] sub[k]) && is_domain_sep(
        sub[k + 1],
    )) by {
        assert(sub[k] == s@[lo + k]);
        assert(sub[k + 1] == s@[lo + k + 1]);
    }
    true
}

/// Checks the top-level-domain grammar on `s[lo..hi]`.
fn check_tld(s: &[u8], lo: usize, hi: usize) -> (b: bool)
    requires
        lo <= hi <= s@.len(),
    ensures
        b == valid_tld(s@.subrange(lo as int, hi as int)),
{
    let ghost sub = s@.subrange(lo as int, hi as int);
    let len = hi - lo;
    if len < 2 || len > 6 {
        return false;
    }
    let mut i: usize = lo;
    while i < hi
        invariant
            lo <= i <= hi <= s@.len(),
            sub == s@.subrange(lo as int, hi as int),
            forall|k: int| lo <= k < i ==> is_lower(#[trigger] s@[k]),
        decreases hi - i,
    {
        if !is_lower_exec(s[i]) {
            assert(sub[i - lo] == s@[i as int]);
            return false;
        }
        i = i + 1;
    }
    assert forall|k: int| 0 <= k < sub.len() implies is_lower(#[trigger] sub[k]) by {
        assert(sub[k] == s@[lo + k]);
    }
    true
}

fn is_lower_exec(c: u8) -> (b: bool)
    ensures
        b == is_lower(c),
{
    CH_A_LOWER <= c && c <= CH_Z_LOWER
}

fn is_alnum_exec(c: u8) -> (b: bool)
    ensures
        b == is_alnum(c),
{
    (CH_A_LOWER <= c && c <= CH_Z_LOWER) || (CH_0 <= c && c <= CH_9)
}

fn is_local_plain_exec(c: u8) -> (b: bool)
    ensures
        b == is_local_plain(c),
{
    (CH_A_LOWER <= c && c <= CH_Z_LOWER) || (CH_0 <= c && c <= CH_9) || c == CH_UNDERSCORE || c == CH_PLUS
}

fn is_local_char_exec(c: u8) -> (b: bool)
    ensures
        b == is_local_char(c),
{
    is_local_plain_exec(c) || c == CH_DOT
}

fn is_domain_sep_exec(c: u8) -> (b: bool)
    ensures
        b == is_domain_sep(c),
{
    c == CH_HYPHEN || c == CH_DOT
}

fn is_body_char_exec(c: u8) -> (b: bool)
    ensures
        b == is_body_char(c),
{
    is_alnum_exec(c) || is_domain_sep_exec(c)
}

/// Checks the domain grammar on `s[lo..]` (everything after the `@`).
fn check_domain(s: &[u8], lo: usize) -> (b: bool)
    requires
        lo <= s@.len(),
    ensures
        b == valid_domain(s@.subrange(lo as int, s@.len() as int)),
{
    let ghost dsub = s@.subrange(lo as int, s@.len() as int);
    let n = s.len();
    match find_last_dot(s, lo) {
        None => {
            assert forall|k: int| !valid_domain_split(dsub, k) by {
                if 0 <= k < dsub.len() {
                    assert(dsub[k] == s@[lo + k]);
                }
            }
            false
        },
        Some(k0) => {
            let body_ok = check_body(s, lo, k0);
            let tld_ok = check_tld(s, k0 + 1, n);
            let ghost rel = k0 - lo;
            assert(dsub.subrange(0, rel) =~= s@.subrange(lo as int, k0 as int));
            assert(dsub.subrange(rel + 1, dsub.len() as int) =~= s@.subrange(
                k0 + 1,
                s@.len() as int,
            ));
            if body_ok && tld_ok {
                assert(dsub[rel] == s@[k0 as int]);
                assert(valid_domain_split(dsub, rel));
                true
            } else {
                // Only the final dot can begin a valid tld: a tld that
                // started at an earlier dot would contain the final dot.
                assert forall|k: int| !valid_domain_split(dsub, k) by {
                    if 0 <= k < dsub.len() && dsub[k] == CH_DOT {
                        assert(s@[lo + k] == CH_DOT);
                        if k != rel {
                            assert(lo + k < k0);
                            let tld = dsub.subrange(k + 1, dsub.len() as int);
                            assert(tld[rel - (k + 1)] == dsub[rel]);
                            assert(dsub[rel] == s@[k0 as int]);
                            assert(!is_lower(CH_DOT));
                        }
                    }
                }
                false
            }
        },
    }
}

/// Decides whether `s` is a well-formed registration email address.
///
/// This is the validation the registration path performs before touching
/// any persisted state.
pub fn is_valid_email(s: &[u8]) -> (b: bool)
    ensures
        b == valid_email(s@),
{
    match find_first_at(s) {
        None => {
            assert forall|a: int| !valid_email_split(s@, a) by {
                if 0 <= a < s@.len() {
                    assert(s@[a] != CH_AT);
                }
            }
            false
        },
        Some(a0) => {
            let n = s.len();
            assert(a0 < n);
            let local_ok = check_local(s, a0);
            let domain_ok = check_domain(s, a0 + 1);
            if local_ok && domain_ok {
                assert(valid_email_split(s@, a0 as int));
                true
            } else {
                // A later `@` cannot give a valid split either: its local
                // part would contain the first `@`.
                assert forall|a: int| !valid_email_split(s@, a) by {
                    if 0 <= a < s@.len() && s@[a] == CH_AT && a != a0 {
                        assert(a > a0);
                        let loc = s@.subrange(0, a);
                        assert(loc[a0 as int] == s@[a0 as int]);
                        assert(!is_local_char(CH_AT));
                    }
                }
                false
            }
        },
    }
}

} // verus!
