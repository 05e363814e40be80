//! Contract-type inference from a contract's name.

use vstd::prelude::*;
use vstd::string::*;
use crate::models::opt_view;
use crate::text::{chars_of, lower_of, lowercase};

verus! {

/// Whether `pat` occurs in `s` as a run of consecutive characters.
pub open spec fn occurs_in(s: Seq<char>, pat: Seq<char>) -> bool {
    exists|k: int| 0 <= k && k + pat.len() <= s.len() && #[trigger] s.subrange(k, k + pat.len()) == pat
}

/// The type of a contract whose lower-cased name is `s`: the first keyword
/// found, in the order proxy, router, factory, pool, vault, token.
pub open spec fn type_of_lowered(s: Seq<char>) -> Option<Seq<char>> {
    if occurs_in(s, "proxy"@) {
        Some("Proxy"@)
    } else if occurs_in(s, "router"@) {
        Some("Router"@)
    } else if occurs_in(s, "factory"@) {
        Some("Factory"@)
    } else if occurs_in(s, "pool"@) {
        Some("Pool"@)
    } else if occurs_in(s, "vault"@) {
        Some("Vault"@)
    } else if occurs_in(s, "token"@) {
        Some("Token"@)
    } else {
        None
    }
}

/// Whether `pat` occurs in `s`.
pub fn contains_chars(s: &Vec<char>, pat: &Vec<char>) -> (r: bool)
    ensures
        r == occurs_in(s@, pat@),
{
    let n = s.len();
    let m = pat.len();
    if m > n {
        return false;
    }
    let mut i: usize = 0;
    while i <= n - m
        invariant
            n == s@.len(),
            m == pat@.len(),
            m <= n,
            i <= n - m + 1,
            forall|k: int| 0 <= k < i ==> #[trigger] s@.subrange(k, k + m) != pat@,
        decreases n - i,
    {
        let mut j: usize = 0;
        while j < m && s[i + j] == pat[j]
            invariant
                n == s@.len(),
                m == pat@.len(),
                i + m <= n,
                j <= m,
                forall|l: int| 0 <= l < j ==> s@[i + l] == pat@[l],
            decreases m - j,
        {
            j = j + 1;
        }
        if j == m {
            assert(s@.subrange(i as int, i + m) =~= pat@);
            return true;
        }
        assert(s@.subrange(i as int, i + m)[j as int] != pat@[j as int]);
        i = i + 1;
    }
    assert forall|k: int| 0 <= k && k + pat@.len() <= s@.len() implies #[trigger] s@.subrange(
        k,
        k + pat@.len(),
    ) != pat@ by {
        assert(k < i);
    }
    false
}

/// Whether the keyword `word` occurs in `s`.
fn has_keyword(s: &Vec<char>, word: &str) -> (r: bool)
    ensures
        r == occurs_in(s@, word@),
{
    let pat = chars_of(word);
    contains_chars(s, &pat)
}

/// The contract type named by a lower-cased contract name.
pub fn contract_type_of_lowered(lowered: &str) -> (r: Option<String>)
    ensures
        opt_view(r) == type_of_lowered(lowered@),
{
    let s = chars_of(lowered);
    if has_keyword(&s, "proxy") {
        Some(String::from_str("Proxy"))
    } else if has_keyword(&s, "router") {
        Some(String::from_str("Router"))
    } else if has_keyword(&s, "factory") {
        Some(String::from_str("Factory"))
    } else if has_keyword(&s, "pool") {
        Some(String::from_str("Pool"))
    } else if has_keyword(&s, "vault") {
        Some(String::from_str("Vault"))
    } else if has_keyword(&s, "token") {
        Some(String::from_str("Token"))
    } else {
        None
    }
}

/// The contract type suggested by a contract's name, matched without regard to case.
pub fn detect_contract_type(name: &str) -> (r: Option<String>)
    ensures
        opt_view(r) == type_of_lowered(lower_of(name@)),
{
    let lowered = lowercase(name);
    contract_type_of_lowered(lowered.as_str())
}

} // verus!
