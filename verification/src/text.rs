//! Text operations the configuration rules are stated over.

use vstd::prelude::*;
use vstd::string::*;

verus! {

/// Whether `s` begins with `p`.
pub open spec fn begins_with(s: Seq<char>, p: Seq<char>) -> bool {
    p.len() <= s.len() && s.subrange(0, p.len() as int) == p
}

/// What follows the first `n` characters of `s`.
pub open spec fn after(s: Seq<char>, n: nat) -> Seq<char> {
    s.subrange(n as int, s.len() as int)
}

/// Whether the two texts hold the same characters.
pub fn same_text(a: &str, b: &str) -> (same: bool)
    ensures
        same == (a@ == b@),
{
    a.to_owned() == b.to_owned()
}

/// Whether `s` begins with `p`.
pub fn has_prefix(s: &str, p: &str) -> (has: bool)
    ensures
        has == begins_with(s@, p@),
{
    let n: usize = p.unicode_len();
    if s.unicode_len() < n {
        return false;
    }
    same_text(s.substring_char(0, n), p)
}

/// What follows `p` in `s`, where `s` begins with `p`.
pub fn strip_prefix(s: &str, p: &str) -> (rest: Option<String>)
    ensures
        rest is Some <==> begins_with(s@, p@),
        rest matches Some(r) ==> r@ == after(s@, p@.len()),
{
    if !has_prefix(s, p) {
        return None;
    }
    let n: usize = p.unicode_len();
    let total: usize = s.unicode_len();
    Some(s.substring_char(n, total).to_owned())
}

/// One text after the other.
pub fn join(a: &str, b: &str) -> (both: String)
    ensures
        both@ == a@ + b@,
{
    let mut out: String = a.to_owned();
    out.append(b);
    out
}

/// The entries once more.
pub fn copy_entries(entries: &Vec<(String, String)>) -> (copy: Vec<(String, String)>)
    ensures
        copy@ == entries@,
{
    let n: usize = entries.len();
    let mut copy: Vec<(String, String)> = Vec::new();
    let mut i: usize = 0;
    while i < n
        invariant
            i <= n,
            n == entries@.len(),
            copy@ == entries@.take(i as int),
        decreases n - i,
    {
        copy.push((entries[i].0.clone(), entries[i].1.clone()));
        i = i + 1;
    }
    assert(entries@.take(n as int) =~= entries@);
    copy
}

} // verus!
