//! Target expressions: host names, and IPv4 ranges as the numbers of their addresses.
use crate::error::VulnFinderError;
use crate::text::{alnum, chars_of, is_ascii_alnum, split, split_at_char, views};
use vstd::prelude::*;
use vstd::string::*;

verus! {

/// The most hosts that one target expression may expand to.
pub const MAX_EXPANDED_TARGETS: usize = 4096;

/// A label of a host name: 1 to 63 letters, digits or dashes, not starting or ending with
/// a dash.
pub open spec fn valid_label(l: Seq<char>) -> bool {
    &&& 0 < l.len() <= 63
    &&& l[0] != '-'
    &&& l.last() != '-'
    &&& forall|k: int| 0 <= k < l.len() ==> is_ascii_alnum(#[trigger] l[k]) || l[k] == '-'
}

/// A host name: 1 to 253 characters, dot-separated valid labels.
pub open spec fn valid_hostname(s: Seq<char>) -> bool {
    let labels = split(s, '.');
    0 < s.len() <= 253 && forall|k: int| 0 <= k < labels.len() ==> valid_label(#[trigger] labels[k])
}

fn label_ok(l: &Vec<char>) -> (r: bool)
    ensures
        r == valid_label(l@),
{
    let n = l.len();
    if n == 0 || n > 63 || l[0] == '-' || l[n - 1] == '-' {
        return false;
    }
    for k in 0..n
        invariant
            n == l@.len(),
            forall|q: int| 0 <= q < k ==> is_ascii_alnum(#[trigger] l@[q]) || l@[q] == '-',
    {
        if !(alnum(l[k]) || l[k] == '-') {
            return false;
        }
    }
    true
}

/// Whether `value` is a valid host name. (Its length in bytes and in characters agree on
/// every name that passes, since those are ASCII.)
pub fn is_valid_hostname(value: &str) -> (r: bool)
    ensures
        r == valid_hostname(value@),
{
    let v = chars_of(value);
    if v.len() == 0 || v.len() > 253 {
        return false;
    }
    let labels = split_at_char(&v, '.');
    let ghost ls = split(v@, '.');
    for k in 0..labels.len()
        invariant
            views(labels@) == ls,
            ls == split(value@, '.'),
            forall|q: int| 0 <= q < k ==> valid_label(#[trigger] ls[q]),
    {
        assert(labels@[k as int]@ == ls[k as int]);
        if !label_ok(&labels[k]) {
            assert(!valid_label(ls[k as int]));
            return false;
        }
    }
    true
}

/// The addresses from `start` to `end` inclusive, as numbers: an error where `start` is
/// above `end` or where there would be more than `MAX_EXPANDED_TARGETS` of them.
pub fn expand_ipv4_range(start: u32, end: u32) -> (r: Result<Vec<u32>, VulnFinderError>)
    ensures
        match r {
            Ok(v) => start <= end && end - start < MAX_EXPANDED_TARGETS && v@ == Seq::new(
                (end - start + 1) as nat,
                |k: int| (start + k) as u32,
            ),
            Err(VulnFinderError::InvalidTarget(_)) => start > end || end - start
                >= MAX_EXPANDED_TARGETS,
            Err(_) => false,
        },
{
    if start > end {
        return Err(VulnFinderError::InvalidTarget(String::from_str("range start must be <= range end")));
    }
    let mut out: Vec<u32> = Vec::new();
    let mut value: u32 = start;
    loop
        invariant_except_break
            out@.len() == value - start,
        invariant
            start <= value <= end,
            out@.len() <= MAX_EXPANDED_TARGETS,
            forall|k: int| 0 <= k < out@.len() ==> #[trigger] out@[k] == start + k,
        ensures
            out@.len() == end - start + 1,
        decreases end - value,
    {
        out.push(value);
        if out.len() > MAX_EXPANDED_TARGETS {
            return Err(VulnFinderError::InvalidTarget(String::from_str("range expands beyond 4096 hosts")));
        }
        if value == end {
            break;
        }
        value = value + 1;
    }
    assert(out@ =~= Seq::new((end - start + 1) as nat, |k: int| (start + k) as u32));
    Ok(out)
}

} // verus!
