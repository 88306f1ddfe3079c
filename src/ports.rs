//! The port list: entries from a comma-separated argument and from the lines of a ports
//! file, each a port number from 1 to 65535, kept sorted and once each.
use crate::error::VulnFinderError;
use crate::text::{all_digits, chars_of, split, split_at_char, string_of, trim, trimmed, views};
use std::collections::BTreeSet;
use vstd::prelude::*;

verus! {

/// The ports scanned when no port is given.
pub const DEFAULT_PORTS: [u16; 6] = [22, 53, 80, 443, 445, 3389];

pub open spec fn default_ports() -> Seq<u16> {
    seq![22u16, 53, 80, 443, 445, 3389]
}

/// The value of a run of decimal digits.
pub open spec fn digits_value(s: Seq<char>) -> nat
    decreases s.len(),
{
    if s.len() == 0 {
        0
    } else {
        digits_value(s.drop_last()) * 10 + ((s.last() as u32) - 48) as nat
    }
}

/// A port entry as `u16::from_str` reads it (an optional `+`, then decimal digits), where
/// zero is no port.
pub open spec fn parse_port_spec(v: Seq<char>) -> Option<u16> {
    let d = if v.len() > 0 && v[0] == '+' {
        v.skip(1)
    } else {
        v
    };
    if d.len() > 0 && all_digits(d) && digits_value(d) <= 65535 && digits_value(d) != 0 {
        Some(digits_value(d) as u16)
    } else {
        None
    }
}

/// The trimmed, non-empty pieces; with `comments`, also without those starting with `#`.
pub open spec fn entries_of(pieces: Seq<Seq<char>>, comments: bool) -> Seq<Seq<char>>
    decreases pieces.len(),
{
    if pieces.len() == 0 {
        Seq::empty()
    } else {
        let prev = entries_of(pieces.drop_last(), comments);
        let t = trim(pieces.last());
        if t.len() == 0 || (comments && t[0] == '#') {
            prev
        } else {
            prev.push(t)
        }
    }
}

/// Every entry: those of the argument, then those of the file.
pub open spec fn all_entries(ports: Option<Seq<char>>, file: Option<Seq<char>>) -> Seq<Seq<char>> {
    (match ports {
        Some(p) => entries_of(split(p, ','), false),
        None => Seq::empty(),
    }) + (match file {
        Some(f) => entries_of(split(f, '\n'), true),
        None => Seq::empty(),
    })
}

/// The first entry that is no port, if any.
pub open spec fn first_bad(entries: Seq<Seq<char>>) -> Option<Seq<char>>
    decreases entries.len(),
{
    if entries.len() == 0 {
        None
    } else if parse_port_spec(entries[0]).is_none() {
        Some(entries[0])
    } else {
        first_bad(entries.drop_first())
    }
}

pub open spec fn strictly_ascending(s: Seq<u16>) -> bool {
    forall|a: int, b: int| 0 <= a < b < s.len() ==> s[a] < s[b]
}

proof fn lemma_digits_monotone(s: Seq<char>, i: int)
    requires
        0 <= i <= s.len(),
        all_digits(s),
    ensures
        digits_value(s.take(i)) <= digits_value(s),
    decreases s.len() - i,
{
    if i < s.len() {
        lemma_digits_monotone(s, i + 1);
        assert(s.take(i + 1).drop_last() =~= s.take(i));
        assert(s[i] == s.take(i + 1).last());
    } else {
        assert(s.take(i) =~= s);
    }
}

/// Reads one port entry.
pub fn parse_port(value: &Vec<char>) -> (r: Result<u16, VulnFinderError>)
    ensures
        match r {
            Ok(p) => parse_port_spec(value@) == Some(p),
            Err(VulnFinderError::InvalidPort(s)) => parse_port_spec(value@).is_none() && s@
                == value@,
            Err(_) => false,
        },
{
    let n = value.len();
    let start: usize = if n > 0 && value[0] == '+' {
        1
    } else {
        0
    };
    let ghost d = value@.skip(start as int);
    assert(start == 0 ==> d =~= value@);
    assert(d == (if value@.len() > 0 && value@[0] == '+' {
        value@.skip(1)
    } else {
        value@
    }));
    assert(parse_port_spec(value@) == (if d.len() > 0 && all_digits(d) && digits_value(d) <= 65535
        && digits_value(d) != 0 {
        Some(digits_value(d) as u16)
    } else {
        None
    }));
    if start >= n {
        return Err(VulnFinderError::InvalidPort(string_of(value)));
    }
    let mut acc: u32 = 0;
    let mut i: usize = start;
    while i < n
        invariant
            start <= i <= n == value@.len(),
            d == value@.skip(start as int),
            parse_port_spec(value@) == (if d.len() > 0 && all_digits(d) && digits_value(d) <= 65535
                && digits_value(d) != 0 {
                Some(digits_value(d) as u16)
            } else {
                None
            }),
            forall|k: int| 0 <= k < i - start ==> crate::text::is_ascii_digit(#[trigger] d[k]),
            acc as nat == digits_value(d.take(i - start)),
            acc <= 65535,
        decreases n - i,
    {
        let c = value[i];
        assert(d[i - start] == c);
        if !crate::text::digit(c) {
            assert(!all_digits(d));
            assert(parse_port_spec(value@).is_none());
            return Err(VulnFinderError::InvalidPort(string_of(value)));
        }
        assert(d.take(i - start + 1).drop_last() =~= d.take(i - start));
        assert(d.take(i - start + 1).last() == c);
        acc = acc * 10 + (c as u32 - 48);
        i += 1;
        assert(acc as nat == digits_value(d.take(i - start)));
        if acc > 65535 {
            proof {
                if all_digits(d) {
                    lemma_digits_monotone(d, i - start);
                }
                assert(parse_port_spec(value@).is_none());
            }
            return Err(VulnFinderError::InvalidPort(string_of(value)));
        }
    }
    assert(d.take(n - start) =~= d);
    assert(all_digits(d));
    assert(acc as nat == digits_value(d));
    if acc == 0 {
        return Err(VulnFinderError::InvalidPort(string_of(value)));
    }
    Ok(acc as u16)
}

/// The members of `set` in ascending order.
fn ascending(set: &BTreeSet<u16>) -> (r: Vec<u16>)
    ensures
        strictly_ascending(r@),
        r@.len() == set@.len(),
        forall|y: u16| r@.contains(y) <==> set@.contains(y),
{
    broadcast use vstd::std_specs::btree::group_btree_axioms, vstd::laws_cmp::group_laws_cmp;
    let ghost keys = vstd::std_specs::iter::IteratorSpec::remaining(&vstd::std_specs::btree::spec_btree_keys_iter(set));
    let mut r: Vec<u16> = Vec::new();
    for x in it: set.iter()
        invariant
            it.seq() == keys,
            r@.len() == it.index(),
            forall|k: int| 0 <= k < r@.len() ==> r@[k] == *keys[k],
    {
        r.push(*x);
    }
    proof {
        let ks = keys.unref();
        assert(r@.len() == keys.len());
        assert(r@ =~= ks);
        assert forall|a: int, b: int| 0 <= a < b < r@.len() implies r@[a] < r@[b] by {
            assert(vstd::std_specs::cmp::OrdSpec::cmp_spec(&keys[a], &keys[b]) is Less);
        }
        assert forall|y: u16| r@.contains(y) <==> set@.contains(y) by {
            assert(ks.to_set().contains(y) <==> ks.contains(y));
        }
    }
    r
}

/// The ports of `ports` in ascending order, each once.
pub fn sorted_unique(ports: &Vec<u16>) -> (r: Vec<u16>)
    ensures
        strictly_ascending(r@),
        r@.len() <= ports@.len(),
        forall|y: u16| r@.contains(y) <==> ports@.contains(y),
{
    broadcast use vstd::std_specs::btree::group_btree_axioms, vstd::laws_cmp::group_laws_cmp;
    let mut set: BTreeSet<u16> = BTreeSet::new();
    for i in 0..ports.len()
        invariant
            forall|y: u16| set@.contains(y) <==> ports@.take(i as int).contains(y),
            set@.finite(),
            set@.len() <= i,
    {
        set.insert(ports[i]);
        assert forall|y: u16| set@.contains(y) <==> ports@.take(i + 1).contains(y) by {
            if ports@.take(i + 1).contains(y) {
                let q = choose|q: int| 0 <= q < i + 1 && #[trigger] ports@.take(i + 1)[q] == y;
                if q < i {
                    assert(ports@.take(i as int)[q] == y);
                }
            }
            if ports@.take(i as int).contains(y) {
                let q = choose|q: int| 0 <= q < i && #[trigger] ports@.take(i as int)[q] == y;
                assert(ports@.take(i + 1)[q] == y);
            }
            if y == ports@[i as int] {
                assert(ports@.take(i + 1)[i as int] == y);
            }
        }
    }
    assert(ports@.take(ports@.len() as int) =~= ports@);
    ascending(&set)
}

/// The set of ports in ascending order that the argument and the ports file give, the
/// default ports when they give none, or the first entry that is no port.
#[verifier::rlimit(40)]
pub fn load_ports(ports: Option<&str>, ports_file: Option<&str>) -> (r: Result<Vec<u16>, VulnFinderError>)
    ensures
        ({
            let all = all_entries(crate::cve_db::opt_view(ports), crate::cve_db::opt_view(ports_file));
            match r {
                Ok(v) => first_bad(all).is_none() && strictly_ascending(v@) && (if all.len() == 0 {
                    v@ == default_ports()
                } else {
                    forall|y: u16|
                        v@.contains(y) <==> exists|k: int|
                            0 <= k < all.len() && parse_port_spec(#[trigger] all[k]) == Some(y)
                }),
                Err(VulnFinderError::InvalidPort(s)) => first_bad(all) == Some(s@),
                Err(_) => false,
            }
        }),
{
    let mut entries: Vec<Vec<char>> = Vec::new();
    match ports {
        Some(raw) => {
            let pieces = split_at_char(&chars_of(raw), ',');
            collect_entries(&pieces, false, &mut entries);
        },
        None => {},
    }
    let ghost first = views(entries@);
    match ports_file {
        Some(content) => {
            let pieces = split_at_char(&chars_of(content), '\n');
            collect_entries(&pieces, true, &mut entries);
        },
        None => {},
    }
    let ghost all = all_entries(crate::cve_db::opt_view(ports), crate::cve_db::opt_view(ports_file));
    assert(views(entries@) =~= all);
    broadcast use vstd::std_specs::btree::group_btree_axioms, vstd::laws_cmp::group_laws_cmp;
    let mut values: BTreeSet<u16> = BTreeSet::new();
    assert(all.skip(0) =~= all);
    for k in 0..entries.len()
        invariant
            views(entries@) == all,
            all == all_entries(crate::cve_db::opt_view(ports), crate::cve_db::opt_view(ports_file)),
            first_bad(all) == first_bad(all.skip(k as int)),
            forall|y: u16|
                values@.contains(y) <==> exists|q: int|
                    0 <= q < k && parse_port_spec(#[trigger] all[q]) == Some(y),
    {
        assert(all.skip(k as int)[0] == all[k as int]);
        match parse_port(&entries[k]) {
            Ok(p) => {
                let ghost before = values@;
                values.insert(p);
                assert forall|y: u16|
                    values@.contains(y) <==> exists|q: int|
                        0 <= q < k + 1 && parse_port_spec(#[trigger] all[q]) == Some(y) by {
                    if values@.contains(y) && !before.contains(y) {
                        assert(parse_port_spec(all[k as int]) == Some(y));
                    }
                    if exists|q: int| 0 <= q < k + 1 && parse_port_spec(#[trigger] all[q]) == Some(y) {
                        let q = choose|q: int|
                            0 <= q < k + 1 && parse_port_spec(#[trigger] all[q]) == Some(y);
                        if q < k {
                            assert(before.contains(y));
                        }
                    }
                }
                assert(all.skip(k as int).drop_first() =~= all.skip(k + 1));
            },
            Err(e) => {
                assert(first_bad(all.skip(k as int)) == Some(all[k as int]));
                match &e {
                    VulnFinderError::InvalidPort(s) => {
                        assert(s@ == all[k as int]);
                    },
                    _ => {},
                }
                return Err(e);
            },
        }
    }
    assert(all.skip(entries@.len() as int) =~= Seq::<Seq<char>>::empty());
    let values = ascending(&values);
    if values.len() == 0 {
        if entries.len() > 0 {
            assert(all.skip(0)[0] == all[0]);
            assert(parse_port_spec(all[0]).is_some());
            assert(values@.contains(parse_port_spec(all[0]).unwrap()));
        }
        let mut d: Vec<u16> = Vec::new();
        d.push(22);
        d.push(53);
        d.push(80);
        d.push(443);
        d.push(445);
        d.push(3389);
        assert(d@ =~= default_ports());
        return Ok(d);
    }
    assert(values@.contains(values@[0]));
    assert(first_bad(all).is_none());
    Ok(values)
}

/// Appends the entries of `pieces`: trimmed, empty ones and, with `comments`, those
/// starting with `#` left out.
fn collect_entries(pieces: &Vec<Vec<char>>, comments: bool, out: &mut Vec<Vec<char>>)
    ensures
        views(final(out)@) == views(old(out)@) + entries_of(views(pieces@), comments),
{
    let ghost base = views(out@);
    for i in 0..pieces.len()
        invariant
            views(out@) == base + entries_of(views(pieces@).take(i as int), comments),
    {
        let ghost pre = views(pieces@).take(i as int);
        let ghost next = views(pieces@).take(i + 1);
        assert(next.drop_last() =~= pre);
        assert(next.last() == pieces@[i as int]@);
        let t = trimmed(&pieces[i]);
        assert(trim(next.last()) == t@);
        assert(next.len() == i + 1);
        assert(entries_of(next, comments) == (if t@.len() == 0 || (comments && t@[0] == '#') {
            entries_of(pre, comments)
        } else {
            entries_of(pre, comments).push(t@)
        }));
        if t.len() == 0 || (comments && t[0] == '#') {
        } else {
            let ghost before = out@;
            let ghost tv = t@;
            out.push(t);
            assert(views(out@) =~= views(before).push(tv));
        }
        assert(views(out@) =~= base + entries_of(next, comments));
    }
    assert(views(pieces@).take(pieces@.len() as int) =~= views(pieces@));
}

} // verus!
