//! The vulnerability database and the evaluation of version-range expressions.
use crate::semver_ext::{compare_versions, parse_version, semver_accepts, semver_order};
use crate::text::{
    alnum, chars_of, eq_ignore_ascii_case, eq_ignore_case, is_ascii_alnum, is_space, lower,
    lower_char, lower_seq, split, copy_string, copy_strings, split_at_char, string_of, string_views, trim, trimmed, views,
};
use std::cmp::Ordering;
use vstd::prelude::*;

verus! {

/// A comparison operator of a range condition.
#[derive(PartialEq, Eq, Structural, Clone, Copy, Debug)]
pub enum CmpOp {
    Lt,
    Le,
    Gt,
    Ge,
    Eq,
}

/// Whether an ordering of (version, bound) satisfies `op`.
pub open spec fn op_holds(op: CmpOp, ord: Ordering) -> bool {
    match op {
        CmpOp::Lt => ord == Ordering::Less,
        CmpOp::Le => ord != Ordering::Greater,
        CmpOp::Gt => ord == Ordering::Greater,
        CmpOp::Ge => ord != Ordering::Less,
        CmpOp::Eq => ord == Ordering::Equal,
    }
}

/// The operator that a condition starts with and the trimmed rest. Two-character operators
/// are recognised before their one-character prefixes; without an operator it is `=`.
pub open spec fn split_op_spec(s: Seq<char>) -> (CmpOp, Seq<char>) {
    if s.len() >= 2 && s[0] == '<' && s[1] == '=' {
        (CmpOp::Le, trim(s.skip(2)))
    } else if s.len() >= 2 && s[0] == '>' && s[1] == '=' {
        (CmpOp::Ge, trim(s.skip(2)))
    } else if s.len() >= 1 && s[0] == '<' {
        (CmpOp::Lt, trim(s.skip(1)))
    } else if s.len() >= 1 && s[0] == '>' {
        (CmpOp::Gt, trim(s.skip(1)))
    } else if s.len() >= 2 && s[0] == '=' && s[1] == '=' {
        (CmpOp::Eq, trim(s.skip(2)))
    } else if s.len() >= 1 && s[0] == '=' {
        (CmpOp::Eq, trim(s.skip(1)))
    } else {
        (CmpOp::Eq, trim(s))
    }
}

/// Leading `v` characters removed.
pub open spec fn strip_v(s: Seq<char>) -> Seq<char>
    decreases s.len(),
{
    if s.len() > 0 && s[0] == 'v' {
        strip_v(s.drop_first())
    } else {
        s
    }
}

pub open spec fn part_or_zero(parts: Seq<Seq<char>>, i: int) -> Seq<char> {
    if i < parts.len() {
        parts[i]
    } else {
        seq!['0']
    }
}

/// A version text in three dotted components: leading `v`s removed, missing components
/// `0`, components after the third dropped.
pub open spec fn normalize_semver_spec(v: Seq<char>) -> Seq<char> {
    let p = split(strip_v(v), '.');
    part_or_zero(p, 0) + seq!['.'] + part_or_zero(p, 1) + seq!['.'] + part_or_zero(p, 2)
}

/// Whether a version normalizes to a text that `semver` accepts.
pub open spec fn looks_like_semver_spec(v: Seq<char>) -> bool {
    semver_accepts(normalize_semver_spec(v))
}

/// One comma-separated piece of a range, evaluated against a normalized version `nv`.
pub open spec fn semver_cond_holds(nv: Seq<char>, piece: Seq<char>) -> bool {
    let c = trim(piece);
    c.len() == 0 || {
        let (op, raw) = split_op_spec(c);
        let other = normalize_semver_spec(raw);
        semver_accepts(other) && op_holds(op, semver_order(nv, other))
    }
}

/// Semantic-range matching: the version parses, and every condition holds.
pub open spec fn semver_match_spec(version: Seq<char>, range: Seq<char>) -> bool {
    let nv = normalize_semver_spec(version);
    let pieces = split(range, ',');
    semver_accepts(nv) && forall|i: int|
        0 <= i < pieces.len() ==> semver_cond_holds(nv, #[trigger] pieces[i])
}

/// The maximal runs of ASCII letters and digits, lower-cased.
pub open spec fn tokens(s: Seq<char>) -> Seq<Seq<char>>
    decreases s.len(),
{
    if s.len() == 0 {
        Seq::empty()
    } else {
        let prev = tokens(s.drop_last());
        let c = s.last();
        if !is_ascii_alnum(c) {
            prev
        } else if s.len() >= 2 && is_ascii_alnum(s[s.len() - 2]) && prev.len() > 0 {
            prev.update(prev.len() - 1, prev.last().push(lower_char(c)))
        } else {
            prev.push(seq![lower_char(c)])
        }
    }
}

/// Lexicographic order of two texts, character by character.
pub open spec fn text_cmp(a: Seq<char>, b: Seq<char>) -> Ordering
    decreases a.len(),
{
    if a.len() == 0 {
        if b.len() == 0 {
            Ordering::Equal
        } else {
            Ordering::Less
        }
    } else if b.len() == 0 {
        Ordering::Greater
    } else if (a[0] as u32) < (b[0] as u32) {
        Ordering::Less
    } else if (a[0] as u32) > (b[0] as u32) {
        Ordering::Greater
    } else {
        text_cmp(a.drop_first(), b.drop_first())
    }
}

/// Lexicographic order of two token lists, token by token.
pub open spec fn tokens_cmp(a: Seq<Seq<char>>, b: Seq<Seq<char>>) -> Ordering
    decreases a.len(),
{
    if a.len() == 0 {
        if b.len() == 0 {
            Ordering::Equal
        } else {
            Ordering::Less
        }
    } else if b.len() == 0 {
        Ordering::Greater
    } else if text_cmp(a[0], b[0]) != Ordering::Equal {
        text_cmp(a[0], b[0])
    } else {
        tokens_cmp(a.drop_first(), b.drop_first())
    }
}

/// The lexical order of two version texts: their token lists compared.
pub open spec fn lexical_cmp_spec(a: Seq<char>, b: Seq<char>) -> Ordering {
    tokens_cmp(tokens(a), tokens(b))
}

pub open spec fn lexical_cond_holds(version: Seq<char>, piece: Seq<char>) -> bool {
    let c = trim(piece);
    c.len() == 0 || {
        let (op, rhs) = split_op_spec(c);
        op_holds(op, lexical_cmp_spec(version, rhs))
    }
}

/// Lexical fallback matching: `any` (in any case) matches everything; otherwise every
/// condition must hold.
pub open spec fn simple_match_spec(version: Seq<char>, range: Seq<char>) -> bool {
    let pieces = split(range, ',');
    eq_ignore_case(trim(range), seq!['a', 'n', 'y']) || forall|i: int|
        0 <= i < pieces.len() ==> lexical_cond_holds(version, #[trigger] pieces[i])
}

/// Whether `version` lies in `range`: semantic matching when the version normalizes to a
/// SemVer version and the range has a comma, the lexical fallback otherwise.
pub open spec fn version_in_range_spec(version: Seq<char>, range: Seq<char>) -> bool {
    if looks_like_semver_spec(version) && range.contains(',') {
        semver_match_spec(version, range)
    } else {
        simple_match_spec(version, range)
    }
}

fn starts_with2(s: &Vec<char>, a: char, b: char) -> (r: bool)
    ensures
        r == (s@.len() >= 2 && s@[0] == a && s@[1] == b),
{
    s.len() >= 2 && s[0] == a && s[1] == b
}

/// Splits a condition into its operator and its trimmed operand.
pub fn split_op(input: &Vec<char>) -> (r: (CmpOp, Vec<char>))
    ensures
        r.0 == split_op_spec(input@).0,
        r.1@ == split_op_spec(input@).1,
{
    let n = input.len();
    let (op, skip) = if starts_with2(input, '<', '=') {
        (CmpOp::Le, 2)
    } else if starts_with2(input, '>', '=') {
        (CmpOp::Ge, 2)
    } else if n >= 1 && input[0] == '<' {
        (CmpOp::Lt, 1)
    } else if n >= 1 && input[0] == '>' {
        (CmpOp::Gt, 1)
    } else if starts_with2(input, '=', '=') {
        (CmpOp::Eq, 2)
    } else if n >= 1 && input[0] == '=' {
        (CmpOp::Eq, 1)
    } else {
        (CmpOp::Eq, 0)
    };
    let rest = crate::text::slice(input, skip, n);
    assert(rest@ =~= input@.skip(skip as int));
    assert(input@.skip(0) =~= input@);
    (op, trimmed(&rest))
}

fn op_holds_exec(op: CmpOp, ord: Ordering) -> (r: bool)
    ensures
        r == op_holds(op, ord),
{
    match op {
        CmpOp::Lt => matches!(ord, Ordering::Less),
        CmpOp::Le => !matches!(ord, Ordering::Greater),
        CmpOp::Gt => matches!(ord, Ordering::Greater),
        CmpOp::Ge => !matches!(ord, Ordering::Less),
        CmpOp::Eq => matches!(ord, Ordering::Equal),
    }
}

proof fn lemma_strip_v_step(s: Seq<char>, i: int)
    requires
        0 <= i < s.len(),
        s[i] == 'v',
    ensures
        strip_v(s.skip(i)) == strip_v(s.skip(i + 1)),
{
    assert(s.skip(i).drop_first() =~= s.skip(i + 1));
}

/// Brings a version text to three dotted components.
pub fn normalize_semver(v: &Vec<char>) -> (r: Vec<char>)
    ensures
        r@ == normalize_semver_spec(v@),
{
    let n = v.len();
    let mut i: usize = 0;
    assert(v@.skip(0) =~= v@);
    while i < n && v[i] == 'v'
        invariant
            i <= n == v@.len(),
            strip_v(v@) == strip_v(v@.skip(i as int)),
        decreases n - i,
    {
        proof {
            lemma_strip_v_step(v@, i as int);
        }
        i += 1;
    }
    let rest = crate::text::slice(v, i, n);
    assert(rest@ =~= v@.skip(i as int));
    assert(strip_v(rest@) == rest@);
    let parts = split_at_char(&rest, '.');
    let mut out: Vec<char> = Vec::new();
    let ghost p = split(rest@, '.');
    for k in 0..3
        invariant
            views(parts@) == p,
            k > 0 ==> out@ == (if k == 1 {
                part_or_zero(p, 0)
            } else if k == 2 {
                part_or_zero(p, 0) + seq!['.'] + part_or_zero(p, 1)
            } else {
                part_or_zero(p, 0) + seq!['.'] + part_or_zero(p, 1) + seq!['.'] + part_or_zero(
                    p,
                    2,
                )
            }),
            k == 0 ==> out@.len() == 0,
    {
        let ghost before = out@;
        if k > 0 {
            out.push('.');
        }
        if k < parts.len() {
            let piece = &parts[k];
            assert(piece@ == p[k as int]);
            let mut j: usize = 0;
            let ghost mid = out@;
            while j < piece.len()
                invariant
                    j <= piece@.len(),
                    out@ == mid + piece@.subrange(0, j as int),
                decreases piece@.len() - j,
            {
                out.push(piece[j]);
                j += 1;
                assert(out@ =~= mid + piece@.subrange(0, j as int));
            }
            assert(piece@.subrange(0, piece@.len() as int) =~= piece@);
        } else {
            out.push('0');
        }
        assert(k == 0 ==> out@ =~= part_or_zero(p, 0));
        assert(k == 1 ==> out@ =~= part_or_zero(p, 0) + seq!['.'] + part_or_zero(p, 1));
        assert(k == 2 ==> out@ =~= part_or_zero(p, 0) + seq!['.'] + part_or_zero(p, 1) + seq!['.']
            + part_or_zero(p, 2));
    }
    out
}

fn looks_like_semver(version: &Vec<char>) -> (r: bool)
    ensures
        r == looks_like_semver_spec(version@),
{
    let nv = string_of(&normalize_semver(version));
    parse_version(nv.as_str()).is_some()
}

fn semver_match(version: &Vec<char>, range: &Vec<char>) -> (r: bool)
    ensures
        r == semver_match_spec(version@, range@),
{
    let nv = normalize_semver(version);
    let nvs = string_of(&nv);
    let parsed = match parse_version(nvs.as_str()) {
        Some(p) => p,
        None => return false,
    };
    let pieces = split_at_char(range, ',');
    let ghost ps = split(range@, ',');
    for k in 0..pieces.len()
        invariant
            views(pieces@) == ps,
            ps == split(range@, ','),
            parsed.source() == nv@,
            nv@ == normalize_semver_spec(version@),
            forall|i: int| 0 <= i < k ==> semver_cond_holds(nv@, #[trigger] ps[i]),
    {
        assert(pieces@[k as int]@ == ps[k as int]);
        let cond = trimmed(&pieces[k]);
        if cond.len() > 0 {
            let (op, raw) = split_op(&cond);
            let other = normalize_semver(&raw);
            let os = string_of(&other);
            let parsed_other = match parse_version(os.as_str()) {
                Some(p) => p,
                None => {
                    assert(!semver_cond_holds(nv@, ps[k as int]));
                    return false;
                },
            };
            let ord = compare_versions(&parsed, &parsed_other);
            if !op_holds_exec(op, ord) {
                assert(!semver_cond_holds(nv@, ps[k as int]));
                return false;
            }
        }
        assert(semver_cond_holds(nv@, ps[k as int]));
    }
    true
}

proof fn lemma_tokens_nonempty(s: Seq<char>)
    requires
        s.len() > 0,
        is_ascii_alnum(s.last()),
    ensures
        tokens(s).len() > 0,
{
}

/// The lower-cased alphanumeric tokens of `s`.
fn tokenize(s: &Vec<char>) -> (r: Vec<Vec<char>>)
    ensures
        views(r@) == tokens(s@),
{
    let mut toks: Vec<Vec<char>> = Vec::new();
    let mut cur: Vec<char> = Vec::new();
    for i in 0..s.len()
        invariant
            tokens(s@.subrange(0, i as int)) == (if cur@.len() > 0 {
                views(toks@).push(cur@)
            } else {
                views(toks@)
            }),
            cur@.len() > 0 <==> (i > 0 && is_ascii_alnum(s@[i - 1])),
    {
        let ghost pre = s@.subrange(0, i as int);
        let ghost next = s@.subrange(0, i + 1);
        assert(next.drop_last() =~= pre);
        let c = s[i];
        if alnum(c) {
            let ghost old_cur = cur@;
            cur.push(lower(c));
            proof {
                if i > 0 {
                    assert(next[next.len() - 2] == s@[i - 1]);
                    assert(pre.last() == s@[i - 1]);
                }
                if i > 0 && is_ascii_alnum(s@[i - 1]) {
                    lemma_tokens_nonempty(pre);
                    assert(tokens(pre) == views(toks@).push(old_cur));
                    assert(tokens(pre).last() == old_cur);
                } else {
                    assert(cur@ =~= seq![lower_char(c)]);
                }
            }
            assert(tokens(next) =~= views(toks@).push(cur@));
        } else {
            if cur.len() > 0 {
                toks.push(cur);
                cur = Vec::new();
            }
            assert(tokens(next) =~= views(toks@));
        }
    }
    assert(s@.subrange(0, s@.len() as int) =~= s@);
    if cur.len() > 0 {
        toks.push(cur);
    }
    assert(views(toks@) =~= tokens(s@));
    toks
}

fn compare_text(a: &Vec<char>, b: &Vec<char>) -> (r: Ordering)
    ensures
        r == text_cmp(a@, b@),
{
    let mut i: usize = 0;
    assert(a@.skip(0) =~= a@);
    assert(b@.skip(0) =~= b@);
    while i < a.len() && i < b.len()
        invariant
            i <= a@.len(),
            i <= b@.len(),
            text_cmp(a@, b@) == text_cmp(a@.skip(i as int), b@.skip(i as int)),
        decreases a@.len() - i,
    {
        let ghost sa = a@.skip(i as int);
        let ghost sb = b@.skip(i as int);
        assert(sa[0] == a@[i as int]);
        assert(sb[0] == b@[i as int]);
        if (a[i] as u32) < (b[i] as u32) {
            return Ordering::Less;
        }
        if (a[i] as u32) > (b[i] as u32) {
            return Ordering::Greater;
        }
        assert(sa.drop_first() =~= a@.skip(i + 1));
        assert(sb.drop_first() =~= b@.skip(i + 1));
        i += 1;
    }
    if i < a.len() {
        Ordering::Greater
    } else if i < b.len() {
        Ordering::Less
    } else {
        Ordering::Equal
    }
}

/// Compares two version texts by their lower-cased alphanumeric tokens.
pub fn lexical_compare(a: &Vec<char>, b: &Vec<char>) -> (r: Ordering)
    ensures
        r == lexical_cmp_spec(a@, b@),
{
    let ta = tokenize(a);
    let tb = tokenize(b);
    let mut i: usize = 0;
    assert(views(ta@).skip(0) =~= views(ta@));
    assert(views(tb@).skip(0) =~= views(tb@));
    while i < ta.len() && i < tb.len()
        invariant
            i <= ta@.len(),
            i <= tb@.len(),
            lexical_cmp_spec(a@, b@) == tokens_cmp(
                views(ta@).skip(i as int),
                views(tb@).skip(i as int),
            ),
        decreases ta@.len() - i,
    {
        let ghost sa = views(ta@).skip(i as int);
        let ghost sb = views(tb@).skip(i as int);
        assert(sa[0] == ta@[i as int]@);
        assert(sb[0] == tb@[i as int]@);
        let c = compare_text(&ta[i], &tb[i]);
        if !matches!(c, Ordering::Equal) {
            return c;
        }
        assert(sa.drop_first() =~= views(ta@).skip(i + 1));
        assert(sb.drop_first() =~= views(tb@).skip(i + 1));
        i += 1;
    }
    if i < ta.len() {
        Ordering::Greater
    } else if i < tb.len() {
        Ordering::Less
    } else {
        Ordering::Equal
    }
}

fn simple_compare_match(version: &Vec<char>, range: &Vec<char>) -> (r: bool)
    ensures
        r == simple_match_spec(version@, range@),
{
    let any = vec!['a', 'n', 'y'];
    if eq_ignore_ascii_case(&trimmed(range), &any) {
        return true;
    }
    let pieces = split_at_char(range, ',');
    let ghost ps = split(range@, ',');
    for k in 0..pieces.len()
        invariant
            views(pieces@) == ps,
            ps == split(range@, ','),
            !eq_ignore_case(trim(range@), seq!['a', 'n', 'y']),
            forall|i: int| 0 <= i < k ==> lexical_cond_holds(version@, #[trigger] ps[i]),
    {
        assert(pieces@[k as int]@ == ps[k as int]);
        let cond = trimmed(&pieces[k]);
        if cond.len() > 0 {
            let (op, rhs) = split_op(&cond);
            let ord = lexical_compare(version, &rhs);
            if !op_holds_exec(op, ord) {
                assert(!lexical_cond_holds(version@, ps[k as int]));
                return false;
            }
        }
        assert(lexical_cond_holds(version@, ps[k as int]));
    }
    true
}

fn contains_char(s: &Vec<char>, c: char) -> (r: bool)
    ensures
        r == s@.contains(c),
{
    for i in 0..s.len()
        invariant
            forall|k: int| 0 <= k < i ==> s@[k] != c,
    {
        if s[i] == c {
            assert(s@[i as int] == c);
            return true;
        }
    }
    false
}

/// Whether `version` satisfies the range expression `range`.
pub fn version_in_range(version: &str, range: &str) -> (r: bool)
    ensures
        r == version_in_range_spec(version@, range@),
{
    let v = chars_of(version);
    let rg = chars_of(range);
    if looks_like_semver(&v) && contains_char(&rg, ',') {
        return semver_match(&v, &rg);
    }
    simple_compare_match(&v, &rg)
}

/// One record of the vulnerability database. The CVSS score is kept in tenths
/// (`9.8` is `98`).
#[derive(Clone, Debug)]
pub struct CveEntry {
    pub product: String,
    pub version_range: String,
    pub cve_id: String,
    pub cvss_tenths: Option<u16>,
    pub summary: String,
    pub references: Vec<String>,
    pub remediation: String,
}

/// The fixed snapshot of records that a run matches against.
#[derive(Clone, Debug)]
pub struct CveDatabase {
    pub entries: Vec<CveEntry>,
}

/// A confirmed hit: the reported fields of a matching record.
#[derive(Clone, Debug)]
pub struct CveMatch {
    pub cve_id: String,
    pub cvss_tenths: Option<u16>,
    pub summary: String,
    pub references: Vec<String>,
    pub remediation: String,
}

/// The value of a `CveMatch`.
pub struct CveMatchView {
    pub cve_id: Seq<char>,
    pub cvss_tenths: Option<u16>,
    pub summary: Seq<char>,
    pub references: Seq<Seq<char>>,
    pub remediation: Seq<char>,
}

impl View for CveMatch {
    type V = CveMatchView;

    open spec fn view(&self) -> CveMatchView {
        CveMatchView {
            cve_id: self.cve_id@,
            cvss_tenths: self.cvss_tenths,
            summary: self.summary@,
            references: string_views(self.references@),
            remediation: self.remediation@,
        }
    }
}

/// The match that a record yields: its reported fields.
pub open spec fn match_of(e: CveEntry) -> CveMatchView {
    CveMatchView {
        cve_id: e.cve_id@,
        cvss_tenths: e.cvss_tenths,
        summary: e.summary@,
        references: string_views(e.references@),
        remediation: e.remediation@,
    }
}

/// A record matches when its product equals the queried one up to ASCII case, a version
/// is given, and that version lies in the record's range.
pub open spec fn entry_matches(e: CveEntry, product: Seq<char>, version: Option<Seq<char>>) -> bool {
    eq_ignore_case(e.product@, product) && match version {
        Some(v) => version_in_range_spec(v, e.version_range@),
        None => false,
    }
}

/// The matches of `entries`, in database order.
pub open spec fn matches_of(
    entries: Seq<CveEntry>,
    product: Seq<char>,
    version: Option<Seq<char>>,
) -> Seq<CveMatchView>
    decreases entries.len(),
{
    if entries.len() == 0 {
        Seq::empty()
    } else {
        let prev = matches_of(entries.drop_last(), product, version);
        if entry_matches(entries.last(), product, version) {
            prev.push(match_of(entries.last()))
        } else {
            prev
        }
    }
}

pub open spec fn match_views(m: Seq<CveMatch>) -> Seq<CveMatchView> {
    m.map_values(|x: CveMatch| x@)
}

pub open spec fn opt_view(v: Option<&str>) -> Option<Seq<char>> {
    match v {
        Some(s) => Some(s@),
        None => None,
    }
}

impl CveDatabase {
    pub fn new(entries: Vec<CveEntry>) -> (r: CveDatabase)
        ensures
            r.entries@ == entries@,
    {
        CveDatabase { entries }
    }

    /// The matches for a product and an optional version, in database order.
    pub fn match_service(&self, product: &str, version: Option<&str>) -> (r: Vec<CveMatch>)
        ensures
            match_views(r@) == matches_of(self.entries@, product@, opt_view(version)),
    {
        let p = chars_of(product);
        let mut out: Vec<CveMatch> = Vec::new();
        for i in 0..self.entries.len()
            invariant
                p@ == product@,
                match_views(out@) == matches_of(
                    self.entries@.subrange(0, i as int),
                    product@,
                    opt_view(version),
                ),
        {
            let e = &self.entries[i];
            let ghost pre = self.entries@.subrange(0, i as int);
            let ghost next = self.entries@.subrange(0, i + 1);
            assert(next.drop_last() =~= pre);
            assert(next.last() == *e);
            let product_ok = eq_ignore_ascii_case(&chars_of(e.product.as_str()), &p);
            let hit = product_ok && match version {
                Some(v) => version_in_range(v, e.version_range.as_str()),
                None => false,
            };
            if hit {
                let m = CveMatch {
                    cve_id: copy_string(&e.cve_id),
                    cvss_tenths: e.cvss_tenths,
                    summary: copy_string(&e.summary),
                    references: copy_strings(&e.references),
                    remediation: copy_string(&e.remediation),
                };
                out.push(m);
                assert(match_views(out@) =~= matches_of(next, product@, opt_view(version)));
            } else {
                assert(match_views(out@) =~= matches_of(next, product@, opt_view(version)));
            }
        }
        assert(self.entries@.subrange(0, self.entries@.len() as int) =~= self.entries@);
        out
    }
}

} // verus!
