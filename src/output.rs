//! Report assembly: the open ports of each host with what was found on them and the
//! vulnerabilities that match.
use crate::cve_db::{match_views, matches_of, CveDatabase, CveEntry, CveMatch, CveMatchView};
use crate::fingerprint::{copy_opt, opt_string_view};
use crate::scanner::{result_views, HostScanResult, PortResult, PortResultView};
use crate::scanner::{decimal, push_decimal};
use crate::text::{chars_of, copy_string, copy_strings, string_of, string_views};
use vstd::prelude::*;

verus! {

#[derive(Clone, Debug)]
pub struct ScanReport {
    pub hosts: Vec<HostReport>,
}

#[derive(Clone, Debug)]
pub struct HostReport {
    pub target: String,
    pub ports: Vec<PortReport>,
}

#[derive(Clone, Debug)]
pub struct PortReport {
    pub port: u16,
    pub service: Option<String>,
    pub product: Option<String>,
    pub version: Option<String>,
    pub evidence: Vec<String>,
    pub cves: Vec<CveMatch>,
}

/// The value of a `PortReport`.
pub struct PortReportView {
    pub port: u16,
    pub service: Option<Seq<char>>,
    pub product: Option<Seq<char>>,
    pub version: Option<Seq<char>>,
    pub evidence: Seq<Seq<char>>,
    pub cves: Seq<CveMatchView>,
}

impl View for PortReport {
    type V = PortReportView;

    open spec fn view(&self) -> PortReportView {
        PortReportView {
            port: self.port,
            service: opt_string_view(self.service),
            product: opt_string_view(self.product),
            version: opt_string_view(self.version),
            evidence: string_views(self.evidence@),
            cves: match_views(self.cves@),
        }
    }
}

pub open spec fn port_report_views(s: Seq<PortReport>) -> Seq<PortReportView> {
    s.map_values(|p: PortReport| p@)
}

/// The report line of an open port: the fingerprint's fields, and the matches of its product
/// and version (none without a product).
pub open spec fn port_report_spec(p: PortResultView, entries: Seq<CveEntry>) -> PortReportView {
    match p.fingerprint {
        Some(fp) => PortReportView {
            port: p.port,
            service: Some(fp.service),
            product: fp.product,
            version: fp.version,
            evidence: fp.evidence,
            cves: match fp.product {
                Some(prod) => matches_of(entries, prod, fp.version),
                None => Seq::empty(),
            },
        },
        None => PortReportView {
            port: p.port,
            service: None,
            product: None,
            version: None,
            evidence: Seq::empty(),
            cves: Seq::empty(),
        },
    }
}

/// The report lines of the open ports among `ports`, in their order.
pub open spec fn open_port_reports(ports: Seq<PortResultView>, entries: Seq<CveEntry>) -> Seq<PortReportView>
    decreases ports.len(),
{
    if ports.len() == 0 {
        Seq::empty()
    } else {
        let prev = open_port_reports(ports.drop_last(), entries);
        if ports.last().open {
            prev.push(port_report_spec(ports.last(), entries))
        } else {
            prev
        }
    }
}

fn port_report(p: &PortResult, db: &CveDatabase) -> (r: PortReport)
    ensures
        r@ == port_report_spec(p@, db.entries@),
{
    match &p.fingerprint {
        Some(fp) => {
            let cves = match &fp.product {
                Some(prod) => match &fp.version {
                    Some(v) => db.match_service(prod.as_str(), Some(v.as_str())),
                    None => db.match_service(prod.as_str(), None),
                },
                None => {
                    let e: Vec<CveMatch> = Vec::new();
                    assert(match_views(e@) =~= Seq::empty());
                    e
                },
            };
            PortReport {
                port: p.port,
                service: Some(copy_string(&fp.service)),
                product: copy_opt(&fp.product),
                version: copy_opt(&fp.version),
                evidence: copy_strings(&fp.evidence),
                cves,
            }
        },
        None => {
            let e: Vec<CveMatch> = Vec::new();
            assert(match_views(e@) =~= Seq::empty());
            let ev: Vec<String> = Vec::new();
            assert(string_views(ev@) =~= Seq::empty());
            PortReport {
                port: p.port,
                service: None,
                product: None,
                version: None,
                evidence: ev,
                cves: e,
            }
        },
    }
}

/// The report of one host.
fn host_report(h: &HostScanResult, db: &CveDatabase) -> (r: HostReport)
    ensures
        r.target@ == h.target@,
        port_report_views(r.ports@) == open_port_reports(result_views(h.ports@), db.entries@),
{
    let mut ports: Vec<PortReport> = Vec::new();
    for i in 0..h.ports.len()
        invariant
            port_report_views(ports@) == open_port_reports(
                result_views(h.ports@.take(i as int)),
                db.entries@,
            ),
    {
        let ghost pre = result_views(h.ports@.take(i as int));
        let ghost next = result_views(h.ports@.take(i + 1));
        assert(next.drop_last() =~= pre);
        assert(next.last() == h.ports@[i as int]@);
        if h.ports[i].open {
            let ghost before = ports@;
            ports.push(port_report(&h.ports[i], db));
            assert(port_report_views(ports@) =~= port_report_views(before).push(
                port_report_spec(h.ports@[i as int]@, db.entries@),
            ));
        }
        assert(port_report_views(ports@) =~= open_port_reports(next, db.entries@));
    }
    assert(h.ports@.take(h.ports@.len() as int) =~= h.ports@);
    HostReport { target: copy_string(&h.target), ports }
}

/// Joins the scan results with the database: per host, in order, one line per open port.
pub fn build_report(results: &Vec<HostScanResult>, db: &CveDatabase) -> (r: ScanReport)
    ensures
        r.hosts@.len() == results@.len(),
        forall|i: int|
            0 <= i < results@.len() ==> (#[trigger] r.hosts@[i]).target@ == results@[i].target@
                && port_report_views(r.hosts@[i].ports@) == open_port_reports(
                result_views(results@[i].ports@),
                db.entries@,
            ),
{
    let mut hosts: Vec<HostReport> = Vec::new();
    for i in 0..results.len()
        invariant
            hosts@.len() == i,
            forall|k: int|
                0 <= k < i ==> (#[trigger] hosts@[k]).target@ == results@[k].target@
                    && port_report_views(hosts@[k].ports@) == open_port_reports(
                    result_views(results@[k].ports@),
                    db.entries@,
                ),
    {
        hosts.push(host_report(&results[i], db));
    }
    ScanReport { hosts }
}

/// `s` followed by spaces up to `width` characters.
#[verifier::opaque]
pub open spec fn pad(s: Seq<char>, width: nat) -> Seq<char> {
    if s.len() >= width {
        s
    } else {
        s + Seq::new((width - s.len()) as nat, |k: int| ' ')
    }
}

pub open spec fn or_dash(s: Option<Seq<char>>) -> Seq<char> {
    match s {
        Some(x) => x,
        None => seq!['-'],
    }
}

/// The parts with `sep` between them.
pub open spec fn join(parts: Seq<Seq<char>>, sep: Seq<char>) -> Seq<char>
    decreases parts.len(),
{
    if parts.len() == 0 {
        Seq::empty()
    } else if parts.len() == 1 {
        parts[0]
    } else {
        join(parts.drop_last(), sep) + sep + parts.last()
    }
}

/// A CVSS score in tenths as an optional decimal: `Some(9.8)` or `None`.
pub open spec fn score_text(tenths: Option<u16>) -> Seq<char> {
    match tenths {
        Some(t) => "Some("@ + decimal((t / 10) as nat) + seq!['.'] + decimal((t % 10) as nat)
            + seq![')'],
        None => "None"@,
    }
}

pub open spec fn cve_lines(m: CveMatchView) -> Seq<char> {
    "  - "@ + m.cve_id + " CVSS:"@ + score_text(m.cvss_tenths) + seq![' '] + m.summary + seq!['\n']
        + "    Remediation: "@ + m.remediation + seq!['\n'] + if m.references.len() > 0 {
        "    References: "@ + join(m.references, ", "@) + seq!['\n']
    } else {
        Seq::empty()
    }
}

pub open spec fn cves_lines(ms: Seq<CveMatchView>) -> Seq<char>
    decreases ms.len(),
{
    if ms.len() == 0 {
        Seq::empty()
    } else {
        cves_lines(ms.drop_last()) + cve_lines(ms.last())
    }
}

/// The table row of a port, its matches, and its evidence where asked for.
pub open spec fn port_lines(target: Seq<char>, p: PortReportView, show_evidence: bool) -> Seq<char> {
    port_row(target, p) + cves_lines(p.cves) + evidence_lines(p, show_evidence)
}

pub open spec fn evidence_lines(p: PortReportView, show_evidence: bool) -> Seq<char> {
    if show_evidence && p.evidence.len() > 0 {
        "    Evidence: "@ + join(p.evidence, " | "@) + seq!['\n']
    } else {
        Seq::empty()
    }
}

/// The table row of a port: target, port, service, product, version and the number of
/// matches, each padded to its column.
pub open spec fn port_row(target: Seq<char>, p: PortReportView) -> Seq<char> {
    pad(target, 17) + seq![' '] + pad(decimal(p.port as nat), 6) + seq![' '] + pad(
        or_dash(p.service),
        8,
    ) + seq![' '] + pad(or_dash(p.product), 15) + seq![' '] + pad(or_dash(p.version), 8) + seq![
        ' ',
    ] + pad(decimal(p.cves.len()), 3) + seq!['\n']
}

pub open spec fn ports_lines(target: Seq<char>, ps: Seq<PortReportView>, show_evidence: bool) -> Seq<char>
    decreases ps.len(),
{
    if ps.len() == 0 {
        Seq::empty()
    } else {
        ports_lines(target, ps.drop_last(), show_evidence) + port_lines(target, ps.last(), show_evidence)
    }
}

pub open spec fn hosts_lines(hosts: Seq<HostReport>, show_evidence: bool) -> Seq<char>
    decreases hosts.len(),
{
    if hosts.len() == 0 {
        Seq::empty()
    } else {
        hosts_lines(hosts.drop_last(), show_evidence) + ports_lines(
            hosts.last().target@,
            port_report_views(hosts.last().ports@),
            show_evidence,
        )
    }
}

pub open spec fn table_header() -> Seq<char> {
    "TARGET            PORT   SERVICE  PRODUCT         VERSION   CVES\n"@
        + "-------------------------------------------------------------------\n"@
}

fn append(out: &mut Vec<char>, s: &Vec<char>)
    ensures
        final(out)@ == old(out)@ + s@,
{
    let ghost base = out@;
    for i in 0..s.len()
        invariant
            out@ == base + s@.take(i as int),
    {
        out.push(s[i]);
        assert(out@ =~= base + s@.take(i + 1));
    }
    assert(s@.take(s@.len() as int) =~= s@);
}

fn append_str(out: &mut Vec<char>, s: &str)
    ensures
        final(out)@ == old(out)@ + s@,
{
    append(out, &chars_of(s));
}

fn append_padded(out: &mut Vec<char>, s: &Vec<char>, width: usize)
    ensures
        final(out)@ == old(out)@ + pad(s@, width as nat),
{
    append(out, s);
    let ghost base = out@;
    let mut k: usize = s.len();
    while k < width
        invariant
            s@.len() <= k <= width || (k == s@.len() && k >= width),
            out@ == base + Seq::new((k - s@.len()) as nat, |q: int| ' '),
        decreases width - k,
    {
        out.push(' ');
        k += 1;
        assert(out@ =~= base + Seq::new((k - s@.len()) as nat, |q: int| ' '));
    }
    assert(s@.len() >= width ==> Seq::new((k - s@.len()) as nat, |q: int| ' ') =~= Seq::<char>::empty());
    reveal(pad);
    assert(out@ =~= old(out)@ + pad(s@, width as nat));
}

fn append_joined(out: &mut Vec<char>, parts: &Vec<String>, sep: &str)
    ensures
        final(out)@ == old(out)@ + join(string_views(parts@), sep@),
{
    let ghost base = out@;
    for i in 0..parts.len()
        invariant
            out@ == base + join(string_views(parts@.take(i as int)), sep@),
    {
        let ghost pre = string_views(parts@.take(i as int));
        let ghost next = string_views(parts@.take(i + 1));
        assert(next.drop_last() =~= pre);
        assert(next.last() == parts@[i as int]@);
        if i > 0 {
            append_str(out, sep);
        }
        append_str(out, parts[i].as_str());
        assert(out@ =~= base + join(next, sep@));
    }
    assert(parts@.take(parts@.len() as int) =~= parts@);
}

fn decimal_chars(n: u64) -> (r: Vec<char>)
    ensures
        r@ == decimal(n as nat),
{
    let mut v: Vec<char> = Vec::new();
    push_decimal(n, &mut v);
    assert(v@ =~= decimal(n as nat));
    v
}

fn append_score(out: &mut Vec<char>, tenths: Option<u16>)
    ensures
        final(out)@ == old(out)@ + score_text(tenths),
{
    match tenths {
        Some(t) => {
            append_str(out, "Some(");
            push_decimal((t / 10) as u64, out);
            out.push('.');
            push_decimal((t % 10) as u64, out);
            out.push(')');
        },
        None => append_str(out, "None"),
    }
    assert(out@ =~= old(out)@ + score_text(tenths));
}

fn append_cve(out: &mut Vec<char>, m: &CveMatch)
    ensures
        final(out)@ == old(out)@ + cve_lines(m@),
{
    append_str(out, "  - ");
    append_str(out, m.cve_id.as_str());
    append_str(out, " CVSS:");
    append_score(out, m.cvss_tenths);
    out.push(' ');
    append_str(out, m.summary.as_str());
    out.push('\n');
    append_str(out, "    Remediation: ");
    append_str(out, m.remediation.as_str());
    out.push('\n');
    if m.references.len() > 0 {
        append_str(out, "    References: ");
        append_joined(out, &m.references, ", ");
        out.push('\n');
    }
    assert(out@ =~= old(out)@ + cve_lines(m@));
}

fn opt_chars(s: &Option<String>) -> (r: Vec<char>)
    ensures
        r@ == or_dash(opt_string_view(*s)),
{
    match s {
        Some(x) => chars_of(x.as_str()),
        None => {
            let mut v: Vec<char> = Vec::new();
            v.push('-');
            assert(v@ =~= seq!['-']);
            v
        },
    }
}

fn append_row(out: &mut Vec<char>, target: &Vec<char>, p: &PortReport)
    ensures
        final(out)@ == old(out)@ + port_row(target@, p@),
{
    let ghost s0 = out@;
    append_padded(out, target, 17);
    out.push(' ');
    let ghost a = pad(target@, 17) + seq![' '];
    assert(out@ =~= s0 + a);
    append_padded(out, &decimal_chars(p.port as u64), 6);
    out.push(' ');
    let ghost b = a + pad(decimal(p.port as nat), 6) + seq![' '];
    assert(out@ =~= s0 + b);
    append_padded(out, &opt_chars(&p.service), 8);
    out.push(' ');
    let ghost c = b + pad(or_dash(p@.service), 8) + seq![' '];
    assert(out@ =~= s0 + c);
    append_padded(out, &opt_chars(&p.product), 15);
    out.push(' ');
    let ghost d = c + pad(or_dash(p@.product), 15) + seq![' '];
    assert(out@ =~= s0 + d);
    append_padded(out, &opt_chars(&p.version), 8);
    out.push(' ');
    let ghost e = d + pad(or_dash(p@.version), 8) + seq![' '];
    assert(out@ =~= s0 + e);
    append_padded(out, &decimal_chars(p.cves.len() as u64), 3);
    out.push('\n');
    assert(p@.cves.len() == p.cves@.len());
    let ghost f = e + pad(decimal(p@.cves.len()), 3) + seq!['\n'];
    assert(out@ =~= s0 + f);
    assert(f == port_row(target@, p@));
    assert(out@ =~= old(out)@ + port_row(target@, p@));
}

fn append_port(out: &mut Vec<char>, target: &Vec<char>, p: &PortReport, show_evidence: bool)
    ensures
        final(out)@ == old(out)@ + port_lines(target@, p@, show_evidence),
{
    append_row(out, target, p);
    let ghost row = out@;
    for i in 0..p.cves.len()
        invariant
            out@ == row + cves_lines(match_views(p.cves@.take(i as int))),
    {
        let ghost pre = match_views(p.cves@.take(i as int));
        let ghost next = match_views(p.cves@.take(i + 1));
        assert(next.drop_last() =~= pre);
        assert(next.last() == p.cves@[i as int]@);
        append_cve(out, &p.cves[i]);
        assert(out@ =~= row + cves_lines(next));
    }
    assert(p.cves@.take(p.cves@.len() as int) =~= p.cves@);
    let ghost listed = out@;
    if show_evidence && p.evidence.len() > 0 {
        append_str(out, "    Evidence: ");
        append_joined(out, &p.evidence, " | ");
        out.push('\n');
    }
    assert(out@ =~= listed + evidence_lines(p@, show_evidence));
    assert(out@ =~= old(out)@ + port_lines(target@, p@, show_evidence));
}

/// The report as a text table: a header, then per open port a row with its matches and,
/// where asked for, its evidence.
pub fn render_table(report: &ScanReport, show_evidence: bool) -> (r: String)
    ensures
        r@ == table_header() + hosts_lines(report.hosts@, show_evidence),
{
    let mut out: Vec<char> = Vec::new();
    append_str(&mut out, "TARGET            PORT   SERVICE  PRODUCT         VERSION   CVES\n");
    append_str(&mut out, "-------------------------------------------------------------------\n");
    let ghost head = out@;
    let hosts = &report.hosts;
    for i in 0..hosts.len()
        invariant
            out@ == head + hosts_lines(hosts@.take(i as int), show_evidence),
    {
        let ghost pre = hosts@.take(i as int);
        let ghost next = hosts@.take(i + 1);
        assert(next.drop_last() =~= pre);
        let host = &hosts[i];
        let target = chars_of(host.target.as_str());
        let ghost mid = out@;
        for j in 0..host.ports.len()
            invariant
                out@ == mid + ports_lines(target@, port_report_views(host.ports@.take(j as int)), show_evidence),
        {
            let ghost ppre = port_report_views(host.ports@.take(j as int));
            let ghost pnext = port_report_views(host.ports@.take(j + 1));
            assert(pnext.drop_last() =~= ppre);
            assert(pnext.last() == host.ports@[j as int]@);
            append_port(&mut out, &target, &host.ports[j], show_evidence);
            assert(out@ =~= mid + ports_lines(target@, pnext, show_evidence));
        }
        assert(host.ports@.take(host.ports@.len() as int) =~= host.ports@);
        assert(out@ =~= head + hosts_lines(next, show_evidence));
    }
    assert(hosts@.take(hosts@.len() as int) =~= hosts@);
    string_of(&out)
}

} // verus!
