//! The scan orchestrator's state: the job matrix, the bounded dispatch of jobs, the record
//! of completed jobs with its running statistics, and the final per-host results.
use crate::fingerprint::{copy_opt, opt_fp_view, FingerprintView, ServiceFingerprint};
use crate::ports::{sorted_unique, strictly_ascending};
use crate::text::{chars_of, copy_string, copy_strings, string_of, string_views};
use vstd::prelude::*;
use vstd::string::*;

verus! {

/// Run parameters: the deadline of each network operation and the number of jobs that may
/// be in flight at once.
#[derive(Clone, Copy, Debug)]
pub struct ScanConfig {
    pub timeout_ms: u64,
    pub concurrency: usize,
}

/// Run-wide counters.
#[derive(Clone, Copy, Debug, PartialEq, Eq, Structural)]
pub struct ScanStats {
    pub total_targets: usize,
    pub total_ports: usize,
    pub scanned: usize,
    pub open_ports: usize,
    pub services_identified: usize,
    pub cves_matched: usize,
}

/// One unit of work: a port of a host.
#[derive(Clone, Debug)]
pub struct ScanJob {
    pub target: String,
    pub port: u16,
}

/// The outcome of one job.
#[derive(Clone, Debug)]
pub struct PortResult {
    pub port: u16,
    pub open: bool,
    pub fingerprint: Option<ServiceFingerprint>,
}

/// All port outcomes of one host.
#[derive(Clone, Debug)]
pub struct HostScanResult {
    pub target: String,
    pub ports: Vec<PortResult>,
}

/// A progress notification, sent as each job completes.
#[derive(Clone, Debug)]
pub struct ScanEvent {
    pub message: String,
    pub current_target: String,
    pub current_port: u16,
    pub stats: ScanStats,
}

/// The value of a `PortResult`.
pub struct PortResultView {
    pub port: u16,
    pub open: bool,
    pub fingerprint: Option<FingerprintView>,
}

impl View for PortResult {
    type V = PortResultView;

    open spec fn view(&self) -> PortResultView {
        PortResultView {
            port: self.port,
            open: self.open,
            fingerprint: opt_fp_view(self.fingerprint),
        }
    }
}

/// The value of a `HostScanResult`.
pub struct HostView {
    pub target: Seq<char>,
    pub ports: Seq<PortResultView>,
}

pub open spec fn result_views(s: Seq<PortResult>) -> Seq<PortResultView> {
    s.map_values(|p: PortResult| p@)
}

impl View for HostScanResult {
    type V = HostView;

    open spec fn view(&self) -> HostView {
        HostView { target: self.target@, ports: result_views(self.ports@) }
    }
}

pub open spec fn host_views(s: Seq<HostScanResult>) -> Seq<HostView> {
    s.map_values(|h: HostScanResult| h@)
}

/// The outcome of a job: a closed port never carries a fingerprint.
pub open spec fn port_result_spec(port: u16, open: bool, fingerprint: Option<FingerprintView>) -> PortResultView {
    PortResultView {
        port,
        open,
        fingerprint: if open {
            fingerprint
        } else {
            None
        },
    }
}

/// The outcome of a job on `port`, given whether it was open and what fingerprinting found.
pub fn port_result(port: u16, open: bool, fingerprint: Option<ServiceFingerprint>) -> (r: PortResult)
    ensures
        r@ == port_result_spec(port, open, opt_fp_view(fingerprint)),
{
    PortResult {
        port,
        open,
        fingerprint: if open {
            fingerprint
        } else {
            None
        },
    }
}

pub open spec fn count_filled(s: Seq<Option<PortResultView>>) -> nat
    decreases s.len(),
{
    if s.len() == 0 {
        0
    } else {
        count_filled(s.drop_last()) + if s.last().is_some() {
            1nat
        } else {
            0
        }
    }
}

pub open spec fn count_open(s: Seq<Option<PortResultView>>) -> nat
    decreases s.len(),
{
    if s.len() == 0 {
        0
    } else {
        count_open(s.drop_last()) + if s.last() matches Some(r) && r.open {
            1nat
        } else {
            0
        }
    }
}

pub open spec fn count_identified(s: Seq<Option<PortResultView>>) -> nat
    decreases s.len(),
{
    if s.len() == 0 {
        0
    } else {
        count_identified(s.drop_last()) + if s.last() matches Some(r) && r.fingerprint.is_some() {
            1nat
        } else {
            0
        }
    }
}

proof fn lemma_counts_bounded(s: Seq<Option<PortResultView>>)
    ensures
        count_open(s) <= count_filled(s) <= s.len(),
        count_identified(s) <= count_filled(s),
    decreases s.len(),
{
    if s.len() > 0 {
        lemma_counts_bounded(s.drop_last());
    }
}

proof fn lemma_counts_update(s: Seq<Option<PortResultView>>, k: int, r: PortResultView)
    requires
        0 <= k < s.len(),
        s[k].is_none(),
    ensures
        count_filled(s.update(k, Some(r))) == count_filled(s) + 1,
        count_open(s.update(k, Some(r))) == count_open(s) + if r.open {
            1nat
        } else {
            0
        },
        count_identified(s.update(k, Some(r))) == count_identified(s) + if r.fingerprint.is_some() {
            1nat
        } else {
            0
        },
    decreases s.len(),
{
    let u = s.update(k, Some(r));
    if k == s.len() - 1 {
        assert(u.drop_last() =~= s.drop_last());
    } else {
        lemma_counts_update(s.drop_last(), k, r);
        assert(u.drop_last() =~= s.drop_last().update(k, Some(r)));
    }
}

proof fn lemma_all_filled(s: Seq<Option<PortResultView>>)
    requires
        count_filled(s) == s.len(),
    ensures
        forall|k: int| 0 <= k < s.len() ==> (#[trigger] s[k]).is_some(),
    decreases s.len(),
{
    if s.len() > 0 {
        lemma_counts_bounded(s.drop_last());
        lemma_all_filled(s.drop_last());
        assert forall|k: int| 0 <= k < s.len() implies (#[trigger] s[k]).is_some() by {
            if k < s.len() - 1 {
                assert(s[k] == s.drop_last()[k]);
            }
        }
    }
}

proof fn lemma_none_filled(n: nat)
    ensures
        count_filled(Seq::new(n, |k: int| None::<PortResultView>)) == 0,
        count_open(Seq::new(n, |k: int| None::<PortResultView>)) == 0,
        count_identified(Seq::new(n, |k: int| None::<PortResultView>)) == 0,
    decreases n,
{
    if n > 0 {
        lemma_none_filled((n - 1) as nat);
        assert(Seq::new(n, |k: int| None::<PortResultView>).drop_last() =~= Seq::new(
            (n - 1) as nat,
            |k: int| None::<PortResultView>,
        ));
    }
}

proof fn lemma_index_bound(i: int, j: int, t: int, p: int)
    requires
        0 <= i < t,
        0 <= j < p,
    ensures
        0 <= i * p + j < t * p,
        i * p + j < (i + 1) * p,
        (i + 1) * p <= t * p,
{
    assert(0 <= i * p + j < t * p) by (nonlinear_arith)
        requires
            0 <= i < t,
            0 <= j < p,
    ;
    assert((i + 1) * p == i * p + p) by (nonlinear_arith);
    assert((i + 1) * p <= t * p) by (nonlinear_arith)
        requires
            0 <= i < t,
            0 <= p,
    ;
}

pub open spec fn opt_result_view(o: Option<PortResult>) -> Option<PortResultView> {
    match o {
        Some(r) => Some(r@),
        None => None,
    }
}

fn copy_result(r: &PortResult) -> (c: PortResult)
    ensures
        c@ == r@,
{
    let fingerprint = match &r.fingerprint {
        Some(f) => Some(
            ServiceFingerprint {
                service: copy_string(&f.service),
                product: copy_opt(&f.product),
                version: copy_opt(&f.version),
                evidence: copy_strings(&f.evidence),
            },
        ),
        None => None,
    };
    PortResult { port: r.port, open: r.open, fingerprint }
}

pub open spec fn decimal_digit(d: nat) -> char {
    ((48 + d) as u8) as char
}

/// The decimal digits of `n`.
pub open spec fn decimal(n: nat) -> Seq<char>
    decreases n,
{
    if n < 10 {
        seq![decimal_digit(n)]
    } else {
        decimal(n / 10).push(decimal_digit(n % 10))
    }
}

/// Appends the decimal digits of `n`.
pub fn push_decimal(n: u64, out: &mut Vec<char>)
    ensures
        final(out)@ == old(out)@ + decimal(n as nat),
    decreases n,
{
    if n >= 10 {
        push_decimal(n / 10, out);
    }
    out.push(((48 + n % 10) as u8) as char);
}

/// The message of the event for a job: `open host:port` or `closed host:port`.
pub open spec fn event_message(target: Seq<char>, port: u16, open: bool) -> Seq<char> {
    (if open {
        seq!['o', 'p', 'e', 'n', ' ']
    } else {
        seq!['c', 'l', 'o', 's', 'e', 'd', ' ']
    }) + target + seq![':'] + decimal(port as nat)
}

fn message(target: &String, port: u16, open: bool) -> (r: String)
    ensures
        r@ == event_message(target@, port, open),
{
    let mut out: Vec<char> = if open {
        vec!['o', 'p', 'e', 'n', ' ']
    } else {
        vec!['c', 'l', 'o', 's', 'e', 'd', ' ']
    };
    let t = chars_of(target.as_str());
    for i in 0..t.len()
        invariant
            out@ == (if open {
                seq!['o', 'p', 'e', 'n', ' ']
            } else {
                seq!['c', 'l', 'o', 's', 'e', 'd', ' ']
            }) + t@.subrange(0, i as int),
    {
        out.push(t[i]);
        assert(out@ =~= (if open {
            seq!['o', 'p', 'e', 'n', ' ']
        } else {
            seq!['c', 'l', 'o', 's', 'e', 'd', ' ']
        }) + t@.subrange(0, i + 1));
    }
    assert(t@.subrange(0, t@.len() as int) =~= t@);
    out.push(':');
    push_decimal(port as u64, &mut out);
    assert(out@ =~= event_message(target@, port, open));
    string_of(&out)
}

fn same_text(a: &String, b: &String) -> (r: bool)
    ensures
        r == (a@ == b@),
{
    let x = chars_of(a.as_str());
    let y = chars_of(b.as_str());
    if x.len() != y.len() {
        return false;
    }
    for i in 0..x.len()
        invariant
            x@ == a@,
            y@ == b@,
            x@.len() == y@.len(),
            forall|k: int| 0 <= k < i ==> x@[k] == y@[k],
    {
        if x[i] != y[i] {
            return false;
        }
    }
    assert(x@ =~= y@);
    true
}

/// The texts of `v`, each once, in the order of first appearance.
#[verifier::rlimit(60)]
fn distinct_texts(v: &Vec<String>) -> (r: Vec<String>)
    ensures
        r@.len() <= v@.len(),
        forall|a: int, b: int| 0 <= a < b < r@.len() ==> r@[a]@ != r@[b]@,
        forall|x: Seq<char>| string_views(r@).contains(x) <==> string_views(v@).contains(x),
{
    let mut r: Vec<String> = Vec::new();
    let ghost mut from: Seq<int> = Seq::empty();
    let ghost mut to: Seq<int> = Seq::empty();
    for i in 0..v.len()
        invariant
            r@.len() <= i <= v@.len(),
            forall|a: int, b: int| 0 <= a < b < r@.len() ==> r@[a]@ != r@[b]@,
            from.len() == r@.len(),
            forall|q: int|
                0 <= q < r@.len() ==> 0 <= #[trigger] from[q] < i && v@[from[q]]@ == r@[q]@,
            to.len() == i,
            forall|k: int| 0 <= k < i ==> 0 <= #[trigger] to[k] < r@.len() && r@[to[k]]@ == v@[k]@,
    {
        let mut found: Option<usize> = None;
        for j in 0..r.len()
            invariant
                i < v@.len(),
                match found {
                    Some(q) => q < r@.len() && r@[q as int]@ == v@[i as int]@,
                    None => forall|q: int| 0 <= q < j ==> r@[q]@ != v@[i as int]@,
                },
        {
            if found.is_none() && same_text(&r[j], &v[i]) {
                found = Some(j);
            }
        }
        match found {
            Some(q) => {
                proof {
                    to = to.push(q as int);
                }
            },
            None => {
                let ghost before = r@;
                r.push(copy_string(&v[i]));
                proof {
                    from = from.push(i as int);
                    to = to.push(before.len() as int);
                    assert forall|a: int, b: int| 0 <= a < b < r@.len() implies r@[a]@ != r@[b]@ by {
                        if b < before.len() {
                            assert(r@[a] == before[a] && r@[b] == before[b]);
                        } else {
                            assert(r@[a] == before[a]);
                        }
                    }
                    assert forall|q: int| 0 <= q < r@.len() implies 0 <= #[trigger] from[q] < i + 1
                        && v@[from[q]]@ == r@[q]@ by {
                        if q < before.len() {
                            assert(r@[q] == before[q]);
                        }
                    }
                    assert forall|k: int| 0 <= k < i + 1 implies 0 <= #[trigger] to[k] < r@.len()
                        && r@[to[k]]@ == v@[k]@ by {
                        if k < i {
                            assert(r@[to[k]] == before[to[k]]);
                        }
                    }
                }
            },
        }
    }
    assert forall|x: Seq<char>| string_views(r@).contains(x) <==> string_views(v@).contains(x) by {
        if string_views(r@).contains(x) {
            let q = choose|q: int| 0 <= q < r@.len() && #[trigger] string_views(r@)[q] == x;
            assert(string_views(v@)[from[q]] == x);
        }
        if string_views(v@).contains(x) {
            let k = choose|k: int| 0 <= k < v@.len() && #[trigger] string_views(v@)[k] == x;
            assert(string_views(r@)[to[k]] == x);
        }
    }
    r
}

/// The job matrix and the results recorded so far.
pub struct ScanState {
    targets: Vec<String>,
    ports: Vec<u16>,
    jobs: Vec<ScanJob>,
    slots: Vec<Option<PortResult>>,
    stats: ScanStats,
}

impl ScanState {
    pub closed spec fn targets(&self) -> Seq<Seq<char>> {
        string_views(self.targets@)
    }

    pub closed spec fn ports(&self) -> Seq<u16> {
        self.ports@
    }

    /// The recorded outcome of each job, `None` while it runs.
    pub closed spec fn slots(&self) -> Seq<Option<PortResultView>> {
        self.slots@.map_values(|o: Option<PortResult>| opt_result_view(o))
    }

    pub closed spec fn stats(&self) -> ScanStats {
        self.stats
    }

    /// The job with index `k`: target `k / |ports|`, port `k % |ports|`.
    pub closed spec fn job(&self, k: int) -> (Seq<char>, u16) {
        (self.jobs@[k].target@, self.jobs@[k].port)
    }

    pub closed spec fn wf(&self) -> bool {
        let t = self.targets@.len();
        let p = self.ports@.len();
        &&& self.jobs@.len() == t * p
        &&& self.slots@.len() == t * p
        &&& forall|i: int, j: int|
            0 <= i < t && 0 <= j < p ==> #[trigger] self.job(i * p + j) == (
                self.targets@[i]@,
                self.ports@[j],
            )
        &&& forall|k: int|
            0 <= k < t * p && (#[trigger] self.slots()[k]).is_some() ==> self.slots()[k].unwrap()
                == port_result_spec(
                self.jobs@[k].port,
                self.slots()[k].unwrap().open,
                self.slots()[k].unwrap().fingerprint,
            )
        &&& self.stats.total_targets == t
        &&& self.stats.total_ports == t * p
        &&& self.stats.scanned == count_filled(self.slots())
        &&& self.stats.open_ports == count_open(self.slots())
        &&& self.stats.services_identified == count_identified(self.slots())
        &&& self.stats.cves_matched == 0
        &&& strictly_ascending(self.ports@)
        &&& forall|a: int, b: int| 0 <= a < b < t ==> self.targets@[a]@ != self.targets@[b]@
    }

    /// The job matrix of `targets` × `ports`, target-major, with each target once (in the
    /// order of first appearance), the ports in ascending order, each once, and nothing
    /// recorded yet.
    pub fn new(given_targets: Vec<String>, ports: Vec<u16>) -> (r: ScanState)
        requires
            given_targets@.len() * ports@.len() <= usize::MAX,
        ensures
            r.wf(),
            forall|a: int, b: int|
                0 <= a < b < r.targets().len() ==> r.targets()[a] != r.targets()[b],
            forall|x: Seq<char>| r.targets().contains(x) <==> string_views(given_targets@).contains(x),
            strictly_ascending(r.ports()),
            forall|y: u16| r.ports().contains(y) <==> ports@.contains(y),
            r.slots().len() == r.targets().len() * r.ports().len(),
            forall|i: int, j: int|
                0 <= i < r.targets().len() && 0 <= j < r.ports().len() ==> #[trigger] r.job(
                    i * r.ports().len() + j,
                ) == (r.targets()[i], r.ports()[j]),
            forall|k: int| 0 <= k < r.slots().len() ==> (#[trigger] r.slots()[k]).is_none(),
            r.stats() == (ScanStats {
                total_targets: r.targets().len() as usize,
                total_ports: (r.targets().len() * r.ports().len()) as usize,
                scanned: 0,
                open_ports: 0,
                services_identified: 0,
                cves_matched: 0,
            }),
    {
        let given_t = given_targets.len();
        let targets = distinct_texts(&given_targets);
        let unique = sorted_unique(&ports);
        let t = targets.len();
        let p = unique.len();
        let given = ports.len();
        assert(t * p <= given_t * given) by (nonlinear_arith)
            requires
                p <= given,
                t <= given_t,
                0 <= t,
                0 <= p,
        ;
        let mut jobs: Vec<ScanJob> = Vec::new();
        assert(0 * (p as int) == 0);
        for i in 0..t
            invariant
                t == targets@.len(),
                p == unique@.len(),
                t * p <= usize::MAX,
                jobs@.len() == i * p,
                forall|a: int, b: int|
                    0 <= a < i && 0 <= b < p ==> (#[trigger] jobs@[a * p + b]).target@
                        == targets@[a]@ && jobs@[a * p + b].port == unique@[b],
        {
            for j in 0..p
                invariant
                    t == targets@.len(),
                    p == unique@.len(),
                    i < t,
                    t * p <= usize::MAX,
                    jobs@.len() == i * p + j,
                    forall|a: int, b: int|
                        0 <= a < i && 0 <= b < p ==> (#[trigger] jobs@[a * p + b]).target@
                            == targets@[a]@ && jobs@[a * p + b].port == unique@[b],
                    forall|b: int|
                        0 <= b < j ==> (#[trigger] jobs@[i * p + b]).target@ == targets@[i as int]@
                            && jobs@[i * p + b].port == unique@[b],
            {
                proof {
                    lemma_index_bound(i as int, j as int, t as int, p as int);
                }
                let job = ScanJob { target: copy_string(&targets[i]), port: unique[j] };
                let ghost before = jobs@;
                jobs.push(job);
                proof {
                    assert forall|a: int, b: int|
                        0 <= a < i && 0 <= b < p implies (#[trigger] jobs@[a * p + b]).target@
                        == targets@[a]@ && jobs@[a * p + b].port == unique@[b] by {
                        lemma_index_bound(a, b, i as int, p as int);
                        assert(jobs@[a * p + b] == before[a * p + b]);
                    }
                    assert forall|b: int|
                        0 <= b < j + 1 implies (#[trigger] jobs@[i * p + b]).target@
                        == targets@[i as int]@ && jobs@[i * p + b].port == unique@[b] by {
                        if b < j {
                            assert(jobs@[i * p + b] == before[i * p + b]);
                        }
                    }
                }
            }
            proof {
                assert((i + 1) * p == i * p + p) by (nonlinear_arith);
                assert forall|a: int, b: int|
                    0 <= a < i + 1 && 0 <= b < p implies (#[trigger] jobs@[a * p + b]).target@
                    == targets@[a]@ && jobs@[a * p + b].port == unique@[b] by {
                    if a == i {
                        assert(jobs@[i * p + b] == jobs@[a * p + b]);
                    }
                }
            }
        }
        let n = t * p;
        let mut slots: Vec<Option<PortResult>> = Vec::new();
        for k in 0..n
            invariant
                slots@.len() == k,
                forall|q: int| 0 <= q < k ==> (#[trigger] slots@[q]).is_none(),
        {
            slots.push(None);
        }
        let stats = ScanStats {
            total_targets: t,
            total_ports: n,
            scanned: 0,
            open_ports: 0,
            services_identified: 0,
            cves_matched: 0,
        };
        let r = ScanState { targets, ports: unique, jobs, slots, stats };
        proof {
            assert(r.slots() =~= Seq::new(n as nat, |k: int| None::<PortResultView>));
            lemma_none_filled(n as nat);
        }
        r
    }

    pub fn job_count(&self) -> (r: usize)
        requires
            self.wf(),
        ensures
            r == self.slots().len(),
    {
        self.jobs.len()
    }

    /// The job with index `k`.
    pub fn job_at(&self, k: usize) -> (r: &ScanJob)
        requires
            self.wf(),
            k < self.slots().len(),
        ensures
            (r.target@, r.port) == self.job(k as int),
    {
        &self.jobs[k]
    }

    pub fn stats_now(&self) -> (r: ScanStats)
        ensures
            r == self.stats(),
    {
        self.stats
    }

    /// Records the outcome of job `k`: whether its port was open and what fingerprinting
    /// found. A closed port is recorded without a fingerprint. The counters move with it, and
    /// the event carries their new values. A job out of range or already recorded changes
    /// nothing and gives no event.
    pub fn complete(&mut self, k: usize, open: bool, fingerprint: Option<ServiceFingerprint>) -> (r:
        Option<ScanEvent>)
        requires
            old(self).wf(),
        ensures
            final(self).wf(),
            final(self).targets() == old(self).targets(),
            final(self).ports() == old(self).ports(),
            forall|q: int| #[trigger] final(self).job(q) == old(self).job(q),
            r.is_some() == (k < old(self).slots().len() && old(self).slots()[k as int].is_none()),
            r.is_some() ==> final(self).slots() == old(self).slots().update(
                k as int,
                Some(port_result_spec(old(self).job(k as int).1, open, opt_fp_view(fingerprint))),
            ),
            r.is_none() ==> final(self).slots() == old(self).slots() && final(self).stats() == old(
                self,
            ).stats(),
            r matches Some(e) ==> {
                &&& e.stats == final(self).stats()
                &&& e.current_target@ == old(self).job(k as int).0
                &&& e.current_port == old(self).job(k as int).1
                &&& e.message@ == event_message(
                    old(self).job(k as int).0,
                    old(self).job(k as int).1,
                    open,
                )
            },
            r is Some ==> final(self).stats() == (ScanStats {
                scanned: (old(self).stats().scanned + 1) as usize,
                open_ports: (old(self).stats().open_ports + if open {
                    1int
                } else {
                    0
                }) as usize,
                services_identified: (old(self).stats().services_identified + if open
                    && fingerprint.is_some() {
                    1int
                } else {
                    0
                }) as usize,
                ..old(self).stats()
            }),
    {
        if k >= self.slots.len() {
            return None;
        }
        if self.slots[k].is_some() {
            assert(self.slots()[k as int].is_some());
            return None;
        }
        let ghost before = self.slots();
        let ghost old_self = *self;
        let port = self.jobs[k].port;
        let result = port_result(port, open, fingerprint);
        let identified = result.fingerprint.is_some();
        let ghost rv = result@;
        assert(rv.fingerprint.is_some() == identified);
        proof {
            lemma_counts_update(before, k as int, rv);
            lemma_counts_bounded(before.update(k as int, Some(rv)));
        }
        self.slots.set(k, Some(result));
        assert(self.slots() =~= before.update(k as int, Some(rv)));
        self.stats.scanned = self.stats.scanned + 1;
        if open {
            self.stats.open_ports = self.stats.open_ports + 1;
        }
        if identified {
            self.stats.services_identified = self.stats.services_identified + 1;
        }
        let target = &self.jobs[k].target;
        let event = ScanEvent {
            message: message(target, port, open),
            current_target: copy_string(target),
            current_port: port,
            stats: self.stats,
        };
        proof {
            let t = self.targets@.len();
            let p = self.ports@.len();
            assert forall|i: int, j: int| 0 <= i < t && 0 <= j < p implies #[trigger] self.job(
                i * p + j,
            ) == (self.targets@[i]@, self.ports@[j]) by {
                assert(self.job(i * p + j) == old_self.job(i * p + j));
            }
            assert forall|q: int|
                0 <= q < t * p && (#[trigger] self.slots()[q]).is_some() implies self.slots()[q].unwrap()
                == port_result_spec(
                self.jobs@[q].port,
                self.slots()[q].unwrap().open,
                self.slots()[q].unwrap().fingerprint,
            ) by {
                if q != k {
                    assert(self.slots()[q] == before[q]);
                }
            }
        }
        Some(event)
    }

    /// The results per host, in target order, each host's ports in the order of the port
    /// list; there are none until every job has been recorded.
    pub fn finish(&self) -> (r: Option<Vec<HostScanResult>>)
        requires
            self.wf(),
        ensures
            r.is_some() == (self.stats().scanned == self.stats().total_ports),
            r matches Some(hosts) ==> host_views(hosts@) == hosts_spec(
                self.targets(),
                self.ports().len(),
                self.slots(),
            ),
    {
        if self.stats.scanned != self.stats.total_ports {
            return None;
        }
        let ghost s = self.slots();
        proof {
            lemma_all_filled(s);
        }
        let t = self.targets.len();
        let p = self.ports.len();
        let mut hosts: Vec<HostScanResult> = Vec::new();
        for i in 0..t
            invariant
                self.wf(),
                s == self.slots(),
                t == self.targets@.len(),
                p == self.ports@.len(),
                forall|k: int| 0 <= k < s.len() ==> (#[trigger] s[k]).is_some(),
                hosts@.len() == i,
                forall|a: int| 0 <= a < i ==> #[trigger] host_views(hosts@)[a] == host_spec(self.targets(), p as int, s, a),
        {
            let mut ports: Vec<PortResult> = Vec::new();
            for j in 0..p
                invariant
                    self.wf(),
                    s == self.slots(),
                    t == self.targets@.len(),
                    p == self.ports@.len(),
                    i < t,
                    forall|k: int| 0 <= k < s.len() ==> (#[trigger] s[k]).is_some(),
                    ports@.len() == j,
                    forall|b: int| 0 <= b < j ==> #[trigger] result_views(ports@)[b] == s[i * p + b].unwrap(),
            {
                proof {
                    lemma_index_bound(i as int, j as int, t as int, p as int);
                }
                let k = i * p + j;
                match &self.slots[k] {
                    Some(res) => {
                        assert(s[k as int] == Some(res@));
                        let ghost before = ports@;
                        let c = copy_result(res);
                        ports.push(c);
                        assert(ports@[j as int]@ == res@);
                        assert(s[i * p + j] == Some(res@));
                        assert forall|b: int| 0 <= b < j + 1 implies #[trigger] result_views(ports@)[b]
                            == s[i * p + b].unwrap() by {
                            if b < j {
                                assert(ports@[b] == before[b]);
                                assert(result_views(before)[b] == s[i * p + b].unwrap());
                            }
                        }
                    },
                    None => {
                        assert(s[k as int].is_some());
                    },
                }
            }
            let host = HostScanResult { target: copy_string(&self.targets[i]), ports };
            assert(host.target@ == self.targets()[i as int]);
            assert(result_views(host.ports@) =~= Seq::new(
                p as nat,
                |b: int| s[i * p + b].unwrap(),
            ));
            let ghost before = hosts@;
            assert(host@ == host_spec(self.targets(), p as int, s, i as int));
            hosts.push(host);
            assert forall|a: int| 0 <= a < i + 1 implies #[trigger] host_views(hosts@)[a] == host_spec(
                self.targets(),
                p as int,
                s,
                a,
            ) by {
                if a < i {
                    assert(hosts@[a] == before[a]);
                    assert(host_views(before)[a] == host_spec(self.targets(), p as int, s, a));
                }
            }
        }
        assert(host_views(hosts@) =~= hosts_spec(self.targets(), p as nat, s));
        Some(hosts)
    }
}

/// The results of host `i`: its target and the outcomes of its jobs, in port order.
pub open spec fn host_spec(targets: Seq<Seq<char>>, p: int, slots: Seq<Option<PortResultView>>, i: int) -> HostView {
    HostView {
        target: targets[i],
        ports: Seq::new(p as nat, |b: int| slots[i * p + b].unwrap()),
    }
}

pub open spec fn hosts_spec(targets: Seq<Seq<char>>, p: nat, slots: Seq<Option<PortResultView>>) -> Seq<HostView> {
    Seq::new(targets.len(), |i: int| host_spec(targets, p as int, slots, i))
}

/// Hands out job indices in order while at most `limit` jobs are in flight; a finished
/// job frees its place for the next one at once.
pub struct Dispatcher {
    total: usize,
    next: usize,
    in_flight: usize,
    limit: usize,
}

impl Dispatcher {
    pub closed spec fn total(&self) -> nat {
        self.total as nat
    }

    /// The number of jobs handed out so far.
    pub closed spec fn started(&self) -> nat {
        self.next as nat
    }

    pub closed spec fn in_flight(&self) -> nat {
        self.in_flight as nat
    }

    pub closed spec fn limit(&self) -> nat {
        self.limit as nat
    }

    pub closed spec fn wf(&self) -> bool {
        &&& self.next <= self.total
        &&& self.in_flight <= self.next
        &&& self.in_flight <= self.limit
        &&& self.limit >= 1
    }

    pub fn new(total: usize, limit: usize) -> (r: Dispatcher)
        requires
            limit >= 1,
        ensures
            r.wf(),
            r.total() == total,
            r.limit() == limit,
            r.started() == 0,
            r.in_flight() == 0,
    {
        Dispatcher { total, next: 0, in_flight: 0, limit }
    }

    /// The next job to run, if one is left and a place is free.
    pub fn start(&mut self) -> (r: Option<usize>)
        requires
            old(self).wf(),
        ensures
            final(self).wf(),
            final(self).total() == old(self).total(),
            final(self).limit() == old(self).limit(),
            r.is_some() == (old(self).started() < old(self).total() && old(self).in_flight() < old(
                self,
            ).limit()),
            r matches Some(k) ==> k == old(self).started() && final(self).started() == old(
                self,
            ).started() + 1 && final(self).in_flight() == old(self).in_flight() + 1,
            r is None ==> final(self).started() == old(self).started() && final(self).in_flight()
                == old(self).in_flight(),
    {
        if self.next < self.total && self.in_flight < self.limit {
            let k = self.next;
            self.next = self.next + 1;
            self.in_flight = self.in_flight + 1;
            Some(k)
        } else {
            None
        }
    }

    /// Records that one job in flight has finished.
    pub fn finish_one(&mut self)
        requires
            old(self).wf(),
            old(self).in_flight() > 0,
        ensures
            final(self).wf(),
            final(self).total() == old(self).total(),
            final(self).limit() == old(self).limit(),
            final(self).started() == old(self).started(),
            final(self).in_flight() == old(self).in_flight() - 1,
    {
        self.in_flight = self.in_flight - 1;
    }

    pub fn in_flight_now(&self) -> (r: usize)
        ensures
            r == self.in_flight(),
    {
        self.in_flight
    }

    /// Whether every job has been handed out and has finished.
    pub fn is_done(&self) -> (r: bool)
        ensures
            r == (self.started() == self.total() && self.in_flight() == 0),
    {
        self.next == self.total && self.in_flight == 0
    }
}

/// However jobs are started and finished, no more than `limit` are ever in flight.
pub proof fn lemma_in_flight_bounded(d: Dispatcher)
    requires
        d.wf(),
    ensures
        d.in_flight() <= d.limit(),
        d.in_flight() <= d.started() <= d.total(),
{
}

/// Once every job has been recorded, the results hold exactly one outcome for each pair of
/// a requested host and a requested port, each host's ports ascend
/// strictly, and the count of scanned jobs is the number of hosts times the number of ports.
pub proof fn lemma_each_pair_once(state: ScanState, hosts: Seq<HostView>)
    requires
        state.wf(),
        state.stats().scanned == state.stats().total_ports,
        hosts == hosts_spec(state.targets(), state.ports().len(), state.slots()),
    ensures
        strictly_ascending(state.ports()),
        state.stats().scanned == state.targets().len() * state.ports().len(),
        hosts.len() == state.targets().len(),
        forall|i: int|
            0 <= i < hosts.len() ==> (#[trigger] hosts[i]).target == state.targets()[i]
                && hosts[i].ports.len() == state.ports().len(),
        forall|i: int, j: int|
            0 <= i < hosts.len() && 0 <= j < state.ports().len() ==> (
            #[trigger] hosts[i].ports[j]).port == state.ports()[j],
        forall|h1: int, h2: int|
            0 <= h1 < hosts.len() && 0 <= h2 < hosts.len() && (#[trigger] hosts[h1]).target == (
            #[trigger] hosts[h2]).target ==> h1 == h2,
        forall|i: int, q1: int, q2: int|
            0 <= i < hosts.len() && 0 <= q1 < hosts[i].ports.len() && 0 <= q2 < hosts[i].ports.len()
                && (#[trigger] hosts[i].ports[q1]).port == (#[trigger] hosts[i].ports[q2]).port
                ==> q1 == q2,
{
    reveal_wf(state);
    let t = state.targets().len();
    let p = state.ports().len();
    lemma_filled_slots(state);
    assert forall|i: int, j: int|
        0 <= i < hosts.len() && 0 <= j < p implies (#[trigger] hosts[i].ports[j]).port
        == state.ports()[j] by {
        lemma_slot_port(state, i, j);
    }
    assert forall|h1: int, h2: int|
        0 <= h1 < hosts.len() && 0 <= h2 < hosts.len() && (#[trigger] hosts[h1]).target == (
        #[trigger] hosts[h2]).target implies h1 == h2 by {
        if h1 < h2 {
            assert(state.targets()[h1] != state.targets()[h2]);
        } else if h2 < h1 {
            assert(state.targets()[h2] != state.targets()[h1]);
        }
    }
    assert forall|i: int, q1: int, q2: int|
        0 <= i < hosts.len() && 0 <= q1 < hosts[i].ports.len() && 0 <= q2 < hosts[i].ports.len()
            && (#[trigger] hosts[i].ports[q1]).port == (#[trigger] hosts[i].ports[q2]).port
            implies q1 == q2 by {
        lemma_slot_port(state, i, q1);
        lemma_slot_port(state, i, q2);
        if q1 < q2 {
            assert(state.ports()[q1] < state.ports()[q2]);
        } else if q2 < q1 {
            assert(state.ports()[q2] < state.ports()[q1]);
        }
    }
}

proof fn reveal_wf(state: ScanState)
    requires
        state.wf(),
    ensures
        state.slots().len() == state.targets().len() * state.ports().len(),
        state.stats().total_ports == state.targets().len() * state.ports().len(),
{
}

proof fn lemma_filled_slots(state: ScanState)
    requires
        state.wf(),
        state.stats().scanned == state.stats().total_ports,
    ensures
        forall|k: int| 0 <= k < state.slots().len() ==> (#[trigger] state.slots()[k]).is_some(),
{
    lemma_all_filled(state.slots());
}

proof fn lemma_slot_port(state: ScanState, i: int, j: int)
    requires
        state.wf(),
        state.stats().scanned == state.stats().total_ports,
        0 <= i < state.targets().len(),
        0 <= j < state.ports().len(),
    ensures
        host_spec(state.targets(), state.ports().len() as int, state.slots(), i).ports[j].port
            == state.ports()[j],
{
    let p = state.ports().len() as int;
    lemma_index_bound(i, j, state.targets().len() as int, p);
    lemma_filled_slots(state);
    assert(state.slots()[i * p + j].is_some());
    assert(state.job(i * p + j).1 == state.ports()[j]);
}

/// Two records of the same job matrix that hold the same outcomes have the same counters
/// and the same final results, whatever the order in which the outcomes came in.
pub proof fn lemma_same_outcomes_same_results(s1: ScanState, s2: ScanState)
    requires
        s1.wf(),
        s2.wf(),
        s1.targets() == s2.targets(),
        s1.ports() == s2.ports(),
        s1.slots() == s2.slots(),
    ensures
        s1.stats() == s2.stats(),
        hosts_spec(s1.targets(), s1.ports().len(), s1.slots()) == hosts_spec(
            s2.targets(),
            s2.ports().len(),
            s2.slots(),
        ),
{
    assert(s1.targets@.len() == s1.targets().len());
    assert(s2.targets@.len() == s2.targets().len());
    assert(s1.stats =~= s2.stats);
}

/// Recording two different jobs gives the same record in either order: the final results
/// and counters do not depend on the order in which jobs complete.
pub proof fn lemma_completion_order(
    s: Seq<Option<PortResultView>>,
    a: int,
    ra: PortResultView,
    b: int,
    rb: PortResultView,
)
    requires
        0 <= a < s.len(),
        0 <= b < s.len(),
        a != b,
    ensures
        s.update(a, Some(ra)).update(b, Some(rb)) == s.update(b, Some(rb)).update(a, Some(ra)),
{
    assert(s.update(a, Some(ra)).update(b, Some(rb)) =~= s.update(b, Some(rb)).update(a, Some(ra)));
}

} // verus!
