//! Service fingerprinting: the per-protocol readers of banners, HTTP responses and
//! certificates, and the order in which the probes are tried.
use crate::text::{
    all_ascii_digits, all_digits, chars_of, is_space, lemma_split_nonempty, lower_seq, lowercase,
    slice, space, split, split_at_char, string_of, trim, trim_start, trimmed, views,
};
use vstd::prelude::*;
use vstd::string::*;

verus! {

/// Evidence strings are cut to this many characters.
pub const MAX_EVIDENCE: usize = 200;

/// What fingerprinting found on one open port.
#[derive(Clone, Debug)]
pub struct ServiceFingerprint {
    pub service: String,
    pub product: Option<String>,
    pub version: Option<String>,
    pub evidence: Vec<String>,
}

/// The value of a `ServiceFingerprint`.
pub struct FingerprintView {
    pub service: Seq<char>,
    pub product: Option<Seq<char>>,
    pub version: Option<Seq<char>>,
    pub evidence: Seq<Seq<char>>,
}

pub open spec fn opt_string_view(o: Option<String>) -> Option<Seq<char>> {
    match o {
        Some(s) => Some(s@),
        None => None,
    }
}

impl View for ServiceFingerprint {
    type V = FingerprintView;

    open spec fn view(&self) -> FingerprintView {
        FingerprintView {
            service: self.service@,
            product: opt_string_view(self.product),
            version: opt_string_view(self.version),
            evidence: crate::text::string_views(self.evidence@),
        }
    }
}

/// A copy of an optional string.
pub fn copy_opt(s: &Option<String>) -> (r: Option<String>)
    ensures
        opt_string_view(r) == opt_string_view(*s),
{
    match s {
        Some(x) => Some(crate::text::copy_string(x)),
        None => None,
    }
}

pub open spec fn truncate_spec(s: Seq<char>) -> Seq<char> {
    if s.len() <= MAX_EVIDENCE {
        s
    } else {
        s.take(MAX_EVIDENCE as int)
    }
}

/// The index of the first `c` in `s`, or -1.
pub open spec fn first_index_of(s: Seq<char>, c: char) -> int
    decreases s.len(),
{
    if s.len() == 0 {
        -1
    } else if s[0] == c {
        0
    } else {
        let k = first_index_of(s.drop_first(), c);
        if k < 0 {
            -1
        } else {
            k + 1
        }
    }
}

/// The index of the last `c` in `s`, or -1.
pub open spec fn last_index_of(s: Seq<char>, c: char) -> int
    decreases s.len(),
{
    if s.len() == 0 {
        -1
    } else if s.last() == c {
        s.len() - 1
    } else {
        last_index_of(s.drop_last(), c)
    }
}

/// The characters before the first whitespace.
pub open spec fn until_space(s: Seq<char>) -> Seq<char>
    decreases s.len(),
{
    if s.len() == 0 || is_space(s[0]) {
        Seq::empty()
    } else {
        seq![s[0]] + until_space(s.drop_first())
    }
}

/// The first whitespace-separated word, as `split_whitespace().next()` gives it.
pub open spec fn first_word(s: Seq<char>) -> Option<Seq<char>> {
    let t = trim_start(s);
    if t.len() == 0 {
        None
    } else {
        Some(until_space(t))
    }
}

/// A non-empty run of decimal digits.
pub open spec fn digit_run(s: Seq<char>) -> bool {
    s.len() > 0 && all_digits(s)
}

/// An SSH software version such as `OpenSSH_9.3p1` as `major.minor.patch`: text up to the
/// last underscore is dropped, the rest is split at the first `p` (patch `0` without one)
/// and its numeric part at dots; every component must be a non-empty run of decimal digits.
pub open spec fn normalize_ssh_spec(raw: Seq<char>) -> Option<Seq<char>> {
    let v0 = trim(raw);
    let v = v0.skip(last_index_of(v0, '_') + 1);
    let pi = first_index_of(v, 'p');
    let numeric = if pi >= 0 {
        v.take(pi)
    } else {
        v
    };
    let patch = if pi >= 0 {
        v.skip(pi + 1)
    } else {
        seq!['0']
    };
    let parts = split(numeric, '.');
    let major = parts[0];
    let minor = if parts.len() > 1 {
        parts[1]
    } else {
        seq!['0']
    };
    if digit_run(major) && digit_run(minor) && digit_run(patch) {
        Some(major + seq!['.'] + minor + seq!['.'] + patch)
    } else {
        None
    }
}

/// A server description split at its first `/` into product and version, both trimmed;
/// without `/` all of it is the product; an empty description gives neither.
pub open spec fn product_version_spec(raw: Seq<char>) -> (Option<Seq<char>>, Option<Seq<char>>) {
    let k = first_index_of(raw, '/');
    if raw.len() == 0 {
        (None, None)
    } else if k >= 0 {
        (Some(trim(raw.take(k))), Some(trim(raw.skip(k + 1))))
    } else {
        (Some(raw), None)
    }
}

pub open spec fn is_server_line(line: Seq<char>) -> bool {
    line.len() >= 7 && lower_seq(line.take(7)) == seq!['s', 'e', 'r', 'v', 'e', 'r', ':']
}

/// The first line, trimmed, that starts with `server:` in any case.
pub open spec fn server_header_of(lines: Seq<Seq<char>>) -> Option<Seq<char>>
    decreases lines.len(),
{
    if lines.len() == 0 {
        None
    } else if is_server_line(lines[0]) {
        Some(trim(lines[0]))
    } else {
        server_header_of(lines.drop_first())
    }
}

pub open spec fn ssh_banner_prefix(s: Seq<char>) -> bool {
    s.len() >= 4 && s.take(4) == seq!['S', 'S', 'H', '-']
}

/// What an SSH banner tells: nothing unless it starts with `SSH-`; otherwise the service is
/// `ssh`, the product `OpenSSH`, the version read from the first word of its third
/// dash-separated field, and the evidence the trimmed banner.
pub open spec fn ssh_fingerprint_spec(banner: Seq<char>) -> Option<FingerprintView> {
    let t = trim(banner);
    let fields = split(t, '-');
    if !ssh_banner_prefix(t) {
        None
    } else {
        Some(
            FingerprintView {
                service: "ssh"@,
                product: Some("OpenSSH"@),
                version: if fields.len() > 2 {
                    match first_word(fields[2]) {
                        Some(w) => normalize_ssh_spec(w),
                        None => None,
                    }
                } else {
                    None
                },
                evidence: seq![truncate_spec("ssh banner: "@ + t)],
            },
        )
    }
}

/// The value of a header line: everything after its first colon, trimmed.
pub open spec fn header_value(h: Seq<char>) -> Seq<char> {
    let k = first_index_of(h, ':');
    if k >= 0 {
        trim(h.skip(k + 1))
    } else {
        Seq::empty()
    }
}

/// What an HTTP response tells: product and version from the `Server` header's value, and
/// that header line as evidence.
pub open spec fn http_fingerprint_spec(response: Seq<char>) -> FingerprintView {
    let header = server_header_of(split(response, '\n'));
    let pv = match header {
        Some(h) => product_version_spec(header_value(h)),
        None => (None, None),
    };
    FingerprintView {
        service: "http"@,
        product: pv.0,
        version: pv.1,
        evidence: seq![
            truncate_spec(
                "http server header: "@ + match header {
                    Some(h) => h,
                    None => "none"@,
                },
            ),
        ],
    }
}

/// The first `MAX_EVIDENCE` characters of `value`.
pub fn truncate(value: &str) -> (r: String)
    ensures
        r@ == truncate_spec(value@),
{
    let v = chars_of(value);
    if v.len() <= MAX_EVIDENCE {
        string_of(&v)
    } else {
        string_of(&slice(&v, 0, MAX_EVIDENCE))
    }
}

fn find_first(s: &Vec<char>, c: char) -> (r: Option<usize>)
    ensures
        match r {
            Some(k) => k as int == first_index_of(s@, c) && k < s@.len(),
            None => first_index_of(s@, c) == -1,
        },
{
    let mut i: usize = 0;
    assert(s@.skip(0) =~= s@);
    while i < s.len()
        invariant
            i <= s@.len(),
            forall|k: int| 0 <= k < i ==> s@[k] != c,
            first_index_of(s@, c) == (if first_index_of(s@.skip(i as int), c) < 0 {
                -1
            } else {
                first_index_of(s@.skip(i as int), c) + i
            }),
        decreases s@.len() - i,
    {
        assert(s@.skip(i as int)[0] == s@[i as int]);
        if s[i] == c {
            return Some(i);
        }
        assert(s@.skip(i as int).drop_first() =~= s@.skip(i + 1));
        i += 1;
    }
    None
}

fn find_last(s: &Vec<char>, c: char) -> (r: Option<usize>)
    ensures
        match r {
            Some(k) => k as int == last_index_of(s@, c) && k < s@.len(),
            None => last_index_of(s@, c) == -1,
        },
{
    let mut i: usize = s.len();
    assert(s@.take(s@.len() as int) =~= s@);
    while i > 0
        invariant
            i <= s@.len(),
            last_index_of(s@, c) == last_index_of(s@.take(i as int), c),
        decreases i,
    {
        assert(s@.take(i as int).last() == s@[i - 1]);
        if s[i - 1] == c {
            return Some(i - 1);
        }
        assert(s@.take(i as int).drop_last() =~= s@.take(i - 1));
        i -= 1;
    }
    None
}

proof fn lemma_until_space_take(s: Seq<char>, i: int)
    requires
        0 <= i <= s.len(),
        forall|k: int| 0 <= k < i ==> !is_space(#[trigger] s[k]),
        i == s.len() || is_space(s[i]),
    ensures
        until_space(s) == s.take(i),
    decreases i,
{
    if i == 0 {
        assert(s.take(0) =~= Seq::<char>::empty());
    } else {
        lemma_until_space_take(s.drop_first(), i - 1);
        assert(s.take(i) =~= seq![s[0]] + s.drop_first().take(i - 1));
    }
}

proof fn lemma_trim_start_skip(s: Seq<char>, i: int)
    requires
        0 <= i <= s.len(),
        forall|k: int| 0 <= k < i ==> is_space(#[trigger] s[k]),
        i == s.len() || !is_space(s[i]),
    ensures
        trim_start(s) == s.skip(i),
    decreases i,
{
    if i == 0 {
        assert(s.skip(0) =~= s);
    } else {
        lemma_trim_start_skip(s.drop_first(), i - 1);
        assert(s.drop_first().skip(i - 1) =~= s.skip(i));
    }
}

fn first_word_of(s: &Vec<char>) -> (r: Option<Vec<char>>)
    ensures
        match r {
            Some(w) => first_word(s@) == Some(w@),
            None => first_word(s@).is_none(),
        },
{
    let n = s.len();
    let mut i: usize = 0;
    while i < n && space(s[i])
        invariant
            i <= n == s@.len(),
            forall|k: int| 0 <= k < i ==> is_space(#[trigger] s@[k]),
        decreases n - i,
    {
        i += 1;
    }
    proof {
        lemma_trim_start_skip(s@, i as int);
    }
    if i == n {
        return None;
    }
    let mut j: usize = i;
    while j < n && !space(s[j])
        invariant
            i <= j <= n == s@.len(),
            forall|k: int| i <= k < j ==> !is_space(#[trigger] s@[k]),
        decreases n - j,
    {
        j += 1;
    }
    let w = slice(s, i, j);
    proof {
        let t = s@.skip(i as int);
        assert forall|k: int| 0 <= k < j - i implies !is_space(#[trigger] t[k]) by {
            assert(t[k] == s@[k + i]);
        }
        if j < n {
            assert(t[j - i] == s@[j as int]);
        }
        lemma_until_space_take(t, j - i);
        assert(t.take(j - i) =~= w@);
    }
    Some(w)
}

/// Brings an SSH software version such as `OpenSSH_8.4p1` to `8.4.1`.
pub fn normalize_ssh_version(raw: &str) -> (r: Option<String>)
    ensures
        opt_string_view(r) == normalize_ssh_spec(raw@),
{
    let v0 = trimmed(&chars_of(raw));
    let v = match find_last(&v0, '_') {
        Some(k) => {
            let n = v0.len();
            assert(k < n);
            slice(&v0, k + 1, n)
        },
        None => {
            assert(v0@.skip(0) =~= v0@);
            slice(&v0, 0, v0.len())
        },
    };
    assert(v@ =~= v0@.skip(last_index_of(v0@, '_') + 1));
    let (numeric, patch) = match find_first(&v, 'p') {
        Some(k) => (slice(&v, 0, k), slice(&v, k + 1, v.len())),
        None => (slice(&v, 0, v.len()), vec!['0']),
    };
    assert(v@.take(v@.len() as int) =~= v@);
    let parts = split_at_char(&numeric, '.');
    proof {
        lemma_split_nonempty(numeric@, '.');
    }
    let major = &parts[0];
    let zero = vec!['0'];
    let minor = if parts.len() > 1 {
        &parts[1]
    } else {
        &zero
    };
    assert(major@ == split(numeric@, '.')[0]);
    if major.len() == 0 || minor.len() == 0 || patch.len() == 0 || !all_ascii_digits(major)
        || !all_ascii_digits(minor) || !all_ascii_digits(&patch) {
        return None;
    }
    let mut out: Vec<char> = Vec::new();
    let mut i: usize = 0;
    while i < major.len()
        invariant
            i <= major@.len(),
            out@ == major@.take(i as int),
        decreases major@.len() - i,
    {
        out.push(major[i]);
        i += 1;
        assert(out@ =~= major@.take(i as int));
    }
    out.push('.');
    let ghost base = out@;
    let mut i: usize = 0;
    while i < minor.len()
        invariant
            i <= minor@.len(),
            out@ == base + minor@.take(i as int),
        decreases minor@.len() - i,
    {
        out.push(minor[i]);
        i += 1;
        assert(out@ =~= base + minor@.take(i as int));
    }
    out.push('.');
    let ghost base2 = out@;
    let mut i: usize = 0;
    while i < patch.len()
        invariant
            i <= patch@.len(),
            out@ == base2 + patch@.take(i as int),
        decreases patch@.len() - i,
    {
        out.push(patch[i]);
        i += 1;
        assert(out@ =~= base2 + patch@.take(i as int));
    }
    assert(major@.take(major@.len() as int) =~= major@);
    assert(minor@.take(minor@.len() as int) =~= minor@);
    assert(patch@.take(patch@.len() as int) =~= patch@);
    assert(out@ =~= major@ + seq!['.'] + minor@ + seq!['.'] + patch@);
    Some(string_of(&out))
}

/// Splits a server description into product and version at its first `/`.
pub fn parse_product_version(raw: &str) -> (r: (Option<String>, Option<String>))
    ensures
        opt_string_view(r.0) == product_version_spec(raw@).0,
        opt_string_view(r.1) == product_version_spec(raw@).1,
{
    let v = chars_of(raw);
    if v.len() == 0 {
        return (None, None);
    }
    match find_first(&v, '/') {
        Some(k) => {
            let product = trimmed(&slice(&v, 0, k));
            let version = trimmed(&slice(&v, k + 1, v.len()));
            assert(v@.take(k as int) =~= v@.subrange(0, k as int));
            (Some(string_of(&product)), Some(string_of(&version)))
        },
        None => (Some(string_of(&v)), None),
    }
}

pub open spec fn opt_fp_view(o: Option<ServiceFingerprint>) -> Option<FingerprintView> {
    match o {
        Some(f) => Some(f@),
        None => None,
    }
}

/// An evidence string: `label` followed by `s`, cut as a whole to `MAX_EVIDENCE` characters.
fn labelled(label: &str, s: &str) -> (r: String)
    ensures
        r@ == truncate_spec(label@ + s@),
{
    let whole = String::from_str(label).concat(s);
    truncate(whole.as_str())
}

fn one(s: String) -> (r: Vec<String>)
    ensures
        crate::text::string_views(r@) == seq![s@],
{
    let mut v: Vec<String> = Vec::new();
    v.push(s);
    assert(crate::text::string_views(v@) =~= seq![s@]);
    v
}

fn has_ssh_prefix(t: &Vec<char>) -> (r: bool)
    ensures
        r == ssh_banner_prefix(t@),
{
    if t.len() >= 4 {
        assert(t@.take(4)[0] == t@[0]);
        assert(t@.take(4)[1] == t@[1]);
        assert(t@.take(4)[2] == t@[2]);
        assert(t@.take(4)[3] == t@[3]);
        if t[0] == 'S' && t[1] == 'S' && t[2] == 'H' && t[3] == '-' {
            assert(t@.take(4) =~= seq!['S', 'S', 'H', '-']);
            return true;
        }
    }
    false
}

/// The fingerprint that an SSH banner gives, if it is one.
pub fn ssh_fingerprint(banner: &str) -> (r: Option<ServiceFingerprint>)
    ensures
        opt_fp_view(r) == ssh_fingerprint_spec(banner@),
{
    let t = trimmed(&chars_of(banner));
    if !has_ssh_prefix(&t) {
        return None;
    }
    let fields = split_at_char(&t, '-');
    let version = if fields.len() > 2 {
        assert(fields@[2]@ == split(t@, '-')[2]);
        match first_word_of(&fields[2]) {
            Some(w) => normalize_ssh_version(string_of(&w).as_str()),
            None => None,
        }
    } else {
        None
    };
    let ts = string_of(&t);
    let evidence = one(labelled("ssh banner: ", ts.as_str()));
    let r = ServiceFingerprint {
        service: String::from_str("ssh"),
        product: Some(String::from_str("OpenSSH")),
        version,
        evidence,
    };
    assert(r@ == ssh_fingerprint_spec(banner@).unwrap());
    Some(r)
}

fn is_server(line: &Vec<char>) -> (r: bool)
    ensures
        r == is_server_line(line@),
{
    if line.len() < 7 {
        return false;
    }
    let l = lowercase(&slice(line, 0, 7));
    let ghost target = seq!['s', 'e', 'r', 'v', 'e', 'r', ':'];
    if l[0] == 's' && l[1] == 'e' && l[2] == 'r' && l[3] == 'v' && l[4] == 'e' && l[5] == 'r'
        && l[6] == ':' {
        assert(l@ =~= target);
        true
    } else {
        assert(l@ != target) by {
            if l@ == target {
                assert(l@[0] == target[0]);
                assert(l@[6] == target[6]);
            }
        }
        false
    }
}

/// The fingerprint that an HTTP response gives: always `http`, with what its `Server`
/// header says.
pub fn parse_http_response(response: &str) -> (r: Option<ServiceFingerprint>)
    ensures
        r matches Some(f) && f@ == http_fingerprint_spec(response@),
{
    let lines = split_at_char(&chars_of(response), '\n');
    let ghost ls = split(response@, '\n');
    let mut header: Option<Vec<char>> = None;
    let mut i: usize = 0;
    assert(ls.skip(0) =~= ls);
    while i < lines.len()
        invariant
            i <= lines@.len(),
            views(lines@) == ls,
            match header {
                Some(h) => server_header_of(ls) == Some(h@),
                None => server_header_of(ls) == server_header_of(ls.skip(i as int)),
            },
        decreases lines@.len() - i,
    {
        assert(ls.skip(i as int)[0] == lines@[i as int]@);
        if header.is_none() && is_server(&lines[i]) {
            header = Some(trimmed(&lines[i]));
        }
        assert(ls.skip(i as int).drop_first() =~= ls.skip(i + 1));
        i += 1;
    }
    assert(ls.skip(i as int) =~= Seq::<Seq<char>>::empty());
    assert(match header {
        Some(h) => server_header_of(ls) == Some(h@),
        None => server_header_of(ls).is_none(),
    });
    let (product, version) = match &header {
        Some(h) => {
            let value = match find_first(h, ':') {
                Some(k) => {
                    let n = h.len();
                    let rest = slice(h, k + 1, n);
                    assert(rest@ =~= h@.skip(k + 1));
                    trimmed(&rest)
                },
                None => Vec::new(),
            };
            assert(value@ == header_value(h@));
            parse_product_version(string_of(&value).as_str())
        },
        None => (None, None),
    };
    let shown = match &header {
        Some(h) => string_of(h),
        None => String::from_str("none"),
    };
    let evidence = one(labelled("http server header: ", shown.as_str()));
    Some(ServiceFingerprint { service: String::from_str("http"), product, version, evidence })
}

/// The text that `String::from_utf8_lossy` makes of some bytes.
pub uninterp spec fn utf8_lossy_of(b: Seq<u8>) -> Seq<char>;

/// Relies on `String::from_utf8_lossy`: the text depends on the bytes alone, and no bytes
/// give no text.
#[verifier::external_body]
fn decode_lossy(b: &[u8]) -> (r: String)
    ensures
        r@ == utf8_lossy_of(b@),
        b@.len() == 0 ==> r@.len() == 0,
{
    String::from_utf8_lossy(b).into_owned()
}

/// The subject and issuer names, in text form, of the certificate that some DER bytes hold.
pub uninterp spec fn x509_names_of(der: Seq<u8>) -> Option<(Seq<char>, Seq<char>)>;

/// Relies on `x509_parser::parse_x509_certificate` and on the text form of the subject and
/// issuer of what it parsed: both depend on the bytes alone.
#[verifier::external_body]
fn certificate_names(der: &[u8]) -> (r: Option<(String, String)>)
    ensures
        match r {
            Some(p) => x509_names_of(der@) == Some((p.0@, p.1@)),
            None => x509_names_of(der@).is_none(),
        },
{
    match x509_parser::parse_x509_certificate(der) {
        Ok((_, cert)) => Some((cert.subject().to_string(), cert.issuer().to_string())),
        Err(_) => None,
    }
}

/// Line breaks turned into spaces.
pub open spec fn single_line(s: Seq<char>) -> Seq<char> {
    s.map_values(|c: char| if c == '\r' || c == '\n' { ' ' } else { c })
}

/// The banner that a service sent, on one line.
pub fn banner_text(bytes: &[u8]) -> (r: String)
    ensures
        r@ == single_line(utf8_lossy_of(bytes@)),
{
    let text = chars_of(decode_lossy(bytes).as_str());
    let mut out: Vec<char> = Vec::new();
    for i in 0..text.len()
        invariant
            out@ == single_line(text@.subrange(0, i as int)),
    {
        let c = text[i];
        out.push(if c == '\r' || c == '\n' { ' ' } else { c });
        assert(out@ =~= single_line(text@.subrange(0, i + 1)));
    }
    assert(text@.subrange(0, text@.len() as int) =~= text@);
    string_of(&out)
}

/// The fingerprint that the first bytes of an HTTP response give.
pub fn http_fingerprint(response: &[u8]) -> (r: Option<ServiceFingerprint>)
    ensures
        r matches Some(f) && f@ == http_fingerprint_spec(utf8_lossy_of(response@)),
{
    parse_http_response(decode_lossy(response).as_str())
}

/// The request that HTTP fingerprinting sends to `target`.
pub fn http_request(target: &str) -> (r: String)
    ensures
        r@ == "HEAD / HTTP/1.0\r\nHost: "@ + target@
            + "\r\nUser-Agent: vulnfinder\r\nConnection: close\r\n\r\n"@,
{
    String::from_str("HEAD / HTTP/1.0\r\nHost: ").concat(target).concat(
        "\r\nUser-Agent: vulnfinder\r\nConnection: close\r\n\r\n",
    )
}

/// What a completed TLS handshake showed of the peer's certificate.
#[derive(Clone, Debug)]
pub enum PeerCert {
    /// The peer sent no certificate.
    Missing,
    /// A certificate came but could not be encoded as DER.
    Unreadable,
    /// The certificate's DER encoding.
    Der(Vec<u8>),
}

/// A TLS fingerprint: service `tls`, no product or version, and the certificate's subject
/// and issuer as evidence where they can be read.
pub open spec fn tls_fingerprint_spec(cert: PeerCert) -> FingerprintView {
    FingerprintView {
        service: "tls"@,
        product: None,
        version: None,
        evidence: match cert {
            PeerCert::Missing => seq!["tls cert: unavailable"@],
            PeerCert::Unreadable => seq!["tls cert: parsed fields unavailable"@],
            PeerCert::Der(der) => match x509_names_of(der@) {
                Some(names) => seq![
                    truncate_spec("tls cert subject: "@ + names.0),
                    truncate_spec("tls cert issuer: "@ + names.1),
                ],
                None => seq!["tls cert: parsed fields unavailable"@],
            },
        },
    }
}

/// The fingerprint of a service that completed a TLS handshake.
pub fn tls_fingerprint(cert: &PeerCert) -> (r: ServiceFingerprint)
    ensures
        r@ == tls_fingerprint_spec(*cert),
{
    let evidence = match cert {
        PeerCert::Missing => one(String::from_str("tls cert: unavailable")),
        PeerCert::Unreadable => one(String::from_str("tls cert: parsed fields unavailable")),
        PeerCert::Der(der) => match certificate_names(der.as_slice()) {
            Some((subject, issuer)) => {
                let mut v: Vec<String> = Vec::new();
                v.push(labelled("tls cert subject: ", subject.as_str()));
                v.push(labelled("tls cert issuer: ", issuer.as_str()));
                assert(crate::text::string_views(v@) =~= seq![
                    truncate_spec("tls cert subject: "@ + subject@),
                    truncate_spec("tls cert issuer: "@ + issuer@),
                ]);
                v
            },
            None => one(String::from_str("tls cert: parsed fields unavailable")),
        },
    };
    ServiceFingerprint { service: String::from_str("tls"), product: None, version: None, evidence }
}

/// The generic fingerprint: service `tcp`, with the banner, if any, as evidence.
pub open spec fn tcp_fingerprint_spec(banner: Option<Seq<char>>) -> FingerprintView {
    FingerprintView {
        service: "tcp"@,
        product: None,
        version: None,
        evidence: match banner {
            Some(b) => seq![truncate_spec("banner: "@ + b)],
            None => Seq::empty(),
        },
    }
}

/// The fingerprint of a service that no protocol reader identified.
pub fn tcp_fingerprint(banner: Option<&str>) -> (r: ServiceFingerprint)
    ensures
        r@ == tcp_fingerprint_spec(crate::cve_db::opt_view(banner)),
{
    let evidence = match banner {
        Some(b) => one(labelled("banner: ", b)),
        None => {
            let v: Vec<String> = Vec::new();
            assert(crate::text::string_views(v@) =~= Seq::empty());
            v
        },
    };
    ServiceFingerprint { service: String::from_str("tcp"), product: None, version: None, evidence }
}

/// The probes of fingerprinting.
#[derive(PartialEq, Eq, Structural, Clone, Copy, Debug)]
pub enum Probe {
    /// Read what the service sends unprompted and look for an SSH banner.
    Ssh,
    /// Send a `HEAD` request and read the `Server` header.
    Http,
    /// Complete a TLS handshake and read the certificate.
    Tls,
    /// Read what the service sends unprompted, as evidence only.
    Generic,
}

/// What fingerprinting does next.
#[derive(Clone, Debug)]
pub enum FingerprintAction {
    Run(Probe),
    Finish(Option<ServiceFingerprint>),
}

/// The probe that fingerprinting starts with.
pub fn first_probe() -> (r: Probe)
    ensures
        r == Probe::Ssh,
{
    Probe::Ssh
}

/// The step after `done` ran on `port` and found `found`. An SSH banner wins; otherwise
/// ports 80 and 8080 get HTTP, port 443 TLS and then HTTP if TLS found nothing, and any
/// other port the generic reading. HTTP and the generic reading end the procedure.
pub open spec fn next_step_spec(port: u16, done: Probe, found: Option<ServiceFingerprint>) -> FingerprintAction {
    match done {
        Probe::Ssh => if found.is_some() {
            FingerprintAction::Finish(found)
        } else if port == 80 || port == 8080 {
            FingerprintAction::Run(Probe::Http)
        } else if port == 443 {
            FingerprintAction::Run(Probe::Tls)
        } else {
            FingerprintAction::Run(Probe::Generic)
        },
        Probe::Tls => if found.is_some() {
            FingerprintAction::Finish(found)
        } else {
            FingerprintAction::Run(Probe::Http)
        },
        Probe::Http | Probe::Generic => FingerprintAction::Finish(found),
    }
}

pub fn next_step(port: u16, done: Probe, found: Option<ServiceFingerprint>) -> (r: FingerprintAction)
    ensures
        r == next_step_spec(port, done, found),
{
    match done {
        Probe::Ssh => if found.is_some() {
            FingerprintAction::Finish(found)
        } else if port == 80 || port == 8080 {
            FingerprintAction::Run(Probe::Http)
        } else if port == 443 {
            FingerprintAction::Run(Probe::Tls)
        } else {
            FingerprintAction::Run(Probe::Generic)
        },
        Probe::Tls => if found.is_some() {
            FingerprintAction::Finish(found)
        } else {
            FingerprintAction::Run(Probe::Http)
        },
        Probe::Http | Probe::Generic => FingerprintAction::Finish(found),
    }
}

} // verus!
