//! The domain resolver and what becomes of probe outcomes: from a file path to the
//! domain it belongs to, and from the answers of the live site to a domain entry.

use vstd::prelude::*;
use crate::structs::{default_domain_entry, DomainEntry, DomainEntryView, FileEntry, FileEntryView};
use crate::text::{
    chars_of, contains, find_from, first_index, has_at, is_first_at, lemma_first_index,
    lemma_first_occurrence, matches_at, string_of,
};
use crate::utils::{sanitized, strip_html_tags_slice};

verus! {

/// The path component in front of a domain's name.
pub open spec fn domains_marker() -> Seq<char> {
    "/domains/"@
}

/// The path component behind a domain's name.
pub open spec fn public_html_marker() -> Seq<char> {
    "/public_html/"@
}

/// A captured name that stands for no site of its own.
pub open spec fn is_reserved_domain(domain: Seq<char>) -> bool {
    domain.len() == 0 || domain == "sharedip"@ || domain == "default"@ || domain == "suspended"@
}

/// Where the domain's name ends in `path`: at the first `/public_html/` that has a
/// `/domains/` in front of it, which is the first one at or behind the end of the path's
/// first `/domains/`.
pub open spec fn domain_end(path: Seq<char>) -> Option<int> {
    match first_index(path, domains_marker(), 0) {
        Some(at) => first_index(path, public_html_marker(), at + domains_marker().len()),
        None => None,
    }
}

/// `start` is where the name starts that ends at `end`: right behind the `/domains/` that
/// stands nearest in front of `end`.
pub open spec fn is_domain_start(path: Seq<char>, end: int, start: int) -> bool {
    &&& start <= end
    &&& has_at(path, domains_marker(), start - domains_marker().len())
    &&& forall|j: int|
        start - domains_marker().len() < j && j + domains_marker().len() <= end ==> !has_at(
            path,
            domains_marker(),
            j,
        )
}

/// Where the domain's name starts in `path`: right behind the `/domains/` that stands
/// nearest in front of its end.
pub open spec fn domain_start(path: Seq<char>) -> Option<int> {
    match domain_end(path) {
        Some(end) => Some(choose|start: int| is_domain_start(path, end, start)),
        None => None,
    }
}

/// The domain and the request path that the hosting convention
/// `{root}/{user}/domains/{domain}/public_html/{...}` gives for a file path: the domain is
/// the name in front of the first `/public_html/` that has a `/domains/` in front of it,
/// from behind the nearest such `/domains/` on; the request path is the rest of the path
/// from the slash that closes `/public_html/`. Reserved names give nothing.
pub open spec fn resolved_domain(path: Seq<char>) -> Option<(Seq<char>, Seq<char>)> {
    match (domain_start(path), domain_end(path)) {
        (Some(start), Some(end)) => {
            let domain = path.subrange(start, end);
            if is_reserved_domain(domain) {
                None
            } else {
                Some(
                    (domain, path.subrange(end + public_html_marker().len() - 1, path.len() as int)),
                )
            }
        },
        _ => None,
    }
}

/// A name has one place at which it starts.
pub proof fn lemma_domain_start(path: Seq<char>, end: int, start: int)
    requires
        domain_end(path) == Some(end),
        is_domain_start(path, end, start),
    ensures
        domain_start(path) == Some(start),
{
    let other = choose|other: int| is_domain_start(path, end, other);
    assert(is_domain_start(path, end, other));
    if other < start {
        assert(!has_at(path, domains_marker(), start - domains_marker().len()));
    } else if start < other {
        assert(!has_at(path, domains_marker(), other - domains_marker().len()));
    }
}

/// A path whose capture is a reserved name resolves to nothing.
pub proof fn lemma_reserved_gives_nothing(path: Seq<char>)
    requires
        domain_start(path).is_some(),
        domain_end(path).is_some(),
        is_reserved_domain(
            path.subrange(domain_start(path).unwrap(), domain_end(path).unwrap()),
        ),
    ensures
        resolved_domain(path).is_none(),
{
}

/// A name of one path component: it holds no slash.
pub open spec fn is_single_name(name: Seq<char>) -> bool {
    forall|k: int| 0 <= k < name.len() ==> name[k] != '/'
}

/// The characters of a path `{prefix}/domains/{domain}/public_html/{rest}`, place by place.
proof fn lemma_path_parts(prefix: Seq<char>, domain: Seq<char>, rest: Seq<char>)
    ensures
        ({
            let path = prefix + domains_marker() + domain + public_html_marker() + rest;
            let n = prefix.len() as int;
            let m = n + domains_marker().len();
            let b = m + domain.len();
            &&& path.len() == b + public_html_marker().len() + rest.len()
            &&& forall|k: int| 0 <= k < n ==> path[k] == prefix[k]
            &&& forall|k: int| 0 <= k < domains_marker().len() ==> path[n + k] == domains_marker()[k]
            &&& forall|k: int| 0 <= k < domain.len() ==> path[m + k] == domain[k]
            &&& forall|k: int|
                0 <= k < public_html_marker().len() ==> path[b + k] == public_html_marker()[k]
            &&& has_at(path, domains_marker(), n)
            &&& has_at(path, public_html_marker(), b)
            &&& path.subrange(m, b) == domain
            &&& path.subrange(b + public_html_marker().len() - 1, path.len() as int) == seq!['/']
                + rest
        }),
{
    reveal_strlit("/public_html/");
    let path = prefix + domains_marker() + domain + public_html_marker() + rest;
    let n = prefix.len() as int;
    let m = n + domains_marker().len();
    let b = m + domain.len();
    assert(path.subrange(n, n + domains_marker().len()) =~= domains_marker());
    assert(path.subrange(b, b + public_html_marker().len()) =~= public_html_marker());
    assert(path.subrange(m, b) =~= domain);
    assert(path.subrange(b + public_html_marker().len() - 1, path.len() as int) =~= seq!['/']
        + rest);
}

/// The characters of the two markers, place by place.
proof fn lemma_markers()
    ensures
        domains_marker().len() == 9,
        "domains"@.len() == 7,
        domains_marker()[0] == '/',
        domains_marker()[8] == '/',
        forall|k: int|
            1 <= k < 8 ==> (#[trigger] domains_marker()[k]) != '/' && domains_marker()[k]
                == "domains"@[k - 1],
        public_html_marker().len() == 13,
        "public_html"@.len() == 11,
        public_html_marker()[0] == '/',
        public_html_marker()[12] == '/',
        forall|k: int|
            1 <= k < 12 ==> (#[trigger] public_html_marker()[k]) != '/' && public_html_marker()[k]
                == "public_html"@[k - 1],
{
    reveal_strlit("/domains/");
    reveal_strlit("/public_html/");
    reveal_strlit("domains");
    reveal_strlit("public_html");
}

/// In a path `{prefix}/domains/{domain}/public_html/{rest}` no `/public_html/` starts
/// between the end of the prefix and the end of the domain, where the domain is a single
/// name other than `public_html`.
proof fn lemma_no_closing_inside(
    prefix: Seq<char>,
    domain: Seq<char>,
    rest: Seq<char>,
    j: int,
)
    requires
        is_single_name(domain),
        domain != "public_html"@,
        prefix.len() < j < prefix.len() + 9 + domain.len(),
    ensures
        !has_at(
            prefix + domains_marker() + domain + public_html_marker() + rest,
            public_html_marker(),
            j,
        ),
{
    lemma_markers();
    lemma_path_parts(prefix, domain, rest);
    let marker = domains_marker();
    let closing = public_html_marker();
    let path = prefix + marker + domain + closing + rest;
    let n = prefix.len() as int;
    let m = n + 9;
    let b = m + domain.len();
    if has_at(path, closing, j) {
        let found = path.subrange(j, j + 13);
        assert(found[0] == path[j]);
        if j < n + 8 {
            assert(path[j] == marker[j - n]);
        } else if j == n + 8 {
            if domain.len() >= 12 {
                assert(found[12] == path[m + 11]);
                assert(path[m + 11] == domain[11]);
            } else if domain.len() < 11 {
                assert(found[1 + domain.len() as int] == path[b]);
                assert(path[b] == closing[0]);
                assert(closing[1 + domain.len() as int] != '/');
            } else {
                assert forall|k: int| 0 <= k < 11 implies domain[k] == "public_html"@[k] by {
                    assert(found[1 + k] == path[m + k]);
                    assert(closing[1 + k] == "public_html"@[k]);
                }
                assert(domain =~= "public_html"@);
            }
        } else {
            assert(path[j] == domain[j - m]);
        }
    }
}

/// In a path `{prefix}/domains/{domain}/public_html/{rest}` no `/domains/` starts behind
/// the end of the prefix and ends by the end of the domain, where the domain is a single
/// name.
proof fn lemma_no_marker_inside(prefix: Seq<char>, domain: Seq<char>, rest: Seq<char>, j: int)
    requires
        is_single_name(domain),
        prefix.len() < j,
        j + 9 <= prefix.len() + 9 + domain.len(),
    ensures
        !has_at(
            prefix + domains_marker() + domain + public_html_marker() + rest,
            domains_marker(),
            j,
        ),
{
    lemma_markers();
    lemma_path_parts(prefix, domain, rest);
    let marker = domains_marker();
    let path = prefix + marker + domain + public_html_marker() + rest;
    let n = prefix.len() as int;
    let m = n + 9;
    if has_at(path, marker, j) {
        let found = path.subrange(j, j + 9);
        assert(found[0] == path[j]);
        if j < n + 8 {
            assert(path[j] == marker[j - n]);
        } else if j == n + 8 {
            assert(found[8] == path[m + 7]);
            assert(path[m + 7] == domain[7]);
        } else {
            assert(path[j] == domain[j - m]);
        }
    }
}

/// The hosting convention: in a path `{prefix}/domains/{domain}/public_html/{rest}` whose
/// prefix holds no `/domains/` and whose domain is a single name other than `public_html`,
/// the domain is `{domain}` and the request path is `/{rest}`, unless the domain is a
/// reserved name.
pub proof fn lemma_convention(prefix: Seq<char>, domain: Seq<char>, rest: Seq<char>)
    requires
        !contains(prefix, domains_marker()),
        is_single_name(domain),
        domain != "public_html"@,
    ensures
        resolved_domain(prefix + domains_marker() + domain + public_html_marker() + rest) == (
        if is_reserved_domain(domain) {
            None
        } else {
            Some((domain, seq!['/'] + rest))
        }),
{
    lemma_markers();
    lemma_path_parts(prefix, domain, rest);
    let marker = domains_marker();
    let closing = public_html_marker();
    let path = prefix + marker + domain + closing + rest;
    let n = prefix.len() as int;
    let m = n + 9;
    let b = m + domain.len();
    // the first `/domains/` of the path starts in the prefix's last eight places or at its end
    let first = lemma_first_occurrence(path, marker, 0, n);
    assert(first + 9 > n) by {
        if first + 9 <= n {
            assert(prefix.subrange(first, first + 9) =~= path.subrange(first, first + 9));
            assert(has_at(prefix, marker, first));
        }
    }
    lemma_first_index(path, marker, 0, first);
    assert forall|j: int| first + 9 <= j < b implies !has_at(path, closing, j) by {
        lemma_no_closing_inside(prefix, domain, rest, j);
    }
    assert(is_first_at(path, closing, first + 9, b));
    lemma_first_index(path, closing, first + 9, b);
    assert forall|j: int| n < j && j + 9 <= b implies !has_at(path, marker, j) by {
        lemma_no_marker_inside(prefix, domain, rest, j);
    }
    assert(is_domain_start(path, b, m));
    lemma_domain_start(path, b, m);
}

/// A reserved name in the place of the domain gives nothing: a path
/// `{prefix}/domains/{name}/public_html/{rest}` whose prefix holds no `/domains/` and
/// whose name is reserved resolves to no domain, whatever the rest is.
pub proof fn lemma_reserved_capture(prefix: Seq<char>, name: Seq<char>, rest: Seq<char>)
    requires
        !contains(prefix, domains_marker()),
        is_reserved_domain(name),
    ensures
        resolved_domain(prefix + domains_marker() + name + public_html_marker() + rest).is_none(),
{
    reveal_strlit("sharedip");
    reveal_strlit("default");
    reveal_strlit("suspended");
    reveal_strlit("public_html");
    assert(name.len() != "public_html"@.len());
    lemma_convention(prefix, name, rest);
}

/// Whether the characters of `chars` from `from` up to `to` spell a reserved name.
fn is_reserved(chars: &Vec<char>, from: usize, to: usize) -> (reserved: bool)
    requires
        from <= to <= chars.len(),
    ensures
        reserved == is_reserved_domain(chars@.subrange(from as int, to as int)),
{
    if from == to {
        return true;
    }
    let ghost name = chars@.subrange(from as int, to as int);
    let shared = chars_of("sharedip");
    let default = chars_of("default");
    let suspended = chars_of("suspended");
    let is_shared = to - from == shared.len() && matches_at(chars, &shared, from);
    let is_default = to - from == default.len() && matches_at(chars, &default, from);
    let is_suspended = to - from == suspended.len() && matches_at(chars, &suspended, from);
    proof {
        assert(is_shared == (name == shared@)) by {
            if name.len() == shared@.len() {
                assert(chars@.subrange(from as int, from + shared@.len()) =~= name);
            }
        }
        assert(is_default == (name == default@)) by {
            if name.len() == default@.len() {
                assert(chars@.subrange(from as int, from + default@.len()) =~= name);
            }
        }
        assert(is_suspended == (name == suspended@)) by {
            if name.len() == suspended@.len() {
                assert(chars@.subrange(from as int, from + suspended@.len()) =~= name);
            }
        }
    }
    is_shared || is_default || is_suspended
}

/// Maps a file path to the domain it belongs to and the path under which the site serves
/// it.
pub fn resolve_domain(path: &str) -> (resolved: Option<(String, String)>)
    ensures
        match resolved {
            Some((domain, request_path)) => resolved_domain(path@) == Some(
                (domain@, request_path@),
            ),
            None => resolved_domain(path@).is_none(),
        },
{
    let chars = chars_of(path);
    let domains = chars_of("/domains/");
    let public_html = chars_of("/public_html/");
    proof {
        reveal_strlit("/public_html/");
    }
    let total = chars.len();
    let first = find_from(&chars, &domains, 0)?;
    let end = find_from(&chars, &public_html, first + domains.len())?;
    let mut start = end;
    while start > first + domains.len() && !matches_at(&chars, &domains, start - domains.len())
        invariant
            first + domains.len() <= start <= end,
            domains@ == domains_marker(),
            has_at(chars@, domains_marker(), first as int),
            forall|j: int|
                start - domains_marker().len() < j && j + domains_marker().len() <= end
                    ==> !has_at(chars@, domains_marker(), j),
        decreases start,
    {
        start -= 1;
    }
    proof {
        assert(is_domain_start(chars@, end as int, start as int));
        lemma_domain_start(chars@, end as int, start as int);
    }
    if is_reserved(&chars, start, end) {
        return None;
    }
    let domain = string_of(&chars, start, end);
    let request_path = string_of(&chars, end + public_html.len() - 1, total);
    Some((domain, request_path))
}

/// The protocol of a probe.
#[derive(Clone, Copy, Debug, PartialEq, Eq, Structural)]
pub enum Protocol {
    Http,
    Https,
}

/// What one GET request to a live site came to.
#[derive(Debug)]
pub enum ProbeResult {
    /// The server answered.
    Response { status_code: u32, body: Vec<u8>, elapsed_ns: u64 },
    /// The host's name could not be resolved.
    UnresolvedHost,
    /// The transfer failed for any other reason.
    TransportError,
}

/// The URL scheme of a protocol.
pub open spec fn scheme_text(protocol: Protocol) -> Seq<char> {
    match protocol {
        Protocol::Http => "http"@,
        Protocol::Https => "https"@,
    }
}

/// The address that a probe requests: scheme, `://`, domain and request path.
pub open spec fn probe_address(
    protocol: Protocol,
    domain: Seq<char>,
    request_path: Seq<char>,
) -> Seq<char> {
    scheme_text(protocol) + "://"@ + domain + request_path
}

/// The address to request for a probe of `domain` over `protocol`.
pub fn probe_url(protocol: Protocol, domain: &str, request_path: &str) -> (url: String)
    ensures
        url@ == probe_address(protocol, domain@, request_path@),
{
    let scheme = match protocol {
        Protocol::Http => "http",
        Protocol::Https => "https",
    };
    String::from_str(scheme).concat("://").concat(domain).concat(request_path)
}

/// The status that is recorded for a probe: the server's own where it answered, 410 for a
/// host whose name does not resolve, 404 for any other failure.
pub open spec fn probe_status(result: ProbeResult) -> u32 {
    match result {
        ProbeResult::Response { status_code, .. } => status_code,
        ProbeResult::UnresolvedHost => 410,
        ProbeResult::TransportError => 404,
    }
}

/// Milliseconds in a span given in nanoseconds, rounded down.
pub open spec fn millis(elapsed_ns: u64) -> u64 {
    (elapsed_ns / 1_000_000) as u64
}

/// The entry after a probe over HTTP has been recorded in it.
pub open spec fn with_http_probe(entry: DomainEntryView, result: ProbeResult) -> DomainEntryView {
    match result {
        ProbeResult::Response { status_code, body, elapsed_ns } => DomainEntryView {
            http_content: sanitized(body@),
            http_content_encoding: Seq::empty(),
            http_content_size: vstd::utf8::encode_utf8(sanitized(body@)).len() as usize,
            http_status_code: status_code,
            http_response_time: millis(elapsed_ns),
            ..entry
        },
        _ => DomainEntryView {
            http_content_size: 0,
            http_status_code: probe_status(result),
            ..entry
        },
    }
}

/// The entry after a probe over HTTPS has been recorded in it.
pub open spec fn with_https_probe(entry: DomainEntryView, result: ProbeResult) -> DomainEntryView {
    match result {
        ProbeResult::Response { status_code, body, elapsed_ns } => DomainEntryView {
            https_content: sanitized(body@),
            https_content_encoding: Seq::empty(),
            https_content_size: vstd::utf8::encode_utf8(sanitized(body@)).len() as usize,
            https_status_code: status_code,
            https_response_time: millis(elapsed_ns),
            ..entry
        },
        _ => DomainEntryView {
            https_content_size: 0,
            https_status_code: probe_status(result),
            ..entry
        },
    }
}

/// The entry after a probe over `protocol` has been recorded in it: an answer fills the
/// protocol's own fields with the status, the latency and the body stripped of markup; a
/// failure sets the protocol's status to the fallback and its content size to zero. The
/// other protocol's fields stay as they are.
pub open spec fn with_probe(
    entry: DomainEntryView,
    protocol: Protocol,
    result: ProbeResult,
) -> DomainEntryView {
    match protocol {
        Protocol::Http => with_http_probe(entry, result),
        Protocol::Https => with_https_probe(entry, result),
    }
}

/// Records the outcome of one probe in the fields of its protocol.
pub fn record_probe(entry: &mut DomainEntry, protocol: Protocol, result: &ProbeResult)
    ensures
        final(entry)@ == with_probe(old(entry)@, protocol, *result),
{
    match result {
        ProbeResult::Response { status_code, body, elapsed_ns } => {
            let contents = strip_html_tags_slice(body.as_slice());
            let size = contents.as_str().len();
            let time = *elapsed_ns / 1_000_000;
            match protocol {
                Protocol::Http => {
                    entry.http_content_encoding = String::new();
                    entry.http_content = contents;
                    entry.http_content_size = size;
                    entry.http_status_code = *status_code;
                    entry.http_response_time = time;
                },
                Protocol::Https => {
                    entry.https_content_encoding = String::new();
                    entry.https_content = contents;
                    entry.https_content_size = size;
                    entry.https_status_code = *status_code;
                    entry.https_response_time = time;
                },
            }
        },
        ProbeResult::UnresolvedHost => {
            match protocol {
                Protocol::Http => {
                    entry.http_content_size = 0;
                    entry.http_status_code = 410;
                },
                Protocol::Https => {
                    entry.https_content_size = 0;
                    entry.https_status_code = 410;
                },
            }
        },
        ProbeResult::TransportError => {
            match protocol {
                Protocol::Http => {
                    entry.http_content_size = 0;
                    entry.http_status_code = 404;
                },
                Protocol::Https => {
                    entry.https_content_size = 0;
                    entry.https_status_code = 404;
                },
            }
        },
    }
}

/// A failed probe leaves the protocol's status at 410 where the host's name did not
/// resolve and at 404 for every other failure, and its content size at zero in both cases.
pub proof fn lemma_probe_fallback(entry: DomainEntryView, protocol: Protocol, result: ProbeResult)
    requires
        !(result is Response),
    ensures
        protocol == Protocol::Http ==> with_probe(entry, protocol, result).http_content_size == 0
            && with_probe(entry, protocol, result).http_status_code == (if result
            is UnresolvedHost {
            410u32
        } else {
            404u32
        }),
        protocol == Protocol::Https ==> with_probe(entry, protocol, result).https_content_size == 0
            && with_probe(entry, protocol, result).https_status_code == (if result
            is UnresolvedHost {
            410u32
        } else {
            404u32
        }),
{
}

/// The entry for a file of `domain` before any probe: the file, the domain's name and the
/// request path, everything else as in the default entry.
pub open spec fn unprobed_entry(
    file: FileEntryView,
    domain: Seq<char>,
    request_path: Seq<char>,
) -> DomainEntryView {
    DomainEntryView { name: domain, request_path: request_path, file: file, ..default_domain_entry() }
}

/// The entry that a classified file and the outcomes of its two probes make, if the file's
/// path resolves to a domain.
pub open spec fn built_entry(
    file: FileEntryView,
    http: ProbeResult,
    https: ProbeResult,
) -> Option<DomainEntryView> {
    match resolved_domain(file.path) {
        Some((domain, request_path)) => Some(
            with_probe(
                with_probe(unprobed_entry(file, domain, request_path), Protocol::Http, http),
                Protocol::Https,
                https,
            ),
        ),
        None => None,
    }
}

/// A domain entry that waits for its probes, with the addresses to request.
#[derive(Debug)]
pub struct PendingDomain {
    pub entry: DomainEntry,
    pub http_url: String,
    pub https_url: String,
}

/// Starts the entry of a classified file: resolves its domain and names the two addresses
/// to probe. Gives nothing where the path resolves to no domain.
pub fn begin_domain(file_entry: FileEntry) -> (pending: Option<PendingDomain>)
    ensures
        match pending {
            Some(p) => resolved_domain(file_entry@.path) matches Some((domain, request_path))
                && p.entry@ == unprobed_entry(file_entry@, domain, request_path) && p.http_url@
                == probe_address(Protocol::Http, domain, request_path) && p.https_url@
                == probe_address(Protocol::Https, domain, request_path),
            None => resolved_domain(file_entry@.path).is_none(),
        },
{
    match resolve_domain(file_entry.path.as_str()) {
        Some((domain, request_path)) => {
            let http_url = probe_url(Protocol::Http, domain.as_str(), request_path.as_str());
            let https_url = probe_url(Protocol::Https, domain.as_str(), request_path.as_str());
            let mut entry = DomainEntry::default();
            entry.file = file_entry;
            entry.request_path = request_path;
            entry.name = domain;
            Some(PendingDomain { entry, http_url, https_url })
        },
        None => None,
    }
}

/// Completes a pending entry with the outcomes of its probes, HTTP first, HTTPS second.
pub fn finish_domain(pending: PendingDomain, http: &ProbeResult, https: &ProbeResult) -> (entry:
    DomainEntry)
    ensures
        entry@ == with_probe(
            with_probe(pending.entry@, Protocol::Http, *http),
            Protocol::Https,
            *https,
        ),
{
    let mut entry = pending.entry;
    record_probe(&mut entry, Protocol::Http, http);
    record_probe(&mut entry, Protocol::Https, https);
    entry
}

} // verus!
