use crate::config::{SiteConfig, SiteConfigV};
use crate::matcher::host_list_matches;
use crate::options::{method_views, spec_csv};
use crate::request::{seq_eq_ci, HeaderEntry, HeaderEntryV, RequestInfo, RequestInfoV};
use crate::setting::Setting;
use crate::util::{concat_chars, str_chars, chars_string};
use crate::var::spec_var_expand;
use vstd::prelude::*;

verus! {

// ---------------------------------------------------------------------------
// Trusted interface to percent-encoding and mime_guess.
// ---------------------------------------------------------------------------

/// The percent-decoding of `s`, with invalid UTF-8 replaced.
pub uninterp spec fn percent_decoded(s: Seq<char>) -> Seq<char>;

/// Relies on `percent_encoding::percent_decode_str` and
/// `decode_utf8_lossy`: `%XX` escapes are decoded and invalid UTF-8 is
/// replaced; the result depends on the text alone.
#[verifier::external_body]
fn percent_decode(s: &str) -> (r: String)
    ensures
        r@ == percent_decoded(s@),
{
    percent_encoding::percent_decode_str(s).decode_utf8_lossy().to_string()
}

/// The MIME type looked up for a file extension, with
/// `application/octet-stream` as the fallback.
pub uninterp spec fn mime_of(ext: Seq<char>) -> Seq<char>;

/// Relies on `mime_guess::from_ext` and `first_or_octet_stream`: the MIME
/// type for an extension, a function of the extension alone.
#[verifier::external_body]
pub fn mime_from_extension(ext: &str) -> (r: String)
    ensures
        r@ == mime_of(ext@),
{
    let mime = mime_guess::from_ext(ext).first_or_octet_stream();
    mime.as_ref().to_string()
}

// ---------------------------------------------------------------------------
// Site selection by Host header.
// ---------------------------------------------------------------------------

/// The index of the first site whose host matcher accepts `host`.
pub open spec fn spec_find_site(sites: Seq<SiteConfig>, host: Seq<char>) -> Option<int>
    decreases sites.len(),
{
    if sites.len() == 0 {
        None
    } else if host_list_matches(sites[0].host@, host) {
        Some(0int)
    } else {
        match spec_find_site(sites.drop_first(), host) {
            Some(i) => Some(i + 1),
            None => None,
        }
    }
}

/// Selects the site answering for `host`: the first whose matcher accepts
/// it; an empty pattern list accepts any host.
pub fn find_site(sites: &Vec<SiteConfig>, host: &str) -> (r: Option<usize>)
    ensures
        match r {
            Some(i) => spec_find_site(sites@, host@) == Some(i as int),
            None => spec_find_site(sites@, host@) is None,
        },
{
    let n = sites.len();
    let mut i: usize = 0;
    proof {
        assert(sites@.skip(0) =~= sites@);
    }
    while i < n
        invariant
            n == sites@.len(),
            i <= n,
            forall|j: int| 0 <= j < i ==> !host_list_matches(#[trigger] sites@[j].host@, host@),
        decreases n - i,
    {
        if sites[i].host.is_match(host) {
            proof {
                lemma_find_site_first(sites@, host@, i as int);
            }
            return Some(i);
        }
        i = i + 1;
    }
    proof {
        lemma_find_site_none(sites@, host@);
    }
    Option::None
}

proof fn lemma_find_site_first(sites: Seq<SiteConfig>, host: Seq<char>, i: int)
    requires
        0 <= i < sites.len(),
        host_list_matches(sites[i].host@, host),
        forall|j: int| 0 <= j < i ==> !host_list_matches(#[trigger] sites[j].host@, host),
    ensures
        spec_find_site(sites, host) == Some(i),
    decreases sites.len(),
{
    if i > 0 {
        let rest = sites.drop_first();
        assert(forall|j: int| 0 <= j < rest.len() ==> #[trigger] rest[j] == sites[j + 1]);
        assert(rest[i - 1] == sites[i]);
        assert forall|j: int| 0 <= j < i - 1 implies !host_list_matches(
            #[trigger] rest[j].host@,
            host,
        ) by {
            assert(rest[j] == sites[j + 1]);
        }
        lemma_find_site_first(rest, host, i - 1);
    }
}

proof fn lemma_find_site_none(sites: Seq<SiteConfig>, host: Seq<char>)
    requires
        forall|j: int|
            0 <= j < sites.len() ==> !host_list_matches(#[trigger] sites[j].host@, host),
    ensures
        spec_find_site(sites, host) is None,
    decreases sites.len(),
{
    if sites.len() > 0 {
        let rest = sites.drop_first();
        assert forall|j: int| 0 <= j < rest.len() implies !host_list_matches(
            #[trigger] rest[j].host@,
            host,
        ) by {
            assert(rest[j] == sites[j + 1]);
        }
        lemma_find_site_none(rest, host);
    }
}

/// Law: the first site whose host matcher accepts the hostname wins; a site
/// with an empty pattern list accepts any hostname, so when no site is
/// selected, no site matched and in particular no catch-all site exists.
pub proof fn lemma_host_matching_determinism(sites: Seq<SiteConfig>, host: Seq<char>)
    ensures
        match spec_find_site(sites, host) {
            Some(i) => 0 <= i < sites.len() && host_list_matches(sites[i].host@, host) && (forall|
                j: int,
            | 0 <= j < i ==> !host_list_matches(#[trigger] sites[j].host@, host)),
            None => forall|j: int|
                0 <= j < sites.len() ==> !host_list_matches(#[trigger] sites[j].host@, host)
                    && sites[j].host@.len() != 0,
        },
    decreases sites.len(),
{
    if sites.len() > 0 {
        let rest = sites.drop_first();
        lemma_host_matching_determinism(rest, host);
        assert(forall|j: int| 0 <= j < rest.len() ==> #[trigger] rest[j] == sites[j + 1]);
        match spec_find_site(sites, host) {
            Some(i) => {
                if !host_list_matches(sites[0].host@, host) {
                    assert(spec_find_site(rest, host) == Some(i - 1));
                    assert forall|j: int| 0 <= j < i implies !host_list_matches(
                        #[trigger] sites[j].host@,
                        host,
                    ) by {
                        if j > 0 {
                            assert(sites[j] == rest[j - 1]);
                        }
                    }
                }
            },
            None => {
                assert forall|j: int|
                    0 <= j < sites.len() implies !host_list_matches(
                    #[trigger] sites[j].host@,
                    host,
                ) && sites[j].host@.len() != 0 by {
                    if j > 0 {
                        assert(sites[j] == rest[j - 1]);
                    } else {
                        assert(!host_list_matches(sites[0].host@, host));
                        if sites[0].host@.len() == 0 {
                            assert(host_list_matches(sites[0].host@, host));
                        }
                    }
                }
            },
        }
    }
}

// ---------------------------------------------------------------------------
// Request resolution: decode, select, merge.
// ---------------------------------------------------------------------------

impl SiteConfig {
    /// The effective configuration and decoded path for a raw request path:
    /// the path is percent-decoded, then all matching locations are merged.
    pub fn resolve(self, raw_path: &str) -> (r: (SiteConfig, String))
        ensures
            r.1@ == percent_decoded(raw_path@),
            r.0@ == crate::config::spec_merge_route(self@, percent_decoded(raw_path@)),
            r.0@.location.len() == 0,
    {
        let decoded = percent_decode(raw_path);
        let merged = self.merge(decoded.as_str());
        (merged, decoded)
    }
}

// ---------------------------------------------------------------------------
// The handler ladder.
// ---------------------------------------------------------------------------

/// The expanded plan of one upstream proxy request.
#[derive(Debug, Clone)]
pub struct ProxyPlan {
    pub url: String,
    pub method: Option<String>,
    pub headers: Vec<HeaderEntry>,
    pub timeout: u64,
}

/// The mathematical shape of a proxy plan.
pub struct ProxyPlanV {
    pub url: Seq<char>,
    pub method: Option<Seq<char>>,
    pub headers: Seq<HeaderEntryV>,
    pub timeout: u64,
}

impl View for ProxyPlan {
    type V = ProxyPlanV;

    open spec fn view(&self) -> ProxyPlanV {
        ProxyPlanV {
            url: self.url@,
            method: match self.method {
                Some(ref m) => Some(m@),
                None => None,
            },
            headers: Seq::new(self.headers@.len(), |i: int| self.headers@[i]@),
            timeout: self.timeout,
        }
    }
}

/// The request headers without any `Host` header, compared
/// case-insensitively.
pub open spec fn spec_remove_host(headers: Seq<HeaderEntryV>) -> Seq<HeaderEntryV>
    decreases headers.len(),
{
    if headers.len() == 0 {
        headers
    } else if seq_eq_ci(headers[0].name, "host"@) {
        spec_remove_host(headers.drop_first())
    } else {
        seq![headers[0]] + spec_remove_host(headers.drop_first())
    }
}

/// Inserting an outgoing header: replaces the first entry whose name equals
/// case-insensitively, else appends.
pub open spec fn spec_entry_insert(s: Seq<HeaderEntryV>, e: HeaderEntryV) -> Seq<HeaderEntryV>
    decreases s.len(),
{
    if s.len() == 0 {
        seq![e]
    } else if seq_eq_ci(s[0].name, e.name) {
        seq![e] + s.drop_first()
    } else {
        seq![s[0]] + spec_entry_insert(s.drop_first(), e)
    }
}

/// The configured proxy headers, expanded against the request.
pub open spec fn spec_expand_fields(
    fields: Seq<crate::options::HeaderField>,
    req: RequestInfoV,
) -> Seq<HeaderEntryV> {
    Seq::new(
        fields.len(),
        |i: int|
            HeaderEntryV { name: fields[i].name@, value: spec_var_expand(fields[i].value, req) },
    )
}

/// Overlaying expanded proxy headers onto the outgoing set, in order.
pub open spec fn spec_overlay(base: Seq<HeaderEntryV>, over: Seq<HeaderEntryV>) -> Seq<
    HeaderEntryV,
>
    decreases over.len(),
{
    if over.len() == 0 {
        base
    } else {
        spec_overlay(spec_entry_insert(base, over[0]), over.drop_first())
    }
}

/// The plan for one proxy dispatch: the interpolated upstream URL, the
/// optional method override, and the client's headers with `Host` removed
/// and the configured headers (interpolated) overlaid.
pub open spec fn spec_proxy_plan(p: crate::options::Proxy, req: RequestInfoV) -> ProxyPlanV {
    ProxyPlanV {
        url: spec_var_expand(p.url, req),
        method: match p.method {
            Some(m) => Some(m@),
            None => None,
        },
        headers: match p.headers {
            Setting::Value(h) => spec_overlay(
                spec_remove_host(req.headers),
                spec_expand_fields(h@, req),
            ),
            _ => spec_remove_host(req.headers),
        },
        timeout: p.timeout,
    }
}

fn remove_host_headers(req: &RequestInfo) -> (r: Vec<HeaderEntry>)
    ensures
        Seq::new(r@.len(), |i: int| r@[i]@) == spec_remove_host(req@.headers),
{
    let ghost hv = req@.headers;
    let n = req.headers.len();
    let mut out: Vec<HeaderEntry> = Vec::new();
    let mut i: usize = 0;
    let hostname = str_chars("host");
    proof {
        assert(hv.skip(0) =~= hv);
        assert(Seq::new(out@.len(), |k: int| out@[k]@) =~= Seq::<HeaderEntryV>::empty());
    }
    while i < n
        invariant
            n == req.headers@.len(),
            n == hv.len(),
            hostname@ == "host"@,
            i <= n,
            forall|k: int| 0 <= k < hv.len() ==> hv[k] == #[trigger] req.headers@[k]@,
            spec_remove_host(hv) == Seq::new(out@.len(), |k: int| out@[k]@) + spec_remove_host(
                hv.skip(i as int),
            ),
        decreases n - i,
    {
        proof {
            assert(hv.skip(i as int)[0] == hv[i as int]);
            assert(hv.skip(i as int).drop_first() =~= hv.skip(i + 1));
            assert(hv[i as int] == req.headers@[i as int]@);
        }
        let name = str_chars(req.headers[i].name.as_str());
        let ghost prev = Seq::new(out@.len(), |k: int| out@[k]@);
        if !crate::request::eq_ci(&name, &hostname) {
            let entry = HeaderEntry {
                name: crate::util::chars_string(&name),
                value: {
                    let v = str_chars(req.headers[i].value.as_str());
                    crate::util::chars_string(&v)
                },
            };
            assert(entry@ == hv[i as int]);
            out.push(entry);
            proof {
                assert(Seq::new(out@.len(), |k: int| out@[k]@) =~= prev + seq![hv[i as int]]);
                assert(prev + (seq![hv[i as int]] + spec_remove_host(hv.skip(i + 1))) =~= (prev
                    + seq![hv[i as int]]) + spec_remove_host(hv.skip(i + 1)));
            }
        }
        i = i + 1;
    }
    proof {
        assert(hv.skip(n as int) =~= Seq::<HeaderEntryV>::empty());
    }
    out
}

/// The response headers after the configured map is applied: each entry is
/// expanded against the request and overlaid onto `base`, replacing a header
/// of the same name case-insensitively.
pub fn headers_merge(base: Vec<HeaderEntry>, over: &crate::options::Headers, req: &RequestInfo)
    -> (r: Vec<HeaderEntry>)
    ensures
        Seq::new(r@.len(), |i: int| r@[i]@) == spec_overlay(
            Seq::new(base@.len(), |i: int| base@[i]@),
            spec_expand_fields(over@, req@),
        ),
{
    let ghost bview = Seq::new(base@.len(), |i: int| base@[i]@);
    let ghost oview = spec_expand_fields(over@, req@);
    let mut out = base;
    let n = over.fields.len();
    let mut i: usize = 0;
    proof {
        assert(oview.skip(0) =~= oview);
    }
    while i < n
        invariant
            n == over.fields@.len(),
            n == oview.len(),
            i <= n,
            forall|k: int|
                0 <= k < n ==> oview[k] == (HeaderEntryV {
                    name: #[trigger] over.fields@[k].name@,
                    value: spec_var_expand(over.fields@[k].value, req@),
                }),
            spec_overlay(bview, oview) == spec_overlay(
                Seq::new(out@.len(), |k: int| out@[k]@),
                oview.skip(i as int),
            ),
        decreases n - i,
    {
        proof {
            assert(oview.skip(i as int)[0] == oview[i as int]);
            assert(oview.skip(i as int).drop_first() =~= oview.skip(i + 1));
        }
        let name = str_chars(over.fields[i].name.as_str());
        let value = over.fields[i].value.expand(req);
        let entry = HeaderEntry { name: chars_string(&name), value };
        assert(entry@ == oview[i as int]);
        out = insert_entry(out, entry);
        i = i + 1;
    }
    proof {
        assert(oview.skip(n as int) =~= Seq::<HeaderEntryV>::empty());
    }
    out
}

#[verifier::loop_isolation(false)]
fn insert_entry(list: Vec<HeaderEntry>, e: HeaderEntry) -> (r: Vec<HeaderEntry>)
    ensures
        Seq::new(r@.len(), |i: int| r@[i]@) == spec_entry_insert(
            Seq::new(list@.len(), |i: int| list@[i]@),
            e@,
        ),
{
    let ghost orig = Seq::new(list@.len(), |i: int| list@[i]@);
    let mut out = list;
    let n = out.len();
    let mut i: usize = 0;
    proof {
        assert(orig.subrange(0, 0) =~= Seq::<HeaderEntryV>::empty());
        assert(orig.skip(0) =~= orig);
        assert(orig.subrange(0, 0) + spec_entry_insert(orig.skip(0), e@) =~= spec_entry_insert(
            orig,
            e@,
        ));
    }
    let ename = str_chars(e.name.as_str());
    while i < n
        invariant
            n == out@.len(),
            ename@ == e@.name,
            forall|k: int| 0 <= k < n ==> orig[k] == #[trigger] out@[k]@,
            orig.len() == n,
            i <= n,
            spec_entry_insert(orig, e@) == orig.subrange(0, i as int) + spec_entry_insert(
                orig.skip(i as int),
                e@,
            ),
        decreases n - i,
    {
        proof {
            assert(orig.skip(i as int)[0] == orig[i as int]);
            assert(orig.skip(i as int).drop_first() =~= orig.skip(i + 1));
            assert(orig[i as int] == out@[i as int]@);
        }
        let name = str_chars(out[i].name.as_str());
        if crate::request::eq_ci(&name, &ename) {
            assert(seq_eq_ci(orig[i as int].name, e@.name));
            out.set(i, e);
            proof {
                assert(spec_entry_insert(orig.skip(i as int), e@) =~= seq![e@] + orig.skip(i + 1));
                assert(Seq::new(out@.len(), |k: int| out@[k]@) =~= orig.subrange(0, i as int) + (
                seq![e@] + orig.skip(i + 1)));
            }
            return out;
        }
        proof {
            assert(!seq_eq_ci(orig[i as int].name, e@.name));
            assert(orig.subrange(0, i + 1) =~= orig.subrange(0, i as int) + seq![orig[i as int]]);
            assert(orig.subrange(0, i as int) + (seq![orig[i as int]] + spec_entry_insert(
                orig.skip(i + 1),
                e@,
            )) =~= orig.subrange(0, i + 1) + spec_entry_insert(orig.skip(i + 1), e@));
        }
        i = i + 1;
    }
    proof {
        assert(orig.skip(n as int) =~= Seq::<HeaderEntryV>::empty());
    }
    out.push(e);
    proof {
        assert(Seq::new(out@.len(), |k: int| out@[k]@) =~= orig.subrange(0, n as int) + seq![e@]);
        assert(orig.subrange(0, n as int) =~= orig);
    }
    out
}

/// What the handler ladder decides for one request, before any filesystem
/// access.
#[derive(Debug, Clone)]
pub enum Action {
    Forbidden,
    Unauthorized,
    Proxy(ProxyPlan),
    NotAllowed(Option<String>),
    Echo(String),
    Redirect(u16, String),
    Fs(String),
}

/// The mathematical shape of a ladder decision.
pub enum ActionV {
    Forbidden,
    Unauthorized,
    Proxy(ProxyPlanV),
    NotAllowed(Option<Seq<char>>),
    Echo(Seq<char>),
    Redirect(u16, Seq<char>),
    Fs(Seq<char>),
}

impl View for Action {
    type V = ActionV;

    open spec fn view(&self) -> ActionV {
        match self {
            Action::Forbidden => ActionV::Forbidden,
            Action::Unauthorized => ActionV::Unauthorized,
            Action::Proxy(p) => ActionV::Proxy(p@),
            Action::NotAllowed(a) => ActionV::NotAllowed(
                match a {
                    Some(s) => Some(s@),
                    None => None,
                },
            ),
            Action::Echo(s) => ActionV::Echo(s@),
            Action::Redirect(c, s) => ActionV::Redirect(*c, s@),
            Action::Fs(s) => ActionV::Fs(s@),
        }
    }
}

/// The fixed-order handler ladder of the merged configuration: IP filter,
/// HTTP Basic auth, proxy, method allow-list, echo, rewrite, and last the
/// filesystem path resolution (the configured file, else the root joined
/// with `./` and the decoded path, else forbidden).
pub open spec fn spec_dispatch(cfg: SiteConfigV, req: RequestInfoV, ip: Seq<char>) -> ActionV {
    let ip_denied = match cfg.ip {
        Setting::Value(m) => !crate::matcher::spec_ip_pass(m.allow_view(), m.deny_view(), ip),
        _ => false,
    };
    let auth_denied = match cfg.auth {
        Setting::Value(a) => crate::request::spec_header_value(req.headers, "authorization"@)
            != a.credential@,
        _ => false,
    };
    let method_denied = match cfg.method {
        Setting::Value(m) => !method_views(m).contains(req.method),
        _ => false,
    };
    if ip_denied {
        ActionV::Forbidden
    } else if auth_denied {
        ActionV::Unauthorized
    } else if cfg.proxy is Value {
        ActionV::Proxy(spec_proxy_plan(cfg.proxy->Value_0, req))
    } else if method_denied {
        if req.method == "OPTIONS"@ {
            ActionV::NotAllowed(Some(spec_csv(method_views(cfg.method->Value_0))))
        } else {
            ActionV::NotAllowed(None)
        }
    } else if cfg.echo is Value {
        ActionV::Echo(spec_var_expand(cfg.echo->Value_0, req))
    } else if cfg.rewrite is Value {
        ActionV::Redirect(
            if (cfg.rewrite->Value_0).status == crate::options::RewriteStatus::_301 {
                301
            } else {
                302
            },
            spec_var_expand((cfg.rewrite->Value_0).location, req),
        )
    } else if cfg.file is Value {
        ActionV::Fs((cfg.file->Value_0)@)
    } else if cfg.root is Some {
        ActionV::Fs(crate::util::spec_join(seq!['.'] + req.path, (cfg.root->0)@))
    } else {
        ActionV::Forbidden
    }
}

/// Walks the handler ladder for one request from `ip`, on the merged
/// configuration.
pub fn dispatch(cfg: &SiteConfig, req: &RequestInfo, ip: &str) -> (r: Action)
    ensures
        r@ == spec_dispatch(cfg@, req@, ip@),
{
    if let Setting::Value(m) = &cfg.ip {
        if !m.is_pass(ip) {
            return Action::Forbidden;
        }
    }
    if let Setting::Value(a) = &cfg.auth {
        if !a.check(req) {
            return Action::Unauthorized;
        }
    }
    if let Setting::Value(p) = &cfg.proxy {
        let url = p.url.expand(req);
        let method = match &p.method {
            Some(m) => {
                let mc = str_chars(m.as_str());
                Some(chars_string(&mc))
            },
            Option::None => Option::None,
        };
        let base = remove_host_headers(req);
        let headers = match &p.headers {
            Setting::Value(h) => headers_merge(base, h, req),
            _ => base,
        };
        return Action::Proxy(ProxyPlan { url, method, headers, timeout: p.timeout });
    }
    if let Setting::Value(m) = &cfg.method {
        if !m.allows(req.method.as_str()) {
            let options = str_chars("OPTIONS");
            let mname = str_chars(req.method.as_str());
            if crate::util::eq_chars(&mname, &options) {
                return Action::NotAllowed(Some(m.allow_csv()));
            }
            return Action::NotAllowed(Option::None);
        }
    }
    if let Setting::Value(e) = &cfg.echo {
        return Action::Echo(e.expand(req));
    }
    if let Setting::Value(rw) = &cfg.rewrite {
        let code = rw.status.code();
        return Action::Redirect(code, rw.location.expand(req));
    }
    if let Setting::Value(f) = &cfg.file {
        let fc = str_chars(f.as_str());
        return Action::Fs(chars_string(&fc));
    }
    if let Some(root) = &cfg.root {
        let mut rel: Vec<char> = Vec::new();
        rel.push('.');
        let pc = str_chars(req.path.as_str());
        let rel2 = concat_chars(&rel, &pc);
        proof {
            assert(rel2@ =~= seq!['.'] + req@.path);
        }
        let joined = crate::util::absolute_path(chars_string(&rel2).as_str(), root.as_str());
        return Action::Fs(joined);
    }
    Action::Forbidden
}

// ---------------------------------------------------------------------------
// Filesystem routing.
// ---------------------------------------------------------------------------

/// What a stat of the resolved path found.
#[derive(Debug, Clone, Copy, PartialEq, Eq, Structural)]
pub enum FileKind {
    Missing,
    Directory,
    File,
}

/// Where a filesystem request goes, given what the stat found.
#[derive(Debug, Clone)]
pub enum FileRoute {
    Found,
    Redirect(u16, String),
    Directory,
    Missing,
}

/// The mathematical shape of a filesystem route.
pub enum FileRouteV {
    Found,
    Redirect(u16, Seq<char>),
    Directory,
    Missing,
}

impl View for FileRoute {
    type V = FileRouteV;

    open spec fn view(&self) -> FileRouteV {
        match self {
            FileRoute::Found => FileRouteV::Found,
            FileRoute::Redirect(c, s) => FileRouteV::Redirect(*c, s@),
            FileRoute::Directory => FileRouteV::Directory,
            FileRoute::Missing => FileRouteV::Missing,
        }
    }
}

/// Where a request whose target was stat'ed as `kind` goes: a regular file
/// is served; a directory reached without a trailing `/` answers 301 with
/// the request path, a `/`, and any original query string; a directory with
/// one is listed or probed; a missing file falls to `try` or the error page.
pub open spec fn spec_file_route(
    kind: FileKind,
    path: Seq<char>,
    query: Option<Seq<char>>,
) -> FileRouteV {
    match kind {
        FileKind::Missing => FileRouteV::Missing,
        FileKind::File => FileRouteV::Found,
        FileKind::Directory => {
            if path.len() > 0 && path.last() == '/' {
                FileRouteV::Directory
            } else {
                FileRouteV::Redirect(
                    301,
                    path + seq!['/'] + (match query {
                        Some(q) => q,
                        None => seq![],
                    }),
                )
            }
        },
    }
}

/// Routes a filesystem request from what the stat found; the redirect
/// carries status 301 and `path + "/" + query`.
pub fn file_route(kind: FileKind, req_path: &str, query: &Option<String>) -> (r: FileRoute)
    ensures
        r@ == spec_file_route(
            kind,
            req_path@,
            match query {
                Some(q) => Some(q@),
                None => None,
            },
        ),
{
    match kind {
        FileKind::Missing => FileRoute::Missing,
        FileKind::File => FileRoute::Found,
        FileKind::Directory => {
            let p = str_chars(req_path);
            if p.len() > 0 && p[p.len() - 1] == '/' {
                FileRoute::Directory
            } else {
                let mut loc = p;
                loc.push('/');
                let loc2 = match query {
                    Some(q) => {
                        let qc = str_chars(q.as_str());
                        concat_chars(&loc, &qc)
                    },
                    Option::None => loc,
                };
                proof {
                    assert(loc2@ =~= req_path@ + seq!['/'] + (match query {
                        Some(q) => q@,
                        Option::None => Seq::<char>::empty(),
                    }));
                }
                FileRoute::Redirect(301, chars_string(&loc2))
            }
        },
    }
}

/// The status an upstream failure maps to: 504 for a timeout, 502
/// otherwise.
pub fn proxy_error_status(timed_out: bool) -> (r: u16)
    ensures
        timed_out ==> r == 504,
        !timed_out ==> r == 502,
{
    if timed_out {
        504
    } else {
        502
    }
}

/// Whether an autoindex row is shown: dotfiles are excluded.
pub fn listing_keeps(name: &str) -> (r: bool)
    ensures
        r == !(name@.len() > 0 && name@[0] == '.'),
{
    let c = crate::util::str_chars(name);
    !(c.len() > 0 && c[0] == '.')
}

// ---------------------------------------------------------------------------
// Error pages and reason phrases.
// ---------------------------------------------------------------------------

/// The reason phrase of the statuses this server can answer with.
pub open spec fn spec_reason(status: u16) -> Seq<char> {
    if status == 200 {
        "OK"@
    } else if status == 301 {
        "Moved Permanently"@
    } else if status == 302 {
        "Found"@
    } else if status == 400 {
        "Bad Request"@
    } else if status == 401 {
        "Unauthorized"@
    } else if status == 403 {
        "Forbidden"@
    } else if status == 404 {
        "Not Found"@
    } else if status == 405 {
        "Method Not Allowed"@
    } else if status == 500 {
        "Internal Server Error"@
    } else if status == 502 {
        "Bad Gateway"@
    } else if status == 504 {
        "Gateway Timeout"@
    } else {
        ""@
    }
}

/// The reason phrase for `status`, for the codes this server emits.
pub fn reason_phrase(status: u16) -> (r: String)
    ensures
        r@ == spec_reason(status),
{
    let s = if status == 200 {
        "OK"
    } else if status == 301 {
        "Moved Permanently"
    } else if status == 302 {
        "Found"
    } else if status == 400 {
        "Bad Request"
    } else if status == 401 {
        "Unauthorized"
    } else if status == 403 {
        "Forbidden"
    } else if status == 404 {
        "Not Found"
    } else if status == 405 {
        "Method Not Allowed"
    } else if status == 500 {
        "Internal Server Error"
    } else if status == 502 {
        "Bad Gateway"
    } else if status == 504 {
        "Gateway Timeout"
    } else {
        ""
    };
    let c = str_chars(s);
    chars_string(&c)
}

/// The synthesized body of an error response: `<code> <reason>`.
pub open spec fn spec_error_body(status: u16) -> Seq<char> {
    crate::util::spec_decimal(status as int) + seq![' '] + spec_reason(status)
}

/// The plain-text body used when no error page replaces it.
pub fn default_error_body(status: u16) -> (r: String)
    ensures
        r@ == spec_error_body(status),
{
    let d = crate::util::decimal_chars(status as u128);
    let mut out = d;
    out.push(' ');
    let reason = reason_phrase(status);
    let rc = str_chars(reason.as_str());
    let all = concat_chars(&out, &rc);
    proof {
        assert(all@ =~= spec_error_body(status));
    }
    chars_string(&all)
}

/// The error page configured for `status`: exactly when the error map is
/// set and holds a page path for that status.
pub fn error_page(cfg: &SiteConfig, status: u16) -> (r: Option<&String>)
    ensures
        match r {
            Some(p) => cfg@.error matches Setting::Value(m) && crate::options::spec_status_lookup(
                m,
                status,
            ) == Some(Setting::Value(*p)),
            None => !(cfg@.error matches Setting::Value(m)
                && crate::options::spec_status_lookup(m, status) matches Some(Setting::Value(_))),
        },
{
    match &cfg.error {
        Setting::Value(pages) => match pages.get(status) {
            Some(s) => match s {
                Setting::Value(p) => Some(p),
                _ => Option::None,
            },
            Option::None => Option::None,
        },
        _ => Option::None,
    }
}

} // verus!
