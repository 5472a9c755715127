use crate::matcher::{location_mode_matches, HostMatcher, IpMatcher, LocationMatcher, LocModeV};
use crate::options::{
    spec_headers_union, spec_status_union, Auth, Headers, HeaderField, Index, Logger, Method,
    Proxy, Rewrite, StatusEntry, StatusPage,
};
use crate::compress::Compress;
use crate::options::Directory;
use crate::setting::Setting;
use crate::var::Var;
use vstd::prelude::*;

verus! {

/// A configured listener: the address text it binds and the sites under it.
#[derive(Debug, Clone)]
pub struct ServerConfig {
    pub listen: String,
    pub tls: Vec<crate::options::TLSContent>,
    pub sites: Vec<SiteConfig>,
}

/// One virtual site: its host patterns, option set, and location overlays.
#[derive(Debug, Clone)]
pub struct SiteConfig {
    pub host: HostMatcher,
    pub root: Option<String>,
    pub echo: Setting<Var<String>>,
    pub file: Setting<String>,
    pub index: Setting<Index>,
    pub directory: Setting<Directory>,
    pub headers: Setting<Headers>,
    pub rewrite: Setting<Rewrite>,
    pub compress: Setting<Compress>,
    pub method: Setting<Method>,
    pub auth: Setting<Auth>,
    pub try_: Setting<Vec<Var<String>>>,
    pub error: Setting<StatusPage>,
    pub proxy: Setting<Proxy>,
    pub log: Setting<Logger>,
    pub ip: Setting<IpMatcher>,
    pub location: Vec<Location>,
}

/// One location overlay: a path pattern, a break flag, and the same option
/// set as a site.
#[derive(Debug, Clone)]
pub struct Location {
    pub location: LocationMatcher,
    pub break_: bool,
    pub root: Option<String>,
    pub echo: Setting<Var<String>>,
    pub file: Setting<String>,
    pub index: Setting<Index>,
    pub directory: Setting<Directory>,
    pub headers: Setting<Headers>,
    pub rewrite: Setting<Rewrite>,
    pub compress: Setting<Compress>,
    pub method: Setting<Method>,
    pub auth: Setting<Auth>,
    pub try_: Setting<Vec<Var<String>>>,
    pub error: Setting<StatusPage>,
    pub proxy: Setting<Proxy>,
    pub log: Setting<Logger>,
    pub ip: Setting<IpMatcher>,
}

/// A header-map option with the map as a sequence of entries.
pub open spec fn headers_setting_view(s: Setting<Headers>) -> Setting<Seq<HeaderField>> {
    match s {
        Setting::NotSet => Setting::NotSet,
        Setting::Off => Setting::Off,
        Setting::Value(h) => Setting::Value(h@),
    }
}

/// An error-page option with the map as a sequence of entries.
pub open spec fn status_setting_view(s: Setting<StatusPage>) -> Setting<Seq<StatusEntry>> {
    match s {
        Setting::NotSet => Setting::NotSet,
        Setting::Off => Setting::Off,
        Setting::Value(p) => Setting::Value(p@),
    }
}

/// The mathematical shape of a site.
#[verifier::ext_equal]
pub struct SiteConfigV {
    pub host: HostMatcher,
    pub root: Option<String>,
    pub echo: Setting<Var<String>>,
    pub file: Setting<String>,
    pub index: Setting<Index>,
    pub directory: Setting<Directory>,
    pub headers: Setting<Seq<HeaderField>>,
    pub rewrite: Setting<Rewrite>,
    pub compress: Setting<Compress>,
    pub method: Setting<Method>,
    pub auth: Setting<Auth>,
    pub try_: Setting<Vec<Var<String>>>,
    pub error: Setting<Seq<StatusEntry>>,
    pub proxy: Setting<Proxy>,
    pub log: Setting<Logger>,
    pub ip: Setting<IpMatcher>,
    pub location: Seq<Location>,
}

/// The mathematical shape of a location overlay.
#[verifier::ext_equal]
pub struct LocationV {
    pub location: LocModeV,
    pub break_: bool,
    pub root: Option<String>,
    pub echo: Setting<Var<String>>,
    pub file: Setting<String>,
    pub index: Setting<Index>,
    pub directory: Setting<Directory>,
    pub headers: Setting<Seq<HeaderField>>,
    pub rewrite: Setting<Rewrite>,
    pub compress: Setting<Compress>,
    pub method: Setting<Method>,
    pub auth: Setting<Auth>,
    pub try_: Setting<Vec<Var<String>>>,
    pub error: Setting<Seq<StatusEntry>>,
    pub proxy: Setting<Proxy>,
    pub log: Setting<Logger>,
    pub ip: Setting<IpMatcher>,
}

impl View for SiteConfig {
    type V = SiteConfigV;

    open spec fn view(&self) -> SiteConfigV {
        SiteConfigV {
            host: self.host,
            root: self.root,
            echo: self.echo,
            file: self.file,
            index: self.index,
            directory: self.directory,
            headers: headers_setting_view(self.headers),
            rewrite: self.rewrite,
            compress: self.compress,
            method: self.method,
            auth: self.auth,
            try_: self.try_,
            error: status_setting_view(self.error),
            proxy: self.proxy,
            log: self.log,
            ip: self.ip,
            location: self.location@,
        }
    }
}

impl View for Location {
    type V = LocationV;

    open spec fn view(&self) -> LocationV {
        LocationV {
            location: self.location@,
            break_: self.break_,
            root: self.root,
            echo: self.echo,
            file: self.file,
            index: self.index,
            directory: self.directory,
            headers: headers_setting_view(self.headers),
            rewrite: self.rewrite,
            compress: self.compress,
            method: self.method,
            auth: self.auth,
            try_: self.try_,
            error: status_setting_view(self.error),
            proxy: self.proxy,
            log: self.log,
            ip: self.ip,
        }
    }
}

// ---------------------------------------------------------------------------
// The merge algebra.
// ---------------------------------------------------------------------------

/// Merging one replace-kind option: an unset overlay keeps the base, `Off`
/// disables, a value replaces.
pub open spec fn merge_replace<T>(base: Setting<T>, over: Setting<T>) -> Setting<T> {
    match over {
        Setting::NotSet => base,
        Setting::Off => Setting::Off,
        Setting::Value(v) => Setting::Value(v),
    }
}

/// Merging a map-kind option: as `merge_replace`, except that a value over a
/// value becomes their union, the overlay winning per key.
pub open spec fn merge_headers(
    base: Setting<Seq<HeaderField>>,
    over: Setting<Seq<HeaderField>>,
) -> Setting<Seq<HeaderField>> {
    match over {
        Setting::NotSet => base,
        Setting::Off => Setting::Off,
        Setting::Value(m) => match base {
            Setting::Value(m0) => Setting::Value(spec_headers_union(m0, m)),
            _ => Setting::Value(m),
        },
    }
}

/// Merging the error-page map, as `merge_headers`.
pub open spec fn merge_status(
    base: Setting<Seq<StatusEntry>>,
    over: Setting<Seq<StatusEntry>>,
) -> Setting<Seq<StatusEntry>> {
    match over {
        Setting::NotSet => base,
        Setting::Off => Setting::Off,
        Setting::Value(m) => match base {
            Setting::Value(m0) => Setting::Value(spec_status_union(m0, m)),
            _ => Setting::Value(m),
        },
    }
}

/// Merging one location overlay into a site, field by field.
pub open spec fn spec_merge(base: SiteConfigV, over: LocationV) -> SiteConfigV {
    SiteConfigV {
        host: base.host,
        root: match over.root {
            Some(r) => Some(r),
            None => base.root,
        },
        echo: merge_replace(base.echo, over.echo),
        file: merge_replace(base.file, over.file),
        index: merge_replace(base.index, over.index),
        directory: merge_replace(base.directory, over.directory),
        headers: merge_headers(base.headers, over.headers),
        rewrite: merge_replace(base.rewrite, over.rewrite),
        compress: merge_replace(base.compress, over.compress),
        method: merge_replace(base.method, over.method),
        auth: merge_replace(base.auth, over.auth),
        try_: merge_replace(base.try_, over.try_),
        error: merge_status(base.error, over.error),
        proxy: merge_replace(base.proxy, over.proxy),
        log: merge_replace(base.log, over.log),
        ip: merge_replace(base.ip, over.ip),
        location: base.location,
    }
}

/// Walking a location list in declaration order: each location whose pattern
/// matches the decoded path is merged; a matching location with `break` set
/// ends the walk.
pub open spec fn spec_merge_locs(
    base: SiteConfigV,
    locs: Seq<Location>,
    path: Seq<char>,
) -> SiteConfigV
    decreases locs.len(),
{
    if locs.len() == 0 {
        base
    } else if location_mode_matches(locs[0]@.location, path) {
        let merged = spec_merge(base, locs[0]@);
        if locs[0].break_ {
            merged
        } else {
            spec_merge_locs(merged, locs.drop_first(), path)
        }
    } else {
        spec_merge_locs(base, locs.drop_first(), path)
    }
}

/// A site with its location list emptied.
pub open spec fn clear_locations(s: SiteConfigV) -> SiteConfigV {
    SiteConfigV { location: Seq::empty(), ..s }
}

/// The effective configuration for a request path: all matching locations
/// merged over the site, and the location list cleared.
pub open spec fn spec_merge_route(s: SiteConfigV, path: Seq<char>) -> SiteConfigV {
    clear_locations(spec_merge_locs(s, s.location, path))
}

proof fn lemma_merge_locs_base_locations(
    a: SiteConfigV,
    b: SiteConfigV,
    locs: Seq<Location>,
    path: Seq<char>,
)
    requires
        clear_locations(a) == clear_locations(b),
    ensures
        clear_locations(spec_merge_locs(a, locs, path)) == clear_locations(
            spec_merge_locs(b, locs, path),
        ),
    decreases locs.len(),
{
    if locs.len() > 0 {
        let l = locs[0]@;
        if location_mode_matches(l.location, path) {
            assert(clear_locations(spec_merge(a, l)) =~= clear_locations(spec_merge(b, l)));
            if !locs[0].break_ {
                lemma_merge_locs_base_locations(
                    spec_merge(a, l),
                    spec_merge(b, l),
                    locs.drop_first(),
                    path,
                );
            }
        } else {
            lemma_merge_locs_base_locations(a, b, locs.drop_first(), path);
        }
    }
}

fn merge_replace_exec<T>(base: Setting<T>, over: Setting<T>) -> (r: Setting<T>)
    ensures
        r == merge_replace(base, over),
{
    match over {
        Setting::NotSet => base,
        Setting::Off => Setting::Off,
        Setting::Value(v) => Setting::Value(v),
    }
}

fn merge_headers_exec(base: Setting<Headers>, over: Setting<Headers>) -> (r: Setting<Headers>)
    ensures
        headers_setting_view(r) == merge_headers(
            headers_setting_view(base),
            headers_setting_view(over),
        ),
{
    match over {
        Setting::NotSet => base,
        Setting::Off => Setting::Off,
        Setting::Value(m) => match base {
            Setting::Value(mut m0) => {
                m0.extend(m);
                Setting::Value(m0)
            },
            _ => Setting::Value(m),
        },
    }
}

fn merge_status_exec(base: Setting<StatusPage>, over: Setting<StatusPage>) -> (r: Setting<
    StatusPage,
>)
    ensures
        status_setting_view(r) == merge_status(
            status_setting_view(base),
            status_setting_view(over),
        ),
{
    match over {
        Setting::NotSet => base,
        Setting::Off => Setting::Off,
        Setting::Value(m) => match base {
            Setting::Value(mut m0) => {
                m0.extend(m);
                Setting::Value(m0)
            },
            _ => Setting::Value(m),
        },
    }
}

impl SiteConfig {
    /// Merges one location overlay into this site.
    fn merge_one(self, item: Location) -> (r: SiteConfig)
        ensures
            r@ == spec_merge(self@, item@),
    {
        SiteConfig {
            host: self.host,
            root: match item.root {
                Some(p) => Some(p),
                Option::None => self.root,
            },
            echo: merge_replace_exec(self.echo, item.echo),
            file: merge_replace_exec(self.file, item.file),
            index: merge_replace_exec(self.index, item.index),
            directory: merge_replace_exec(self.directory, item.directory),
            headers: merge_headers_exec(self.headers, item.headers),
            rewrite: merge_replace_exec(self.rewrite, item.rewrite),
            compress: merge_replace_exec(self.compress, item.compress),
            method: merge_replace_exec(self.method, item.method),
            auth: merge_replace_exec(self.auth, item.auth),
            try_: merge_replace_exec(self.try_, item.try_),
            error: merge_status_exec(self.error, item.error),
            proxy: merge_replace_exec(self.proxy, item.proxy),
            log: merge_replace_exec(self.log, item.log),
            ip: merge_replace_exec(self.ip, item.ip),
            location: self.location,
        }
    }

    /// The effective configuration for the decoded request path `route`:
    /// matching locations merged in declaration order, stopping after one
    /// with `break` set; the location list of the result is empty.
    #[verifier::loop_isolation(false)]
    pub fn merge(self, route: &str) -> (r: SiteConfig)
        ensures
            r@ == spec_merge_route(self@, route@),
            r@.location.len() == 0,
    {
        let ghost orig = self@;
        let mut cfg = self;
        let mut locs: Vec<Location> = Vec::new();
        core::mem::swap(&mut cfg.location, &mut locs);
        proof {
            assert(cfg@ =~= SiteConfigV { location: Seq::empty(), ..orig });
            assert(clear_locations(cfg@) =~= clear_locations(orig));
            lemma_merge_locs_base_locations(orig, cfg@, orig.location, route@);
            assert(locs@ == orig.location);
        }
        while locs.len() > 0
            invariant
                cfg@.location.len() == 0,
                clear_locations(spec_merge_locs(orig, orig.location, route@)) == clear_locations(
                    spec_merge_locs(cfg@, locs@, route@),
                ),
            decreases locs@.len(),
        {
            let ghost prev_locs = locs@;
            let ghost prev_cfg = cfg@;
            let item = locs.remove(0);
            proof {
                assert(locs@ =~= prev_locs.drop_first());
                assert(prev_locs[0] == item);
            }
            if item.location.is_match(route) {
                let brk = item.break_;
                cfg = cfg.merge_one(item);
                proof {
                    assert(cfg@.location =~= Seq::<Location>::empty());
                }
                if brk {
                    proof {
                        assert(spec_merge_locs(prev_cfg, prev_locs, route@) == cfg@);
                        assert(clear_locations(spec_merge_locs(orig, orig.location, route@))
                            == clear_locations(cfg@));
                        assert(cfg@.location =~= Seq::<Location>::empty());
                        assert(clear_locations(cfg@) =~= cfg@);
                        assert(cfg@ == spec_merge_route(orig, route@));
                    }
                    return cfg;
                }
                proof {
                    assert(spec_merge_locs(prev_cfg, prev_locs, route@) == spec_merge_locs(
                        cfg@,
                        locs@,
                        route@,
                    ));
                }
            } else {
                proof {
                    assert(spec_merge_locs(prev_cfg, prev_locs, route@) == spec_merge_locs(
                        cfg@,
                        locs@,
                        route@,
                    ));
                }
            }
        }
        proof {
            assert(locs@ =~= Seq::<Location>::empty());
            assert(spec_merge_locs(cfg@, locs@, route@) == cfg@);
            assert(cfg@.location =~= Seq::<Location>::empty());
            assert(clear_locations(cfg@) =~= cfg@);
        }
        cfg
    }
}

// ---------------------------------------------------------------------------
// Laws of the merge algebra.
// ---------------------------------------------------------------------------

/// A location overlay that sets nothing.
pub open spec fn location_all_none(l: LocationV) -> bool {
    &&& l.root is None
    &&& l.echo is NotSet
    &&& l.file is NotSet
    &&& l.index is NotSet
    &&& l.directory is NotSet
    &&& l.headers is NotSet
    &&& l.rewrite is NotSet
    &&& l.compress is NotSet
    &&& l.method is NotSet
    &&& l.auth is NotSet
    &&& l.try_ is NotSet
    &&& l.error is NotSet
    &&& l.proxy is NotSet
    &&& l.log is NotSet
    &&& l.ip is NotSet
}

/// A location overlay that disables every option.
pub open spec fn location_all_off(l: LocationV) -> bool {
    &&& l.root is None
    &&& l.echo is Off
    &&& l.file is Off
    &&& l.index is Off
    &&& l.directory is Off
    &&& l.headers is Off
    &&& l.rewrite is Off
    &&& l.compress is Off
    &&& l.method is Off
    &&& l.auth is Off
    &&& l.try_ is Off
    &&& l.error is Off
    &&& l.proxy is Off
    &&& l.log is Off
    &&& l.ip is Off
}

/// Law: merging a location that sets nothing leaves the site unchanged.
pub proof fn lemma_merge_all_none(s: SiteConfigV, l: LocationV)
    requires
        location_all_none(l),
    ensures
        spec_merge(s, l) == s,
{
}

/// Law: merging a location that disables every option turns every option of
/// the site off, touching neither host, root, nor the location list.
pub proof fn lemma_merge_all_off(s: SiteConfigV, l: LocationV)
    requires
        location_all_off(l),
    ensures
        spec_merge(s, l) == (SiteConfigV {
            host: s.host,
            root: s.root,
            echo: Setting::Off,
            file: Setting::Off,
            index: Setting::Off,
            directory: Setting::Off,
            headers: Setting::Off,
            rewrite: Setting::Off,
            compress: Setting::Off,
            method: Setting::Off,
            auth: Setting::Off,
            try_: Setting::Off,
            error: Setting::Off,
            proxy: Setting::Off,
            log: Setting::Off,
            ip: Setting::Off,
            location: s.location,
        }),
{
}

/// Law: resolving an already-resolved configuration changes nothing: the
/// first resolution consumed the location list, so a second walk over the
/// same (now empty) list merges nothing.
pub proof fn lemma_merge_route_idempotent(s: SiteConfigV, path: Seq<char>)
    ensures
        spec_merge_route(spec_merge_route(s, path), path) == spec_merge_route(s, path),
{
    let once = spec_merge_route(s, path);
    assert(once.location =~= Seq::<Location>::empty());
    assert(spec_merge_locs(once, once.location, path) == once);
    assert(clear_locations(once) =~= once);
}

/// Law: a matching location with `break` set stops the walk: locations
/// declared after it contribute nothing, whether or not they would match.
pub proof fn lemma_break_stops_merge(
    base: SiteConfigV,
    locs: Seq<Location>,
    extra: Seq<Location>,
    path: Seq<char>,
)
    requires
        exists|i: int|
            0 <= i < locs.len() && location_mode_matches(#[trigger] locs[i]@.location, path)
                && locs[i].break_,
    ensures
        spec_merge_locs(base, locs + extra, path) == spec_merge_locs(base, locs, path),
    decreases locs.len(),
{
    let i0 = choose|i: int|
        0 <= i < locs.len() && location_mode_matches(#[trigger] locs[i]@.location, path)
            && locs[i].break_;
    assert(locs.len() > 0);
    let all = locs + extra;
    assert(all[0] == locs[0]);
    assert(all.drop_first() =~= locs.drop_first() + extra);
    if location_mode_matches(locs[0]@.location, path) {
        if locs[0].break_ {
        } else {
            assert(i0 != 0);
            let rest = locs.drop_first();
            assert(rest[i0 - 1] == locs[i0]);
            lemma_break_stops_merge(spec_merge(base, locs[0]@), rest, extra, path);
        }
    } else {
        assert(i0 != 0);
        let rest = locs.drop_first();
        assert(rest[i0 - 1] == locs[i0]);
        lemma_break_stops_merge(base, rest, extra, path);
    }
}

/// Law: when both the site and a matching location carry a header map, the
/// merged option is their union: it holds every name of either map, the
/// location's value winning where both define a name.
pub proof fn lemma_merge_header_union(s: SiteConfigV, l: LocationV, k: Seq<char>)
    requires
        (s.headers matches Setting::Value(m0)),
        (l.headers matches Setting::Value(m1) && crate::options::headers_unique(m1)),
    ensures
        (spec_merge(s, l).headers matches Setting::Value(u) && (match (s.headers, l.headers) {
            (Setting::Value(m0), Setting::Value(m1)) => crate::options::spec_headers_lookup(u, k)
                == match crate::options::spec_headers_lookup(m1, k) {
                Some(v) => Some(v),
                None => crate::options::spec_headers_lookup(m0, k),
            },
            _ => false,
        })),
{
    let m0 = s.headers->Value_0;
    let m1 = l.headers->Value_0;
    crate::options::lemma_header_map_union(m0, m1, k);
}

} // verus!
