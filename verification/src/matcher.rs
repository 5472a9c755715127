use crate::util::{
    ends_with, eq_chars, find_char_from, has_char, seq_has_char, slice_chars, starts_with,
    starts_with_exec, ends_with_exec, str_chars, chars_string, concat_chars, all_digits,
    spec_dec_value, parse_small_decimal,
};
use crate::wildcard::{wildcard_matches, WildcardMatcher};
use vstd::prelude::*;

verus! {

// ---------------------------------------------------------------------------
// Trusted interface to the regex and globset crates.
// ---------------------------------------------------------------------------

/// Whether `regex::Regex::new` accepts `pattern`.
pub uninterp spec fn regex_compiles(pattern: Seq<char>) -> bool;

/// Whether the regular expression `pattern` matches anywhere in `text`,
/// as decided by `regex::Regex::is_match`.
pub uninterp spec fn regex_matches(pattern: Seq<char>, text: Seq<char>) -> bool;

/// Whether `globset::Glob::new` accepts `pattern` and a matcher for it
/// builds (`globset::GlobSetBuilder::build`).
pub uninterp spec fn glob_compiles(pattern: Seq<char>) -> bool;

/// Whether the glob `pattern` matches `text`, as decided by
/// `globset::GlobSet::is_match` on a set holding that one glob. On Windows
/// builds, globset normalizes `\` to `/` in the matched text; within one
/// build the result is still a function of the two strings.
pub uninterp spec fn glob_matches(pattern: Seq<char>, text: Seq<char>) -> bool;

/// The longest glob pattern handed to globset. Far below this bound, the
/// automata globset builds stay within their 32-bit state space, and above
/// the bound the pattern is refused before globset sees it.
pub const GLOB_PATTERN_MAX: usize = 1000000;

/// A glob pattern the library will run: short enough to hand to globset,
/// and accepted by it.
pub open spec fn glob_usable(pattern: Seq<char>) -> bool {
    pattern.len() < GLOB_PATTERN_MAX && glob_compiles(pattern)
}

/// Relies on `regex::Regex::new`: whether it accepts the pattern, which
/// depends on the pattern text alone.
#[verifier::external_body]
fn regex_valid(pattern: &str) -> (r: bool)
    ensures
        r == regex_compiles(pattern@),
{
    regex::Regex::new(pattern).is_ok()
}

/// Relies on `regex::Regex::new` and `regex::Regex::is_match`: compiles the
/// pattern and runs it over `text`; both results depend on the two strings
/// alone.
#[verifier::external_body]
fn regex_run(pattern: &str, text: &str) -> (r: Option<bool>)
    ensures
        r is Some <==> regex_compiles(pattern@),
        r is Some ==> r->0 == regex_matches(pattern@, text@),
{
    match regex::Regex::new(pattern) {
        Ok(re) => Some(re.is_match(text)),
        Err(_) => None,
    }
}

/// Relies on `globset::Glob::new` and `globset::GlobSetBuilder::build`:
/// whether the pattern parses and its matcher builds, which depends on the
/// pattern text alone. Both steps return `Result`; the length bound keeps
/// the pattern far below the automata's internal size limits.
#[verifier::external_body]
fn glob_valid(pattern: &str) -> (r: bool)
    requires
        pattern@.len() < GLOB_PATTERN_MAX,
    ensures
        r == glob_compiles(pattern@),
{
    match globset::Glob::new(pattern) {
        Ok(g) => {
            let mut builder = globset::GlobSetBuilder::new();
            builder.add(g);
            builder.build().is_ok()
        },
        Err(_) => false,
    }
}

/// Relies on `globset::Glob::new`, `globset::GlobSetBuilder::build` and
/// `globset::GlobSet::is_match`: compiles the one glob and runs it over
/// `text`; both results depend on the two strings alone. The length bound
/// keeps the pattern far below the automata's internal size limits.
#[verifier::external_body]
fn glob_run(pattern: &str, text: &str) -> (r: Option<bool>)
    requires
        pattern@.len() < GLOB_PATTERN_MAX,
    ensures
        r is Some <==> glob_compiles(pattern@),
        r is Some ==> r->0 == glob_matches(pattern@, text@),
{
    match globset::Glob::new(pattern) {
        Ok(g) => {
            let mut builder = globset::GlobSetBuilder::new();
            builder.add(g);
            match builder.build() {
                Ok(set) => Some(set.is_match(text)),
                Err(_) => None,
            }
        },
        Err(_) => None,
    }
}

// ---------------------------------------------------------------------------
// Trimming and the `~` regex prefix.
// ---------------------------------------------------------------------------

/// ASCII whitespace, as trimmed from pattern text.
pub open spec fn is_space(c: char) -> bool {
    c == ' ' || c == '\t' || c == '\r' || c == '\n'
}

/// `s` without leading and trailing ASCII whitespace.
pub open spec fn spec_trim(s: Seq<char>) -> Seq<char>
    decreases s.len(),
{
    if s.len() > 0 && is_space(s[0]) {
        spec_trim(s.subrange(1, s.len() as int))
    } else if s.len() > 0 && is_space(s.last()) {
        spec_trim(s.drop_last())
    } else {
        s
    }
}

/// `s` without leading and trailing ASCII whitespace.
pub fn trim_chars(s: &Vec<char>) -> (r: Vec<char>)
    ensures
        r@ == spec_trim(s@),
{
    let mut lo: usize = 0;
    let mut hi: usize = s.len();
    proof {
        assert(s@.subrange(0, s@.len() as int) =~= s@);
    }
    while lo < hi && (s[lo] == ' ' || s[lo] == '\t' || s[lo] == '\r' || s[lo] == '\n')
        invariant
            lo <= hi <= s@.len(),
            spec_trim(s@) == spec_trim(s@.subrange(lo as int, hi as int)),
            forall|j: int| 0 <= j < lo ==> is_space(s@[j]),
            forall|j: int| hi <= j < s@.len() ==> is_space(s@[j]),
        decreases hi - lo,
    {
        proof {
            assert(s@.subrange(lo as int, hi as int).subrange(
                1,
                s@.subrange(lo as int, hi as int).len() as int,
            ) =~= s@.subrange(lo + 1, hi as int));
        }
        lo = lo + 1;
    }
    while lo < hi && (s[hi - 1] == ' ' || s[hi - 1] == '\t' || s[hi - 1] == '\r' || s[hi - 1]
        == '\n')
        invariant
            lo <= hi <= s@.len(),
            spec_trim(s@) == spec_trim(s@.subrange(lo as int, hi as int)),
            lo < hi ==> !is_space(s@[lo as int]),
        decreases hi,
    {
        proof {
            assert(s@.subrange(lo as int, hi as int).drop_last() =~= s@.subrange(
                lo as int,
                hi - 1,
            ));
        }
        hi = hi - 1;
    }
    let r = slice_chars(s, lo, hi);
    proof {
        assert(spec_trim(s@.subrange(lo as int, hi as int)) == s@.subrange(lo as int, hi as int));
    }
    r
}

/// The body of a `~`-prefixed regex pattern: the text after the sigil,
/// trimmed; `None` when the text does not start with `~`.
pub open spec fn spec_regex_str(s: Seq<char>) -> Option<Seq<char>> {
    if s.len() > 0 && s[0] == '~' {
        Some(spec_trim(s.subrange(1, s.len() as int)))
    } else {
        None
    }
}

fn get_regex_str(s: &Vec<char>) -> (r: Option<Vec<char>>)
    ensures
        match r {
            Some(v) => spec_regex_str(s@) == Some(v@),
            None => spec_regex_str(s@) is None,
        },
{
    if s.len() > 0 && s[0] == '~' {
        let rest = slice_chars(s, 1, s.len());
        Some(trim_chars(&rest))
    } else {
        Option::None
    }
}

// ---------------------------------------------------------------------------
// Host matching.
// ---------------------------------------------------------------------------

/// One host pattern, classified at construction.
#[derive(Debug, Clone)]
pub enum HostMode {
    Text(Vec<char>),
    Wild(WildcardMatcher),
    Rx(Vec<char>),
}

/// The mathematical shape of one classified host pattern.
pub enum HostModeV {
    Text(Seq<char>),
    Wild(Seq<char>),
    Rx(Seq<char>),
}

impl View for HostMode {
    type V = HostModeV;

    open spec fn view(&self) -> HostModeV {
        match self {
            HostMode::Text(t) => HostModeV::Text(t@),
            HostMode::Wild(w) => HostModeV::Wild(w@),
            HostMode::Rx(p) => HostModeV::Rx(p@),
        }
    }
}

/// A regex anchored to the whole subject: `^(?:` the pattern `)$`, so a
/// host pattern must match the full hostname, not a part of it.
pub open spec fn spec_anchor(p: Seq<char>) -> Seq<char> {
    "^(?:"@ + p + ")$"@
}

/// Whether one classified pattern matches a hostname; a regex pattern is
/// anchored and must match the whole hostname.
pub open spec fn host_mode_matches(m: HostModeV, host: Seq<char>) -> bool {
    match m {
        HostModeV::Text(t) => t == host,
        HostModeV::Wild(w) => wildcard_matches(w, host),
        HostModeV::Rx(p) => regex_compiles(spec_anchor(p)) && regex_matches(spec_anchor(p), host),
    }
}

/// The anchored form of a host regex pattern.
pub fn anchor_pattern(p: &Vec<char>) -> (r: Vec<char>)
    ensures
        r@ == spec_anchor(p@),
{
    let open = str_chars("^(?:");
    let close = str_chars(")$");
    let mid = concat_chars(&open, p);
    let r = concat_chars(&mid, &close);
    r
}

/// Whether a pattern list matches a hostname: an empty list matches any host,
/// otherwise some pattern must match.
pub open spec fn host_list_matches(ms: Seq<HostModeV>, host: Seq<char>) -> bool {
    ms.len() == 0 || exists|i: int| 0 <= i < ms.len() && host_mode_matches(ms[i], host)
}

/// How one raw host pattern is classified: `~`-prefixed text is a regular
/// expression, text containing `*` a wildcard, anything else literal text.
pub open spec fn spec_classify_host(item: Seq<char>) -> HostModeV {
    match spec_regex_str(item) {
        Some(p) => HostModeV::Rx(p),
        None => {
            if seq_has_char(item, '*') {
                HostModeV::Wild(item)
            } else {
                HostModeV::Text(item)
            }
        },
    }
}

/// Whether a raw host pattern is a `~` regex whose anchored form does not
/// compile.
pub open spec fn host_pattern_bad(item: Seq<char>) -> bool {
    match spec_classify_host(item) {
        HostModeV::Rx(p) => !regex_compiles(spec_anchor(p)),
        _ => false,
    }
}

/// Matches the HTTP `Host` header against a list of configured patterns.
#[derive(Debug, Clone)]
pub struct HostMatcher {
    modes: Vec<HostMode>,
}

impl View for HostMatcher {
    type V = Seq<HostModeV>;

    closed spec fn view(&self) -> Seq<HostModeV> {
        Seq::new(self.modes@.len(), |i: int| self.modes@[i]@)
    }
}

impl Default for HostMatcher {
    /// The empty matcher, which matches any host.
    fn default() -> (r: HostMatcher)
        ensures
            r@.len() == 0,
    {
        HostMatcher { modes: Vec::new() }
    }
}

impl HostMatcher {
    /// Classifies each pattern; fails exactly when a `~` pattern is not a
    /// valid regular expression.
    pub fn new(items: Vec<String>) -> (r: Result<HostMatcher, String>)
        ensures
            match r {
                Ok(m) => m@.len() == items@.len() && (forall|i: int|
                    0 <= i < items@.len() ==> m@[i] == spec_classify_host(#[trigger] items@[i]@))
                    && (forall|i: int|
                    0 <= i < items@.len() ==> !host_pattern_bad(#[trigger] items@[i]@)),
                Err(_) => exists|i: int| 0 <= i < items@.len() && host_pattern_bad(
                    #[trigger] items@[i]@,
                ),
            },
    {
        let mut modes: Vec<HostMode> = Vec::new();
        let n = items.len();
        let mut i: usize = 0;
        while i < n
            invariant
                n == items@.len(),
                i <= n,
                modes@.len() == i,
                forall|j: int|
                    0 <= j < i ==> modes@[j]@ == spec_classify_host(#[trigger] items@[j]@),
                forall|j: int| 0 <= j < i ==> !host_pattern_bad(#[trigger] items@[j]@),
            decreases n - i,
        {
            let item = str_chars(items[i].as_str());
            match get_regex_str(&item) {
                Some(p) => {
                    let anchored = anchor_pattern(&p);
                    let ps = chars_string(&anchored);
                    if !regex_valid(ps.as_str()) {
                        return Err(error_message("Cannot parse `", &p, "` to regular expression"));
                    }
                    modes.push(HostMode::Rx(p));
                },
                Option::None => {
                    if has_char(&item, '*') {
                        modes.push(HostMode::Wild(WildcardMatcher::new(items[i].as_str())));
                    } else {
                        modes.push(HostMode::Text(item));
                    }
                },
            }
            i = i + 1;
        }
        Ok(HostMatcher { modes })
    }

    /// Whether the pattern list is empty.
    pub fn is_empty(&self) -> (r: bool)
        ensures
            r == (self@.len() == 0),
    {
        self.modes.len() == 0
    }

    /// Whether the hostname matches: true for an empty pattern list, else
    /// true exactly when some pattern matches.
    pub fn is_match(&self, host: &str) -> (r: bool)
        ensures
            r == host_list_matches(self@, host@),
    {
        let n = self.modes.len();
        if n == 0 {
            return true;
        }
        let h = str_chars(host);
        let mut i: usize = 0;
        while i < n
            invariant
                n == self.modes@.len(),
                n == self@.len(),
                h@ == host@,
                i <= n,
                forall|j: int| 0 <= j < i ==> !host_mode_matches(self@[j], host@),
                forall|j: int| 0 <= j < n ==> self@[j] == #[trigger] self.modes@[j]@,
            decreases n - i,
        {
            let hit = match &self.modes[i] {
                HostMode::Text(t) => eq_chars(t, &h),
                HostMode::Wild(w) => w.is_match(host),
                HostMode::Rx(p) => {
                    let anchored = anchor_pattern(p);
                    let ps = chars_string(&anchored);
                    match regex_run(ps.as_str(), host) {
                        Some(b) => b,
                        Option::None => false,
                    }
                },
            };
            if hit {
                assert(host_mode_matches(self@[i as int], host@));
                return true;
            }
            i = i + 1;
        }
        false
    }
}

/// `prefix`, then `middle`, then `suffix`, as one message.
pub fn error_message(prefix: &str, middle: &Vec<char>, suffix: &str) -> (r: String)
    ensures
        r@ == prefix@ + middle@ + suffix@,
{
    let p = str_chars(prefix);
    let s = str_chars(suffix);
    let a = concat_chars(&p, middle);
    let b = concat_chars(&a, &s);
    chars_string(&b)
}

// ---------------------------------------------------------------------------
// Location matching.
// ---------------------------------------------------------------------------

/// One location pattern, classified at construction.
#[derive(Debug, Clone)]
pub enum LocMode {
    Glob(Vec<char>),
    Rx(Vec<char>),
    Start(Vec<char>),
    End(Vec<char>),
}

/// The mathematical shape of one classified location pattern.
pub enum LocModeV {
    Glob(Seq<char>),
    Rx(Seq<char>),
    Start(Seq<char>),
    End(Seq<char>),
}

impl View for LocMode {
    type V = LocModeV;

    open spec fn view(&self) -> LocModeV {
        match self {
            LocMode::Glob(g) => LocModeV::Glob(g@),
            LocMode::Rx(p) => LocModeV::Rx(p@),
            LocMode::Start(s) => LocModeV::Start(s@),
            LocMode::End(s) => LocModeV::End(s@),
        }
    }
}

/// Whether one classified location pattern matches a request path.
pub open spec fn location_mode_matches(m: LocModeV, path: Seq<char>) -> bool {
    match m {
        LocModeV::Glob(g) => glob_usable(g) && glob_matches(g, path),
        LocModeV::Rx(p) => regex_compiles(p) && regex_matches(p, path),
        LocModeV::Start(s) => starts_with(path, s),
        LocModeV::End(s) => ends_with(path, s),
    }
}

/// Matches the decoded request path against one configured pattern.
#[derive(Debug, Clone)]
pub struct LocationMatcher {
    mode: LocMode,
}

impl View for LocationMatcher {
    type V = LocModeV;

    closed spec fn view(&self) -> LocModeV {
        self.mode@
    }
}

impl LocationMatcher {
    /// A glob pattern; fails exactly when the glob is over the length bound
    /// or does not compile.
    pub fn glob(location: &str) -> (r: Result<Self, String>)
        ensures
            match r {
                Ok(m) => m@ == LocModeV::Glob(location@) && glob_usable(location@),
                Err(_) => !glob_usable(location@),
            },
    {
        let l = str_chars(location);
        if l.len() < GLOB_PATTERN_MAX && glob_valid(location) {
            Ok(LocationMatcher { mode: LocMode::Glob(l) })
        } else {
            Err(error_message("Cannot parse `", &l, "` to glob matcher"))
        }
    }

    /// A regular expression; fails exactly when it does not compile.
    pub fn regex(location: &str) -> (r: Result<Self, String>)
        ensures
            match r {
                Ok(m) => m@ == LocModeV::Rx(location@) && regex_compiles(location@),
                Err(_) => !regex_compiles(location@),
            },
    {
        let l = str_chars(location);
        if regex_valid(location) {
            Ok(LocationMatcher { mode: LocMode::Rx(l) })
        } else {
            Err(error_message("Cannot parse `", &l, "` to regular expression"))
        }
    }

    /// A prefix pattern: matches paths that start with `location`.
    pub fn start(location: &str) -> (r: Self)
        ensures
            r@ == LocModeV::Start(location@),
    {
        LocationMatcher { mode: LocMode::Start(str_chars(location)) }
    }

    /// A suffix pattern: matches paths that end with `location`.
    pub fn end(location: &str) -> (r: Self)
        ensures
            r@ == LocModeV::End(location@),
    {
        LocationMatcher { mode: LocMode::End(str_chars(location)) }
    }

    /// Classifies by the leading sigil: `~` regex (sigil stripped, trimmed),
    /// `^` prefix, `$` suffix, anything else a glob.
    pub fn new(location: &str) -> (r: Result<Self, String>)
        ensures
            match r {
                Ok(m) => {
                    let l = location@;
                    if l.len() > 0 && l[0] == '~' {
                        m@ == LocModeV::Rx(spec_trim(l.subrange(1, l.len() as int)))
                            && regex_compiles(spec_trim(l.subrange(1, l.len() as int)))
                    } else if l.len() > 0 && l[0] == '^' {
                        m@ == LocModeV::Start(l.subrange(1, l.len() as int))
                    } else if l.len() > 0 && l[0] == '$' {
                        m@ == LocModeV::End(l.subrange(1, l.len() as int))
                    } else {
                        m@ == LocModeV::Glob(l) && glob_usable(l)
                    }
                },
                Err(_) => {
                    let l = location@;
                    if l.len() > 0 && l[0] == '~' {
                        !regex_compiles(spec_trim(l.subrange(1, l.len() as int)))
                    } else if l.len() > 0 && (l[0] == '^' || l[0] == '$') {
                        false
                    } else {
                        !glob_usable(l)
                    }
                },
            },
    {
        let l = str_chars(location);
        if l.len() > 0 && l[0] == '~' {
            let rest = slice_chars(&l, 1, l.len());
            let trimmed = trim_chars(&rest);
            let ts = chars_string(&trimmed);
            if regex_valid(ts.as_str()) {
                Ok(LocationMatcher { mode: LocMode::Rx(trimmed) })
            } else {
                Err(error_message("Cannot parse `", &trimmed, "` to regular expression"))
            }
        } else if l.len() > 0 && l[0] == '^' {
            let rest = slice_chars(&l, 1, l.len());
            Ok(LocationMatcher { mode: LocMode::Start(rest) })
        } else if l.len() > 0 && l[0] == '$' {
            let rest = slice_chars(&l, 1, l.len());
            Ok(LocationMatcher { mode: LocMode::End(rest) })
        } else {
            if l.len() < GLOB_PATTERN_MAX && glob_valid(location) {
                Ok(LocationMatcher { mode: LocMode::Glob(l) })
            } else {
                Err(error_message("Cannot parse `", &l, "` to glob matcher"))
            }
        }
    }

    /// Whether the pattern matches the request path.
    pub fn is_match(&self, path: &str) -> (r: bool)
        ensures
            r == location_mode_matches(self@, path@),
    {
        let p = str_chars(path);
        match &self.mode {
            LocMode::Glob(g) => {
                if g.len() >= GLOB_PATTERN_MAX {
                    return false;
                }
                let gs = chars_string(g);
                match glob_run(gs.as_str(), path) {
                    Some(b) => b,
                    Option::None => false,
                }
            },
            LocMode::Rx(rx) => {
                let rs = chars_string(rx);
                match regex_run(rs.as_str(), path) {
                    Some(b) => b,
                    Option::None => false,
                }
            },
            LocMode::Start(s) => starts_with_exec(&p, s),
            LocMode::End(s) => ends_with_exec(&p, s),
        }
    }
}

// ---------------------------------------------------------------------------
// IP matching.
// ---------------------------------------------------------------------------

/// Whether `s` is one decimal octet, `0` to `255`, without leading zeros.
pub open spec fn is_octet(s: Seq<char>) -> bool {
    1 <= s.len() <= 3 && all_digits(s) && spec_dec_value(s) <= 255 && (s.len() > 1 ==> s[0]
        != '0')
}

/// Whether `s` is dotted-decimal IPv4 text: four octets separated by `.`.
pub open spec fn spec_is_ipv4(s: Seq<char>) -> bool {
    let d1 = crate::wildcard::first_index_from(s, 0, '.');
    let d2 = crate::wildcard::first_index_from(s, d1 + 1, '.');
    let d3 = crate::wildcard::first_index_from(s, d2 + 1, '.');
    d1 < s.len() && d2 < s.len() && d3 < s.len() && crate::wildcard::first_index_from(
        s,
        d3 + 1,
        '.',
    ) == s.len() && is_octet(s.subrange(0, d1)) && is_octet(s.subrange(d1 + 1, d2)) && is_octet(
        s.subrange(d2 + 1, d3),
    ) && is_octet(s.subrange(d3 + 1, s.len() as int))
}

fn check_octet(s: &Vec<char>) -> (r: bool)
    ensures
        r == is_octet(s@),
{
    if s.len() < 1 || s.len() > 3 {
        return false;
    }
    if s.len() > 1 && s[0] == '0' {
        return false;
    }
    match parse_small_decimal(s) {
        Some(v) => v <= 255,
        Option::None => false,
    }
}

/// Whether `s` is dotted-decimal IPv4 text, tested directly.
pub fn is_ipv4_text(s: &Vec<char>) -> (r: bool)
    ensures
        r == spec_is_ipv4(s@),
{
    proof {
        crate::wildcard::lemma_first_index_from(s@, 0, '.');
    }
    let n = s.len();
    let d1 = match find_char_from(s, '.', 0) {
        Some(i) => i,
        Option::None => {
            assert(crate::wildcard::first_index_from(s@, 0, '.') == s@.len());
            return false;
        },
    };
    assert(d1 == crate::wildcard::first_index_from(s@, 0, '.'));
    proof {
        crate::wildcard::lemma_first_index_from(s@, d1 + 1, '.');
    }
    let d2 = match find_char_from(s, '.', d1 + 1) {
        Some(i) => i,
        Option::None => {
            assert(crate::wildcard::first_index_from(s@, d1 + 1, '.') == s@.len());
            return false;
        },
    };
    assert(d2 == crate::wildcard::first_index_from(s@, d1 + 1, '.'));
    proof {
        crate::wildcard::lemma_first_index_from(s@, d2 + 1, '.');
    }
    let d3 = match find_char_from(s, '.', d2 + 1) {
        Some(i) => i,
        Option::None => {
            assert(crate::wildcard::first_index_from(s@, d2 + 1, '.') == s@.len());
            return false;
        },
    };
    assert(d3 == crate::wildcard::first_index_from(s@, d2 + 1, '.'));
    proof {
        crate::wildcard::lemma_first_index_from(s@, d3 + 1, '.');
    }
    match find_char_from(s, '.', d3 + 1) {
        Some(_) => {
            return false;
        },
        Option::None => {
            assert(crate::wildcard::first_index_from(s@, d3 + 1, '.') == s@.len());
        },
    };
    let o1 = slice_chars(s, 0, d1);
    let o2 = slice_chars(s, d1 + 1, d2);
    let o3 = slice_chars(s, d2 + 1, d3);
    let o4 = slice_chars(s, d3 + 1, n);
    check_octet(&o1) && check_octet(&o2) && check_octet(&o3) && check_octet(&o4)
}

/// One IP pattern: exact dotted-decimal text, or a wildcard over it.
#[derive(Debug, Clone)]
pub enum IpMode {
    Exact(Vec<char>),
    Wild(WildcardMatcher),
}

/// The mathematical shape of one IP pattern.
pub enum IpModeV {
    Exact(Seq<char>),
    Wild(Seq<char>),
}

impl View for IpMode {
    type V = IpModeV;

    open spec fn view(&self) -> IpModeV {
        match self {
            IpMode::Exact(t) => IpModeV::Exact(t@),
            IpMode::Wild(w) => IpModeV::Wild(w@),
        }
    }
}

/// Whether one IP pattern matches the dotted-decimal text of an address.
pub open spec fn ip_mode_matches(m: IpModeV, ip: Seq<char>) -> bool {
    match m {
        IpModeV::Exact(t) => t == ip,
        IpModeV::Wild(w) => wildcard_matches(w, ip),
    }
}

/// How one raw IP pattern is classified: text containing `*` is a wildcard,
/// anything else must be exact dotted-decimal IPv4 text.
pub open spec fn spec_classify_ip(item: Seq<char>) -> IpModeV {
    if seq_has_char(item, '*') {
        IpModeV::Wild(item)
    } else {
        IpModeV::Exact(item)
    }
}

/// Whether a request from `ip` passes: a non-empty allow-list is exclusive;
/// otherwise the deny-list excludes.
pub open spec fn spec_ip_pass(allow: Seq<IpModeV>, deny: Seq<IpModeV>, ip: Seq<char>) -> bool {
    if allow.len() > 0 {
        exists|i: int| 0 <= i < allow.len() && ip_mode_matches(allow[i], ip)
    } else {
        forall|i: int| 0 <= i < deny.len() ==> !ip_mode_matches(deny[i], ip)
    }
}

/// Allow- and deny-lists of exact or wildcard IP patterns.
#[derive(Debug, Clone)]
pub struct IpMatcher {
    allow: Vec<IpMode>,
    deny: Vec<IpMode>,
}

impl IpMatcher {
    pub closed spec fn allow_view(&self) -> Seq<IpModeV> {
        Seq::new(self.allow@.len(), |i: int| self.allow@[i]@)
    }

    pub closed spec fn deny_view(&self) -> Seq<IpModeV> {
        Seq::new(self.deny@.len(), |i: int| self.deny@[i]@)
    }

    /// Classifies the patterns of both lists; fails exactly when a pattern
    /// without `*` is not dotted-decimal IPv4 text.
    pub fn new(allow: Vec<String>, deny: Vec<String>) -> (r: Result<IpMatcher, String>)
        ensures
            match r {
                Ok(m) => {
                    &&& m.allow_view().len() == allow@.len()
                    &&& forall|i: int|
                        0 <= i < allow@.len() ==> m.allow_view()[i] == spec_classify_ip(
                            #[trigger] allow@[i]@,
                        )
                    &&& m.deny_view().len() == deny@.len()
                    &&& forall|i: int|
                        0 <= i < deny@.len() ==> m.deny_view()[i] == spec_classify_ip(
                            #[trigger] deny@[i]@,
                        )
                    &&& forall|i: int|
                        0 <= i < allow@.len() ==> (seq_has_char(#[trigger] allow@[i]@, '*')
                            || spec_is_ipv4(allow@[i]@))
                    &&& forall|i: int|
                        0 <= i < deny@.len() ==> (seq_has_char(#[trigger] deny@[i]@, '*')
                            || spec_is_ipv4(deny@[i]@))
                },
                Err(_) => (exists|i: int|
                    0 <= i < allow@.len() && !seq_has_char(#[trigger] allow@[i]@, '*')
                        && !spec_is_ipv4(allow@[i]@)) || (exists|i: int|
                    0 <= i < deny@.len() && !seq_has_char(#[trigger] deny@[i]@, '*')
                        && !spec_is_ipv4(deny@[i]@)),
            },
    {
        let a = Self::build_list(allow);
        let allow_modes = match a {
            Ok(v) => v,
            Err(e) => {
                return Err(e);
            },
        };
        let d = Self::build_list(deny);
        let deny_modes = match d {
            Ok(v) => v,
            Err(e) => {
                return Err(e);
            },
        };
        Ok(IpMatcher { allow: allow_modes, deny: deny_modes })
    }

    fn build_list(items: Vec<String>) -> (r: Result<Vec<IpMode>, String>)
        ensures
            match r {
                Ok(v) => v@.len() == items@.len() && (forall|i: int|
                    0 <= i < items@.len() ==> v@[i]@ == spec_classify_ip(#[trigger] items@[i]@))
                    && (forall|i: int|
                    0 <= i < items@.len() ==> (seq_has_char(#[trigger] items@[i]@, '*')
                        || spec_is_ipv4(items@[i]@))),
                Err(_) => exists|i: int|
                    0 <= i < items@.len() && !seq_has_char(#[trigger] items@[i]@, '*')
                        && !spec_is_ipv4(items@[i]@),
            },
    {
        let mut out: Vec<IpMode> = Vec::new();
        let n = items.len();
        let mut i: usize = 0;
        while i < n
            invariant
                n == items@.len(),
                i <= n,
                out@.len() == i,
                forall|j: int| 0 <= j < i ==> out@[j]@ == spec_classify_ip(#[trigger] items@[j]@),
                forall|j: int|
                    0 <= j < i ==> (seq_has_char(#[trigger] items@[j]@, '*') || spec_is_ipv4(
                        items@[j]@,
                    )),
            decreases n - i,
        {
            let item = str_chars(items[i].as_str());
            if has_char(&item, '*') {
                out.push(IpMode::Wild(WildcardMatcher::new(items[i].as_str())));
            } else if is_ipv4_text(&item) {
                out.push(IpMode::Exact(item));
            } else {
                return Err(error_message("Cannot parse `", &item, "` to IP addr"));
            }
            i = i + 1;
        }
        Ok(out)
    }

    /// Whether a request from `ip` (as dotted-decimal text) passes.
    pub fn is_pass(&self, ip: &str) -> (r: bool)
        ensures
            r == spec_ip_pass(self.allow_view(), self.deny_view(), ip@),
    {
        let ipc = str_chars(ip);
        if self.allow.len() > 0 {
            let n = self.allow.len();
            let mut i: usize = 0;
            while i < n
                invariant
                    n == self.allow@.len(),
                    ipc@ == ip@,
                    i <= n,
                    forall|j: int| 0 <= j < i ==> !ip_mode_matches(self.allow_view()[j], ip@),
                decreases n - i,
            {
                let hit = match &self.allow[i] {
                    IpMode::Exact(t) => eq_chars(t, &ipc),
                    IpMode::Wild(w) => w.is_match(ip),
                };
                if hit {
                    assert(ip_mode_matches(self.allow_view()[i as int], ip@));
                    return true;
                }
                i = i + 1;
            }
            return false;
        }
        let n = self.deny.len();
        let mut i: usize = 0;
        while i < n
            invariant
                n == self.deny@.len(),
                ipc@ == ip@,
                self.allow@.len() == 0,
                i <= n,
                forall|j: int| 0 <= j < i ==> !ip_mode_matches(self.deny_view()[j], ip@),
            decreases n - i,
        {
            let hit = match &self.deny[i] {
                IpMode::Exact(t) => eq_chars(t, &ipc),
                IpMode::Wild(w) => w.is_match(ip),
            };
            if hit {
                assert(ip_mode_matches(self.deny_view()[i as int], ip@));
                return false;
            }
            i = i + 1;
        }
        true
    }
}

} // verus!
