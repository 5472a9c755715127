use crate::conf::{
    spec_block_get, Block, BlockV, ConfError, Directive, DirectiveV, ValueV, ws_tokens,
};
use crate::matcher::{spec_is_ipv4, HostMatcher, IpMatcher};
use crate::options::{
    valid_header_value, Auth, Directory, Headers, HeaderField, Index, Logger, Method, Proxy,
    Rewrite, RewriteStatus, StatusEntry, StatusPage, TLSContent,
};
use crate::compress::{Compress, ContentEncoding};
use crate::setting::Setting;
use crate::util::{
    all_digits, eq_chars, spec_dec_value, parse_small_decimal, slice_chars, str_chars,
    chars_string, spec_join, views,
};
use crate::var::{replace_any, replace_records, spec_has_class, TokenClass, Var};
use vstd::prelude::*;

verus! {

// ---------------------------------------------------------------------------
// Common option states.
// ---------------------------------------------------------------------------

/// An option is absent when its directive is missing or an empty block.
pub open spec fn opt_missing(b: BlockV, key: Seq<char>) -> bool {
    match spec_block_get(b.directives, key) {
        None => true,
        Some(d) => match d.value {
            ValueV::Block(bb) => bb.directives.len() == 0,
            _ => false,
        },
    }
}

/// An option is disabled when its directive is the boolean `off`.
pub open spec fn opt_off(b: BlockV, key: Seq<char>) -> bool {
    match spec_block_get(b.directives, key) {
        Some(d) => d.value == ValueV::Boolean(false),
        None => false,
    }
}

fn block_missing(block: &Block, key: &str) -> (r: bool)
    ensures
        r == opt_missing(block@, key@),
{
    match block.get(key) {
        Some(d) => match d.as_block() {
            Some(bb) => bb.directives().len() == 0,
            Option::None => false,
        },
        Option::None => true,
    }
}

fn block_off(block: &Block, key: &str) -> (r: bool)
    ensures
        r == opt_off(block@, key@),
{
    match block.get(key) {
        Some(d) => match d.as_bool() {
            Some(b) => !b,
            Option::None => false,
        },
        Option::None => false,
    }
}

/// How a classified `Var` relates to its raw text.
pub open spec fn var_rel(v: Var<String>, t: Seq<char>) -> bool {
    match v {
        Var::Template(s, rep) => s@ == t && replace_records(rep, t) && replace_any(rep),
        Var::Literal(x) => x@ == t && (forall|cls: TokenClass| !spec_has_class(t, cls)),
    }
}

/// The text of a directive expected to hold one.
pub open spec fn text_of(b: BlockV, key: Seq<char>) -> Option<Seq<char>> {
    match spec_block_get(b.directives, key) {
        Some(d) => match d.value {
            ValueV::Text(t) => Some(t),
            _ => None,
        },
        None => None,
    }
}

/// The whitespace-separated items of a directive's text.
pub open spec fn items_of(b: BlockV, key: Seq<char>) -> Option<Seq<Seq<char>>> {
    match text_of(b, key) {
        Some(t) => Some(ws_tokens(t)),
        None => None,
    }
}

fn directive_text<'a>(block: &'a Block, key: &str) -> (r: Option<&'a str>)
    ensures
        match r {
            Some(s) => text_of(block@, key@) == Some(s@),
            None => text_of(block@, key@) is None,
        },
{
    match block.get(key) {
        Some(d) => d.as_source_str(),
        Option::None => Option::None,
    }
}

fn directive_items(block: &Block, key: &str) -> (r: Option<Vec<Vec<char>>>)
    ensures
        match r {
            Some(v) => items_of(block@, key@) == Some(views(v@)),
            None => items_of(block@, key@) is None,
        },
{
    match directive_text(block, key) {
        Some(s) => {
            let c = str_chars(s);
            Some(crate::conf::ws_split(&c))
        },
        Option::None => Option::None,
    }
}

fn conf_error(line: u64, prefix: &str, middle: &Vec<char>, suffix: &str) -> (r: ConfError)
    ensures
        r.line == line,
{
    ConfError { line, message: crate::matcher::error_message(prefix, middle, suffix) }
}

// ---------------------------------------------------------------------------
// Leaf option parsers.
// ---------------------------------------------------------------------------

/// How the parsed `echo` option relates to the block: absent, off, or the
/// directive's text classified as a literal or template; anything but plain
/// text is an error.
pub open spec fn echo_rel(r: Result<Setting<Var<String>>, ConfError>, b: BlockV) -> bool {
    if opt_missing(b, "echo"@) {
        r == Result::<Setting<Var<String>>, ConfError>::Ok(Setting::NotSet)
    } else if opt_off(b, "echo"@) {
        r == Result::<Setting<Var<String>>, ConfError>::Ok(Setting::Off)
    } else {
        match text_of(b, "echo"@) {
            Some(t) => r matches Ok(Setting::Value(v)) && var_rel(v, t),
            None => r is Err,
        }
    }
}

/// Reads the `echo` option.
pub fn parse_echo(block: &Block) -> (r: Result<Setting<Var<String>>, ConfError>)
    ensures
        echo_rel(r, block@),
{
    if block_missing(block, "echo") {
        return Ok(Setting::NotSet);
    }
    if block_off(block, "echo") {
        return Ok(Setting::Off);
    }
    match directive_text(block, "echo") {
        Some(t) => Ok(Setting::Value(Var::from(t))),
        Option::None => {
            let k = str_chars("echo");
            Err(conf_error(block.line(), "Cannot convert `", &k, "` to 'string'"))
        },
    }
}

/// How the parsed `file` option relates to the block: the directive's text
/// joined under `root`.
pub open spec fn file_rel(
    r: Result<Setting<String>, ConfError>,
    b: BlockV,
    root: Seq<char>,
) -> bool {
    if opt_missing(b, "file"@) {
        r == Result::<Setting<String>, ConfError>::Ok(Setting::NotSet)
    } else if opt_off(b, "file"@) {
        r == Result::<Setting<String>, ConfError>::Ok(Setting::Off)
    } else {
        match text_of(b, "file"@) {
            Some(t) => r matches Ok(Setting::Value(p)) && p@ == spec_join(t, root),
            None => r is Err,
        }
    }
}

/// Reads the `file` option, resolving it under `root`.
pub fn parse_file(block: &Block, root: &str) -> (r: Result<Setting<String>, ConfError>)
    ensures
        file_rel(r, block@, root@),
{
    if block_missing(block, "file") {
        return Ok(Setting::NotSet);
    }
    if block_off(block, "file") {
        return Ok(Setting::Off);
    }
    match directive_text(block, "file") {
        Some(t) => Ok(Setting::Value(crate::util::absolute_path(t, root))),
        Option::None => {
            let k = str_chars("file");
            Err(conf_error(block.line(), "Cannot convert `", &k, "` to 'string'"))
        },
    }
}

/// How the parsed `root` option relates to the block.
pub open spec fn root_rel(
    r: Result<Option<String>, ConfError>,
    b: BlockV,
    config_dir: Seq<char>,
) -> bool {
    match spec_block_get(b.directives, "root"@) {
        None => r == Result::<Option<String>, ConfError>::Ok(Option::<String>::None),
        Some(d) => match d.value {
            ValueV::Text(t) => r matches Ok(Some(p)) && p@ == spec_join(t, config_dir),
            _ => r is Err,
        },
    }
}

/// Reads the `root` option, resolving it under the configuration directory.
pub fn parse_root(block: &Block, config_dir: &str) -> (r: Result<Option<String>, ConfError>)
    ensures
        root_rel(r, block@, config_dir@),
{
    match block.get("root") {
        Option::None => Ok(Option::None),
        Some(d) => match d.as_source_str() {
            Some(t) => Ok(Some(crate::util::absolute_path(t, config_dir))),
            Option::None => {
                let k = str_chars("root");
                Err(conf_error(d.line(), "Cannot convert `", &k, "` to 'string'"))
            },
        },
    }
}

/// How the parsed `break` flag relates to the block: set exactly when the
/// directive is the boolean `on`.
pub open spec fn break_rel(r: bool, b: BlockV) -> bool {
    r == (match spec_block_get(b.directives, "break"@) {
        Some(d) => d.value == ValueV::Boolean(true),
        None => false,
    })
}

/// Reads the `break` flag of a location.
pub fn parse_break(block: &Block) -> (r: bool)
    ensures
        break_rel(r, block@),
{
    match block.get("break") {
        Some(d) => match d.as_bool() {
            Some(b) => b,
            Option::None => false,
        },
        Option::None => false,
    }
}

/// How the parsed `index` option relates to the block: at a site the
/// default `index.html` stands in for an absent directive; at a location an
/// absent directive stays absent.
pub open spec fn index_rel(
    r: Result<Setting<Index>, ConfError>,
    b: BlockV,
    set_default: bool,
) -> bool {
    if opt_off(b, "index"@) {
        r == Result::<Setting<Index>, ConfError>::Ok(Setting::Off)
    } else if opt_missing(b, "index"@) {
        if set_default {
            r matches Ok(Setting::Value(ix)) && ix.files@.len() == 1 && ix.files@[0]@
                == "index.html"@
        } else {
            r == Result::<Setting<Index>, ConfError>::Ok(Setting::NotSet)
        }
    } else {
        match items_of(b, "index"@) {
            Some(items) => r matches Ok(Setting::Value(ix)) && ix.files@.len() == items.len()
                && (forall|i: int| 0 <= i < items.len() ==> #[trigger] ix.files@[i]@ == items[i]),
            None => r is Err,
        }
    }
}

/// Reads the `index` option.
pub fn parse_index(block: &Block, set_default: bool) -> (r: Result<Setting<Index>, ConfError>)
    ensures
        index_rel(r, block@, set_default),
{
    if block_off(block, "index") {
        return Ok(Setting::Off);
    }
    if block_missing(block, "index") {
        if set_default {
            let mut files: Vec<String> = Vec::new();
            let d = str_chars("index.html");
            files.push(chars_string(&d));
            return Ok(Setting::Value(Index::new(files)));
        }
        return Ok(Setting::NotSet);
    }
    match directive_items(block, "index") {
        Some(items) => {
            let files = strings_of(&items);
            Ok(Setting::Value(Index::new(files)))
        },
        Option::None => {
            let k = str_chars("index");
            Err(conf_error(block.line(), "Cannot convert `", &k, "` to 'string'"))
        },
    }
}

/// The items as strings, in order.
fn strings_of(items: &Vec<Vec<char>>) -> (r: Vec<String>)
    ensures
        r@.len() == items@.len(),
        forall|i: int| 0 <= i < r@.len() ==> #[trigger] r@[i]@ == views(items@)[i],
{
    proof {
        crate::util::lemma_views_index(items@);
    }
    let n = items.len();
    let mut out: Vec<String> = Vec::new();
    let mut i: usize = 0;
    while i < n
        invariant
            n == items@.len(),
            out@.len() == i,
            i <= n,
            forall|k: int| 0 <= k < n ==> views(items@)[k] == #[trigger] items@[k]@,
            forall|k: int| 0 <= k < i ==> #[trigger] out@[k]@ == items@[k]@,
        decreases n - i,
    {
        out.push(chars_string(&items[i]));
        i = i + 1;
    }
    out
}

/// How the parsed `method` option relates to the block: absent at a site
/// means the default `GET`/`HEAD` list.
pub open spec fn method_rel(
    r: Result<Setting<Method>, ConfError>,
    b: BlockV,
    set_default: bool,
) -> bool {
    if opt_off(b, "method"@) {
        r == Result::<Setting<Method>, ConfError>::Ok(Setting::Off)
    } else if opt_missing(b, "method"@) {
        if set_default {
            r matches Ok(Setting::Value(m)) && m.allow@.len() == 2 && m.allow@[0]@ == "GET"@
                && m.allow@[1]@ == "HEAD"@
        } else {
            r == Result::<Setting<Method>, ConfError>::Ok(Setting::NotSet)
        }
    } else {
        match items_of(b, "method"@) {
            Some(items) => r matches Ok(Setting::Value(m)) && m.allow@.len() == items.len() && (
            forall|i: int| 0 <= i < items.len() ==> #[trigger] m.allow@[i]@ == items[i]),
            None => r is Err,
        }
    }
}

/// Reads the `method` option.
pub fn parse_method(block: &Block, set_default: bool) -> (r: Result<Setting<Method>, ConfError>)
    ensures
        method_rel(r, block@, set_default),
{
    if block_off(block, "method") {
        return Ok(Setting::Off);
    }
    if block_missing(block, "method") {
        if set_default {
            let mut allow: Vec<String> = Vec::new();
            let g = str_chars("GET");
            allow.push(chars_string(&g));
            let h = str_chars("HEAD");
            allow.push(chars_string(&h));
            return Ok(Setting::Value(Method::new(allow)));
        }
        return Ok(Setting::NotSet);
    }
    match directive_items(block, "method") {
        Some(items) => {
            let allow = strings_of(&items);
            Ok(Setting::Value(Method::new(allow)))
        },
        Option::None => {
            let k = str_chars("method");
            Err(conf_error(block.line(), "Cannot convert `", &k, "` to 'string'"))
        },
    }
}

/// How the parsed `auth` option relates to the block: its block must hold
/// `user` and `password` text, which become the expected credential line.
pub open spec fn auth_rel(r: Result<Setting<Auth>, ConfError>, b: BlockV) -> bool {
    if opt_missing(b, "auth"@) {
        r == Result::<Setting<Auth>, ConfError>::Ok(Setting::NotSet)
    } else if opt_off(b, "auth"@) {
        r == Result::<Setting<Auth>, ConfError>::Ok(Setting::Off)
    } else {
        match spec_block_get(b.directives, "auth"@) {
            Some(d) => match d.value {
                ValueV::Block(ab) => {
                    match (text_of(ab, "user"@), text_of(ab, "password"@)) {
                        (Some(u), Some(p)) => r matches Ok(Setting::Value(a)) && a.credential@
                            == crate::options::spec_basic_credential(u, p),
                        _ => r is Err,
                    }
                },
                _ => r is Err,
            },
            None => r is Err,
        }
    }
}

/// Reads the `auth` option.
pub fn parse_auth(block: &Block) -> (r: Result<Setting<Auth>, ConfError>)
    ensures
        auth_rel(r, block@),
{
    if block_missing(block, "auth") {
        return Ok(Setting::NotSet);
    }
    if block_off(block, "auth") {
        return Ok(Setting::Off);
    }
    let d = match block.get("auth") {
        Some(d) => d,
        Option::None => {
            let k = str_chars("auth");
            return Err(conf_error(block.line(), "Cannot convert `", &k, "` to 'block'"));
        },
    };
    let ab = match d.as_block() {
        Some(ab) => ab,
        Option::None => {
            let k = str_chars("auth");
            return Err(conf_error(d.line(), "Cannot convert `", &k, "` to 'block'"));
        },
    };
    let user = match directive_text(ab, "user") {
        Some(u) => u,
        Option::None => {
            let k = str_chars("user");
            return Err(conf_error(ab.line(), "Missing directive `", &k, "`"));
        },
    };
    let password = match directive_text(ab, "password") {
        Some(p) => p,
        Option::None => {
            let k = str_chars("password");
            return Err(conf_error(ab.line(), "Missing directive `", &k, "`"));
        },
    };
    Ok(Setting::Value(Auth::basic(user, password)))
}


// ---------------------------------------------------------------------------
// Headers, rewrite, compress, directory, ip, try, error, log.
// ---------------------------------------------------------------------------

/// The lowercase form of an ASCII letter; other characters are unchanged.
pub open spec fn lower_char(c: char) -> char {
    if 'A' <= c <= 'Z' {
        ((c as u8) + 32) as char
    } else {
        c
    }
}

/// The lowercase form of a name.
pub open spec fn spec_lower(s: Seq<char>) -> Seq<char> {
    Seq::new(s.len(), |i: int| lower_char(s[i]))
}

/// A character accepted in an HTTP header name, lowercase.
pub open spec fn is_hname_char(c: char) -> bool {
    ('a' <= c <= 'z') || ('0' <= c <= '9') || c == '!' || c == '#' || c == '$' || c == '%' || c
        == '&' || c == '\'' || c == '*' || c == '+' || c == '-' || c == '.' || c == '^' || c == '_'
        || c == '`' || c == '|' || c == '~'
}

/// A non-empty lowercase HTTP header name.
pub open spec fn valid_header_name(s: Seq<char>) -> bool {
    s.len() > 0 && forall|i: int| 0 <= i < s.len() ==> is_hname_char(#[trigger] s[i])
}

/// Lowercases a name.
pub fn lower_chars(s: &Vec<char>) -> (r: Vec<char>)
    ensures
        r@ == spec_lower(s@),
{
    let n = s.len();
    let mut out: Vec<char> = Vec::new();
    let mut i: usize = 0;
    while i < n
        invariant
            n == s@.len(),
            out@.len() == i,
            i <= n,
            forall|j: int| 0 <= j < i ==> #[trigger] out@[j] == lower_char(s@[j]),
        decreases n - i,
    {
        let c = s[i];
        if 'A' <= c && c <= 'Z' {
            let b = #[verifier::truncate] (c as u8);
            out.push((b + 32) as char);
        } else {
            out.push(c);
        }
        i = i + 1;
    }
    proof {
        assert(out@ =~= spec_lower(s@));
    }
    out
}

fn check_header_name(s: &Vec<char>) -> (r: bool)
    ensures
        r == valid_header_name(s@),
{
    if s.len() == 0 {
        return false;
    }
    let n = s.len();
    let mut i: usize = 0;
    while i < n
        invariant
            n == s@.len(),
            i <= n,
            forall|j: int| 0 <= j < i ==> is_hname_char(#[trigger] s@[j]),
        decreases n - i,
    {
        let c = s[i];
        let ok = ('a' <= c && c <= 'z') || ('0' <= c && c <= '9') || c == '!' || c == '#' || c
            == '$' || c == '%' || c == '&' || c == '\'' || c == '*' || c == '+' || c == '-' || c
            == '.' || c == '^' || c == '_' || c == '`' || c == '|' || c == '~';
        if !ok {
            return false;
        }
        i = i + 1;
    }
    true
}

/// Tokens joined by single spaces.
pub open spec fn spec_join_sp(items: Seq<Seq<char>>) -> Seq<char>
    decreases items.len(),
{
    if items.len() == 0 {
        seq![]
    } else if items.len() == 1 {
        items[0]
    } else {
        items[0] + seq![' '] + spec_join_sp(items.drop_first())
    }
}

fn join_sp(items: &Vec<Vec<char>>) -> (r: Vec<char>)
    ensures
        r@ == spec_join_sp(views(items@)),
{
    proof {
        crate::util::lemma_views_index(items@);
    }
    let n = items.len();
    let mut out: Vec<char> = Vec::new();
    let mut i: usize = 0;
    proof {
        assert(views(items@).skip(0) =~= views(items@));
    }
    while i < n
        invariant
            n == items@.len(),
            n == views(items@).len(),
            i <= n,
            forall|k: int| 0 <= k < n ==> views(items@)[k] == #[trigger] items@[k]@,
            i < n ==> spec_join_sp(views(items@)) == out@ + spec_join_sp(
                views(items@).skip(i as int),
            ),
            i == n ==> out@ == spec_join_sp(views(items@)),
        decreases n - i,
    {
        let ghost rest = views(items@).skip(i as int);
        proof {
            assert(rest[0] == views(items@)[i as int]);
            assert(rest.drop_first() =~= views(items@).skip(i + 1));
        }
        out = crate::util::concat_chars(&out, &items[i]);
        if i + 1 < n {
            out.push(' ');
            proof {
                assert(rest.len() > 1);
            }
        } else {
            proof {
                assert(rest.len() == 1);
            }
        }
        i = i + 1;
    }
    proof {
        if n == 0 {
            assert(out@ =~= spec_join_sp(views(items@)));
        }
    }
    out
}

/// How one header directive relates to a built entry: the name lowercased
/// and valid; the value the directive's tokens joined by single spaces,
/// classified; a literal value must be valid header-value text.
pub open spec fn header_entry_rel(f: HeaderField, d: DirectiveV) -> bool {
    match d.value {
        ValueV::Text(t) => {
            &&& f.name@ == spec_lower(d.name)
            &&& valid_header_name(spec_lower(d.name))
            &&& var_rel(f.value, spec_join_sp(ws_tokens(t)))
            &&& (f.value matches Var::Literal(x) ==> valid_header_value(x@))
        },
        _ => false,
    }
}

/// No header entry can satisfy the directive: its value is not text, its
/// name is not a header name, or its literal value is not header-value text.
pub open spec fn no_header_entry(d: DirectiveV) -> bool {
    forall|f: HeaderField| !header_entry_rel(f, d)
}

/// Whether a set `header` block cannot be read.
pub open spec fn bad_headers(b: BlockV) -> bool {
    &&& !opt_missing(b, "header"@)
    &&& !opt_off(b, "header"@)
    &&& (match spec_block_get(b.directives, "header"@) {
        Some(d) => match d.value {
            ValueV::Block(hb) => exists|i: int|
                0 <= i < hb.directives.len() && no_header_entry(#[trigger] hb.directives[i]),
            _ => true,
        },
        None => false,
    })
}

/// How the parsed `header` option relates to the block: absent, off, an
/// error exactly on a malformed map, else the entries in order.
pub open spec fn header_rel(r: Result<Setting<Headers>, ConfError>, b: BlockV) -> bool {
    if opt_missing(b, "header"@) {
        r is Ok && (r matches Ok(s) && s is NotSet)
    } else if opt_off(b, "header"@) {
        r is Ok && (r matches Ok(s) && s is Off)
    } else if bad_headers(b) {
        r is Err
    } else {
        match spec_block_get(b.directives, "header"@) {
            Some(d) => match d.value {
                ValueV::Block(hb) => (r matches Ok(s) && (s matches Setting::Value(h) && h@.len()
                    == hb.directives.len() && (forall|i: int|
                    0 <= i < h@.len() ==> header_entry_rel(#[trigger] h@[i], hb.directives[i])))),
                _ => r is Err,
            },
            None => r is Err,
        }
    }
}

/// Reads the `header` option.
#[verifier::loop_isolation(false)]
pub fn parse_header(block: &Block) -> (r: Result<Setting<Headers>, ConfError>)
    ensures
        header_rel(r, block@),
{
    if block_missing(block, "header") {
        return Ok(Setting::NotSet);
    }
    if block_off(block, "header") {
        return Ok(Setting::Off);
    }
    let d = match block.get("header") {
        Some(d) => d,
        Option::None => {
            let k = str_chars("header");
            return Err(conf_error(block.line(), "Cannot convert `", &k, "` to 'block'"));
        },
    };
    let hb = match d.as_block() {
        Some(hb) => hb,
        Option::None => {
            let k = str_chars("header");
            return Err(conf_error(d.line(), "Cannot convert `", &k, "` to 'block'"));
        },
    };
    let ds = hb.directives();
    let n = ds.len();
    let mut fields: Vec<HeaderField> = Vec::new();
    let mut i: usize = 0;
    proof {
        crate::conf::lemma_directives_view_index_pub(ds@);
    }
    while i < n
        invariant
            n == ds@.len(),
            hb@.directives.len() == n,
            fields@.len() == i,
            i <= n,
            forall|k: int|
                0 <= k < n ==> hb@.directives[k] == crate::conf::directive_view(
                    #[trigger] ds@[k],
                ),
            forall|k: int|
                0 <= k < i ==> header_entry_rel(#[trigger] fields@[k], hb@.directives[k]),
        decreases n - i,
    {
        let t = match ds[i].as_source_str() {
            Some(t) => t,
            Option::None => {
                proof {
                    assert(no_header_entry(hb@.directives[i as int]));
                }
                let k = str_chars(ds[i].name.as_str());
                return Err(conf_error(ds[i].line, "Cannot convert `", &k, "` to 'string'"));
            },
        };
        let nm = str_chars(ds[i].name.as_str());
        let lowered = lower_chars(&nm);
        if !check_header_name(&lowered) {
            proof {
                assert(no_header_entry(hb@.directives[i as int]));
            }
            return Err(conf_error(ds[i].line, "Cannot parse `", &nm, "` to http header name"));
        }
        let tc = str_chars(t);
        let toks = crate::conf::ws_split(&tc);
        let joined = join_sp(&toks);
        let joined_s = chars_string(&joined);
        let value = Var::from(joined_s.as_str());
        match &value {
            Var::Literal(x) => {
                let xc = str_chars(x.as_str());
                if !crate::options::check_header_value(&xc) {
                    proof {
                        assert forall|f: HeaderField|
                            !header_entry_rel(f, hb@.directives[i as int]) by {
                            if header_entry_rel(f, hb@.directives[i as int]) {
                                assert(f.value matches Var::Literal(y) && y@ == joined@);
                            }
                        }
                        assert(no_header_entry(hb@.directives[i as int]));
                    }
                    return Err(conf_error(
                        ds[i].line,
                        "Cannot parse `",
                        &joined,
                        "` to http header value",
                    ));
                }
            },
            Var::Template(_, _) => {},
        }
        let f = HeaderField { name: chars_string(&lowered), value };
        fields.push(f);
        i = i + 1;
    }
    proof {
        assert forall|k: int| 0 <= k < hb@.directives.len() implies !no_header_entry(
            #[trigger] hb@.directives[k],
        ) by {
            assert(header_entry_rel(fields@[k], hb@.directives[k]));
        }
    }
    Ok(Setting::Value(Headers { fields }))
}

/// How the parsed `rewrite` option relates to the block: a plain text value
/// is a target with the default status; a block holds `location` and an
/// optional `status`.
pub open spec fn rewrite_rel(r: Result<Setting<Rewrite>, ConfError>, b: BlockV) -> bool {
    if opt_missing(b, "rewrite"@) {
        r is Ok && (r matches Ok(s) && s is NotSet)
    } else if opt_off(b, "rewrite"@) {
        r is Ok && (r matches Ok(s) && s is Off)
    } else {
        match spec_block_get(b.directives, "rewrite"@) {
            Some(d) => match d.value {
                ValueV::Text(t) => rewrite_value_rel(r, t, RewriteStatus::_302),
                ValueV::Block(rb) => {
                    match text_of(rb, "location"@) {
                        Some(loc) => match spec_block_get(rb.directives, "status"@) {
                            Some(sd) => match sd.value {
                                ValueV::Text(st) => {
                                    if st == "301"@ {
                                        rewrite_value_rel(r, loc, RewriteStatus::_301)
                                    } else if st == "302"@ {
                                        rewrite_value_rel(r, loc, RewriteStatus::_302)
                                    } else {
                                        r is Err
                                    }
                                },
                                _ => r is Err,
                            },
                            None => rewrite_value_rel(r, loc, RewriteStatus::_302),
                        },
                        None => r is Err,
                    }
                },
                _ => r is Err,
            },
            None => r is Err,
        }
    }
}

/// How a parsed rewrite value relates to its target text and status.
pub open spec fn rewrite_value_rel(
    r: Result<Setting<Rewrite>, ConfError>,
    loc: Seq<char>,
    status: RewriteStatus,
) -> bool {
    match r {
        Ok(s) => s matches Setting::Value(rw) && rw.status == status && var_rel(rw.location, loc)
            && (rw.location matches Var::Literal(x) ==> valid_header_value(x@)),
        Err(_) => (forall|cls: TokenClass| !spec_has_class(loc, cls)) && !valid_header_value(loc),
    }
}

/// Reads the `rewrite` option.
pub fn parse_rewrite(block: &Block) -> (r: Result<Setting<Rewrite>, ConfError>)
    ensures
        rewrite_rel(r, block@),
{
    if block_missing(block, "rewrite") {
        return Ok(Setting::NotSet);
    }
    if block_off(block, "rewrite") {
        return Ok(Setting::Off);
    }
    let d = match block.get("rewrite") {
        Some(d) => d,
        Option::None => {
            let k = str_chars("rewrite");
            return Err(conf_error(block.line(), "Cannot convert `", &k, "` to 'string'"));
        },
    };
    if let Some(t) = d.as_source_str() {
        return match Rewrite::new(t, RewriteStatus::_302) {
            Ok(rw) => Ok(Setting::Value(rw)),
            Err(m) => Err(ConfError { line: d.line(), message: m }),
        };
    }
    let rb = match d.as_block() {
        Some(rb) => rb,
        Option::None => {
            let k = str_chars("rewrite");
            return Err(conf_error(d.line(), "Cannot convert `", &k, "` to 'block'"));
        },
    };
    let loc = match directive_text(rb, "location") {
        Some(l) => l,
        Option::None => {
            let k = str_chars("location");
            return Err(conf_error(rb.line(), "Missing directive `", &k, "`"));
        },
    };
    let status = match rb.get("status") {
        Some(sd) => match sd.as_source_str() {
            Some(st) => match RewriteStatus::from_str(st) {
                Ok(v) => v,
                Err(m) => {
                    return Err(ConfError { line: sd.line(), message: m });
                },
            },
            Option::None => {
                let k = str_chars("status");
                return Err(conf_error(sd.line(), "Cannot convert `", &k, "` to 'string'"));
            },
        },
        Option::None => RewriteStatus::_302,
    };
    proof {
        reveal_strlit("301");
        reveal_strlit("302");
        assert("301"@[2] == '1' && "302"@[2] == '2');
    }
    match Rewrite::new(loc, status) {
        Ok(rw) => Ok(Setting::Value(rw)),
        Err(m) => Err(ConfError { line: rb.line(), message: m }),
    }
}


// ---------------------------------------------------------------------------
// Compress, directory, ip, try, error, log.
// ---------------------------------------------------------------------------

/// Whether `time::util::validate_format_string` accepts the pattern.
pub uninterp spec fn strftime_ok(s: Seq<char>) -> bool;

/// Relies on `time::util::validate_format_string`: whether a strftime-like
/// pattern is well-formed, a function of the pattern alone.
#[verifier::external_body]
fn check_strftime(s: &str) -> (r: bool)
    ensures
        r == strftime_ok(s@),
{
    time::util::validate_format_string(s).is_ok()
}

/// The compression level a name stands for.
pub open spec fn spec_level(s: Seq<char>) -> Option<u32> {
    if s == "fast"@ {
        Some(1u32)
    } else if s == "default"@ {
        Some(6u32)
    } else if s == "best"@ {
        Some(9u32)
    } else {
        None
    }
}

fn parse_level(s: &str) -> (r: Option<u32>)
    ensures
        r == spec_level(s@),
{
    let c = str_chars(s);
    if eq_chars(&c, &str_chars("fast")) {
        Some(1)
    } else if eq_chars(&c, &str_chars("default")) {
        Some(6)
    } else if eq_chars(&c, &str_chars("best")) {
        Some(9)
    } else {
        Option::None
    }
}

/// The default compressed extensions.
pub open spec fn default_ext_rel(exts: Seq<String>) -> bool {
    exts.len() == 5 && exts[0]@ == "html"@ && exts[1]@ == "css"@ && exts[2]@ == "js"@ && exts[3]@
        == "json"@ && exts[4]@ == "png"@
}

fn default_extensions() -> (r: Vec<String>)
    ensures
        default_ext_rel(r@),
{
    let mut v: Vec<String> = Vec::new();
    let a = str_chars("html");
    v.push(chars_string(&a));
    let b = str_chars("css");
    v.push(chars_string(&b));
    let c = str_chars("js");
    v.push(chars_string(&c));
    let d = str_chars("json");
    v.push(chars_string(&d));
    let e = str_chars("png");
    v.push(chars_string(&e));
    v
}

/// How one mode name with a level relates to a parsed encoding.
pub open spec fn mode_rel(m: ContentEncoding, name: Seq<char>, level: u32) -> bool {
    (name == "auto"@ && m == ContentEncoding::Auto(level)) || (name == "gzip"@ && m
        == ContentEncoding::Gzip(level)) || (name == "deflate"@ && m == ContentEncoding::Deflate(
        level,
    )) || (name == "br"@ && m == ContentEncoding::Br(level))
}

/// Whether the block's `extension` directive is usable.
pub open spec fn ext_ok(cb: BlockV) -> bool {
    match spec_block_get(cb.directives, "extension"@) {
        Some(d) => d.value is Text,
        None => true,
    }
}

/// How the extensions of a parsed compress option relate to the block.
pub open spec fn ext_rel_of(c: Compress, cb: BlockV) -> bool {
    match spec_block_get(cb.directives, "extension"@) {
        Some(d) => match d.value {
            ValueV::Text(t) => {
                let items = ws_tokens(t);
                c.extensions@.len() == items.len() && (forall|i: int|
                    0 <= i < items.len() ==> #[trigger] c.extensions@[i]@ == items[i])
            },
            _ => false,
        },
        None => default_ext_rel(c.extensions@),
    }
}

/// A known compression mode name.
pub open spec fn known_mode(nm: Seq<char>) -> bool {
    nm == "auto"@ || nm == "gzip"@ || nm == "deflate"@ || nm == "br"@
}

/// The level a compress block configures: its `level` text, or the default.
pub open spec fn level_of(cb: BlockV) -> u32 {
    match text_of(cb, "level"@) {
        Some(t) => match spec_level(t) {
            Some(lv) => lv,
            None => 6,
        },
        None => 6,
    }
}

/// Whether the `level` directive of a compress block is usable.
pub open spec fn level_ok(cb: BlockV) -> bool {
    match spec_block_get(cb.directives, "level"@) {
        Some(d) => match d.value {
            ValueV::Text(t) => spec_level(t) is Some,
            _ => false,
        },
        None => true,
    }
}

/// Every mode token of `t` is a known mode name.
pub open spec fn modes_all_known(t: Seq<char>) -> bool {
    forall|i: int| 0 <= i < ws_tokens(t).len() ==> known_mode(#[trigger] ws_tokens(t)[i])
}

/// Whether the `mode` directive of a compress block is usable.
pub open spec fn mode_ok(cb: BlockV) -> bool {
    match spec_block_get(cb.directives, "mode"@) {
        Some(d) => match d.value {
            ValueV::Text(t) => modes_all_known(t),
            _ => false,
        },
        None => true,
    }
}

/// Whether a set `compress` directive is fully well-formed.
pub open spec fn compress_shape_ok(b: BlockV) -> bool {
    match spec_block_get(b.directives, "compress"@) {
        Some(d) => match d.value {
            ValueV::Boolean(true) => true,
            ValueV::Block(cb) => level_ok(cb) && mode_ok(cb) && ext_ok(cb),
            _ => false,
        },
        None => false,
    }
}

/// How a parsed compress value relates to the block.
pub open spec fn compress_value_rel(c: Compress, b: BlockV) -> bool {
    match spec_block_get(b.directives, "compress"@) {
        Some(d) => match d.value {
            ValueV::Boolean(true) => c.modes@.len() == 1 && c.modes@[0]
                == ContentEncoding::Auto(6) && default_ext_rel(c.extensions@),
            ValueV::Block(cb) => compress_block_value_rel(c, cb),
            _ => false,
        },
        None => false,
    }
}

/// How a parsed compress value relates to its block's directives.
pub open spec fn compress_block_value_rel(c: Compress, cb: BlockV) -> bool {
    &&& (match spec_block_get(cb.directives, "mode"@) {
        Some(d) => match d.value {
            ValueV::Text(t) => c.modes@.len() == ws_tokens(t).len() && (forall|i: int|
                0 <= i < ws_tokens(t).len() ==> mode_rel(
                    #[trigger] c.modes@[i],
                    ws_tokens(t)[i],
                    level_of(cb),
                )),
            _ => false,
        },
        None => c.modes@.len() == 1 && c.modes@[0] == ContentEncoding::Auto(level_of(cb)),
    })
    &&& ext_rel_of(c, cb)
}

/// Reads the `compress` option.
#[verifier::loop_isolation(false)]
#[verifier::rlimit(60)]
pub fn parse_compress(block: &Block) -> (r: Result<Setting<Compress>, ConfError>)
    ensures
        opt_missing(block@, "compress"@) ==> r == Result::<Setting<Compress>, ConfError>::Ok(
            Setting::NotSet,
        ),
        !opt_missing(block@, "compress"@) && opt_off(block@, "compress"@) ==> r == Result::<
            Setting<Compress>,
            ConfError,
        >::Ok(Setting::Off),
        !opt_missing(block@, "compress"@) && !opt_off(block@, "compress"@) ==> (r is Ok
            <==> compress_shape_ok(block@)),
        (r matches Ok(Setting::Value(c)) ==> compress_value_rel(c, block@)),
{
    if block_missing(block, "compress") {
        return Ok(Setting::NotSet);
    }
    if block_off(block, "compress") {
        return Ok(Setting::Off);
    }
    let d = match block.get("compress") {
        Some(d) => d,
        Option::None => {
            let k = str_chars("compress");
            return Err(conf_error(block.line(), "Cannot convert `", &k, "` to 'block'"));
        },
    };
    if d.is_on() {
        let mut modes: Vec<ContentEncoding> = Vec::new();
        modes.push(ContentEncoding::Auto(6));
        return Ok(Setting::Value(Compress { modes, extensions: default_extensions() }));
    }
    let cb = match d.as_block() {
        Some(cb) => cb,
        Option::None => {
            let k = str_chars("compress");
            return Err(conf_error(d.line(), "Cannot convert `", &k, "` to 'block'"));
        },
    };
    let level: u32 = match cb.get("level") {
        Some(ld) => match ld.as_source_str() {
            Some(t) => match parse_level(t) {
                Some(lv) => lv,
                Option::None => {
                    let c = str_chars(t);
                    return Err(conf_error(ld.line(), "Wrong compression level `", &c, "`"));
                },
            },
            Option::None => {
                let k = str_chars("level");
                return Err(conf_error(ld.line(), "Cannot convert `", &k, "` to 'string'"));
            },
        },
        Option::None => 6,
    };
    let extensions: Vec<String> = match cb.get("extension") {
        Some(ed) => match ed.as_source_str() {
            Some(t) => {
                let tc = str_chars(t);
                let items = crate::conf::ws_split(&tc);
                strings_of(&items)
            },
            Option::None => {
                let k = str_chars("extension");
                return Err(conf_error(ed.line(), "Cannot convert `", &k, "` to 'string'"));
            },
        },
        Option::None => default_extensions(),
    };
    match cb.get("mode") {
        Some(md) => match md.as_source_str() {
            Some(t) => {
                let tc = str_chars(t);
                let items = crate::conf::ws_split(&tc);
                proof {
                    crate::util::lemma_views_index(items@);
                }
                let n = items.len();
                let mut modes: Vec<ContentEncoding> = Vec::new();
                let mut i: usize = 0;
                while i < n
                    invariant
                        n == items@.len(),
                        modes@.len() == i,
                        i <= n,
                        forall|k: int|
                            0 <= k < n ==> views(items@)[k] == #[trigger] items@[k]@,
                        forall|k: int|
                            0 <= k < i ==> mode_rel(
                                #[trigger] modes@[k],
                                views(items@)[k],
                                level,
                            ),
                    decreases n - i,
                {
                    let ms = chars_string(&items[i]);
                    match ContentEncoding::from(ms.as_str(), level) {
                        Ok(m) => {
                            modes.push(m);
                        },
                        Err(msg) => {
                            proof {
                                assert(views(items@) == ws_tokens(t@));
                                assert(!known_mode(ws_tokens(t@)[i as int]));
                                assert(0 <= i < ws_tokens(t@).len());
                                assert(!(forall|k: int|
                                    0 <= k < ws_tokens(t@).len() ==> known_mode(
                                        #[trigger] ws_tokens(t@)[k],
                                    )));
                                let g = spec_block_get(cb@.directives, "mode"@);
                                assert(g is Some);
                                assert(g->Some_0.value == ValueV::Text(t@));
                                assert(!mode_ok(cb@));
                            }
                            return Err(ConfError { line: md.line(), message: msg });
                        },
                    }
                    i = i + 1;
                }
                proof {
                    assert(views(items@) == ws_tokens(t@));
                    assert(level == level_of(cb@));
                    assert forall|k: int|
                        0 <= k < ws_tokens(t@).len() implies known_mode(
                        #[trigger] ws_tokens(t@)[k],
                    ) by {
                        assert(mode_rel(modes@[k], ws_tokens(t@)[k], level));
                    }
                }
                Ok(Setting::Value(Compress { modes, extensions }))
            },
            _ => {
                let k = str_chars("mode");
                Err(conf_error(md.line(), "Cannot convert `", &k, "` to 'string'"))
            },
        },
        Option::None => {
            let mut modes: Vec<ContentEncoding> = Vec::new();
            modes.push(ContentEncoding::Auto(level));
            proof {
                assert(level == level_of(cb@));
            }
            Ok(Setting::Value(Compress { modes, extensions }))
        },
    }
}

/// How the parsed `directory` option relates to the block: `on` lists names
/// only; a block reads `time` (a flag or a pattern) and `size`.
pub open spec fn directory_rel(r: Result<Setting<Directory>, ConfError>, b: BlockV) -> bool {
    if opt_missing(b, "directory"@) {
        r is Ok && (r matches Ok(s) && s is NotSet)
    } else if opt_off(b, "directory"@) {
        r is Ok && (r matches Ok(s) && s is Off)
    } else {
        match spec_block_get(b.directives, "directory"@) {
            Some(d) => match d.value {
                ValueV::Boolean(true) => r matches Ok(Setting::Value(dir)) && dir.time is None
                    && dir.size == false,
                ValueV::Block(db) => {
                    let size_ok = match spec_block_get(db.directives, "size"@) {
                        Some(sd) => sd.value is Boolean,
                        None => true,
                    };
                    let time_ok = match spec_block_get(db.directives, "time"@) {
                        Some(td) => match td.value {
                            ValueV::Boolean(_) => true,
                            ValueV::Text(t) => strftime_ok(t),
                            _ => false,
                        },
                        None => true,
                    };
                    if size_ok && time_ok {
                        r matches Ok(Setting::Value(dir)) && directory_fields_rel(dir, db)
                    } else {
                        r is Err
                    }
                },
                _ => r is Err,
            },
            None => r is Err,
        }
    }
}

/// How the fields of a parsed autoindex option relate to its block.
pub open spec fn directory_fields_rel(dir: Directory, db: BlockV) -> bool {
    &&& (match spec_block_get(db.directives, "size"@) {
        Some(sd) => dir.size == (sd.value == ValueV::Boolean(true)),
        None => dir.size == false,
    })
    &&& (match spec_block_get(db.directives, "time"@) {
        Some(td) => match td.value {
            ValueV::Boolean(true) => dir.time matches Some(f) && f@ == "%Y-%m-%d %H:%M"@,
            ValueV::Boolean(false) => dir.time is None,
            ValueV::Text(t) => dir.time matches Some(f) && f@ == t,
            _ => true,
        },
        None => dir.time is None,
    })
}

/// Reads the `directory` option.
pub fn parse_directory(block: &Block) -> (r: Result<Setting<Directory>, ConfError>)
    ensures
        directory_rel(r, block@),
{
    if block_missing(block, "directory") {
        return Ok(Setting::NotSet);
    }
    if block_off(block, "directory") {
        return Ok(Setting::Off);
    }
    let d = match block.get("directory") {
        Some(d) => d,
        Option::None => {
            let k = str_chars("directory");
            return Err(conf_error(block.line(), "Cannot convert `", &k, "` to 'block'"));
        },
    };
    if d.is_on() {
        return Ok(Setting::Value(Directory { time: Option::None, size: false }));
    }
    let db = match d.as_block() {
        Some(db) => db,
        Option::None => {
            let k = str_chars("directory");
            return Err(conf_error(d.line(), "Cannot convert `", &k, "` to 'block'"));
        },
    };
    let size: bool = match db.get("size") {
        Some(sd) => match sd.as_bool() {
            Some(v) => v,
            Option::None => {
                let k = str_chars("size");
                return Err(conf_error(sd.line(), "Cannot convert `", &k, "` to 'boolean'"));
            },
        },
        Option::None => false,
    };
    let time: Option<String> = match db.get("time") {
        Some(td) => match td.as_bool() {
            Some(v) => {
                if v {
                    let f = str_chars("%Y-%m-%d %H:%M");
                    Some(chars_string(&f))
                } else {
                    Option::None
                }
            },
            Option::None => match td.as_source_str() {
                Some(t) => {
                    if check_strftime(t) {
                        let tc = str_chars(t);
                        Some(chars_string(&tc))
                    } else {
                        let tc = str_chars(t);
                        return Err(conf_error(td.line(), "Cannot parse `", &tc, "` to time format"));
                    }
                },
                Option::None => {
                    let k = str_chars("time");
                    return Err(conf_error(td.line(), "Cannot convert `", &k, "` to 'string'"));
                },
            },
        },
        Option::None => Option::None,
    };
    Ok(Setting::Value(Directory { time, size }))
}

/// The pattern items of an `allow` or `deny` directive: its tokens, empty
/// when absent, unusable when not plain text.
pub open spec fn opt_items(b: BlockV, key: Seq<char>) -> Option<Seq<Seq<char>>> {
    match spec_block_get(b.directives, key) {
        Some(d) => match d.value {
            ValueV::Text(t) => Some(ws_tokens(t)),
            _ => None,
        },
        None => Some(Seq::empty()),
    }
}

/// An IP pattern is a wildcard or dotted-decimal IPv4 text.
pub open spec fn ip_item_ok(x: Seq<char>) -> bool {
    crate::util::seq_has_char(x, '*') || spec_is_ipv4(x)
}

/// Every pattern of the list is usable.
pub open spec fn ip_list_ok(a: Seq<Seq<char>>) -> bool {
    forall|i: int| 0 <= i < a.len() ==> ip_item_ok(#[trigger] a[i])
}

/// Whether a set `ip` directive is fully well-formed.
pub open spec fn ip_shape_ok(b: BlockV) -> bool {
    match spec_block_get(b.directives, "ip"@) {
        Some(d) => match d.value {
            ValueV::Block(ib) => match (opt_items(ib, "allow"@), opt_items(ib, "deny"@)) {
                (Some(a), Some(dn)) => ip_list_ok(a) && ip_list_ok(dn),
                _ => false,
            },
            _ => false,
        },
        None => false,
    }
}

/// How a parsed IP matcher relates to the block's pattern lists.
pub open spec fn ip_value_rel(m: IpMatcher, b: BlockV) -> bool {
    match spec_block_get(b.directives, "ip"@) {
        Some(d) => match d.value {
            ValueV::Block(ib) => match (opt_items(ib, "allow"@), opt_items(ib, "deny"@)) {
                (Some(a), Some(dn)) => {
                    &&& m.allow_view().len() == a.len()
                    &&& (forall|i: int|
                        0 <= i < a.len() ==> m.allow_view()[i] == crate::matcher::spec_classify_ip(
                            #[trigger] a[i],
                        ))
                    &&& m.deny_view().len() == dn.len()
                    &&& (forall|i: int|
                        0 <= i < dn.len() ==> m.deny_view()[i] == crate::matcher::spec_classify_ip(
                            #[trigger] dn[i],
                        ))
                },
                _ => false,
            },
            _ => false,
        },
        None => false,
    }
}

/// Reads the `ip` option.
#[verifier::rlimit(60)]
pub fn parse_ip(block: &Block) -> (r: Result<Setting<IpMatcher>, ConfError>)
    ensures
        opt_missing(block@, "ip"@) ==> r == Result::<Setting<IpMatcher>, ConfError>::Ok(
            Setting::NotSet,
        ),
        !opt_missing(block@, "ip"@) && opt_off(block@, "ip"@) ==> r == Result::<
            Setting<IpMatcher>,
            ConfError,
        >::Ok(Setting::Off),
        !opt_missing(block@, "ip"@) && !opt_off(block@, "ip"@) ==> (r is Ok <==> ip_shape_ok(
            block@,
        )),
        !opt_missing(block@, "ip"@) && !opt_off(block@, "ip"@) ==> (r matches Ok(s) ==> s
            is Value),
        (r matches Ok(Setting::Value(m)) ==> ip_value_rel(m, block@)),
{
    if block_missing(block, "ip") {
        return Ok(Setting::NotSet);
    }
    if block_off(block, "ip") {
        return Ok(Setting::Off);
    }
    let d = match block.get("ip") {
        Some(d) => d,
        Option::None => {
            let k = str_chars("ip");
            return Err(conf_error(block.line(), "Cannot convert `", &k, "` to 'block'"));
        },
    };
    let ib = match d.as_block() {
        Some(ib) => ib,
        Option::None => {
            let k = str_chars("ip");
            return Err(conf_error(d.line(), "Cannot convert `", &k, "` to 'block'"));
        },
    };
    let ghost mut a_items: Seq<Seq<char>> = Seq::empty();
    let allow: Vec<String> = match ib.get("allow") {
        Some(_) => match directive_items(ib, "allow") {
            Some(items) => {
                proof {
                    a_items = views(items@);
                }
                strings_of(&items)
            },
            Option::None => {
                let k = str_chars("allow");
                return Err(conf_error(ib.line(), "Cannot convert `", &k, "` to 'string'"));
            },
        },
        Option::None => Vec::new(),
    };
    proof {
        assert forall|i: int| 0 <= i < allow@.len() implies #[trigger] allow@[i]@ == a_items[i]
            by {}
        assert(allow@.len() == a_items.len());
    }
    let ghost mut dn_items: Seq<Seq<char>> = Seq::empty();
    let deny: Vec<String> = match ib.get("deny") {
        Some(_) => match directive_items(ib, "deny") {
            Some(items) => {
                proof {
                    dn_items = views(items@);
                }
                strings_of(&items)
            },
            Option::None => {
                let k = str_chars("deny");
                return Err(conf_error(ib.line(), "Cannot convert `", &k, "` to 'string'"));
            },
        },
        Option::None => Vec::new(),
    };
    proof {
        assert forall|i: int| 0 <= i < deny@.len() implies #[trigger] deny@[i]@ == dn_items[i]
            by {}
        assert(deny@.len() == dn_items.len());
    }
    match IpMatcher::new(allow, deny) {
        Ok(m) => {
            proof {
                assert forall|i: int|
                    0 <= i < a_items.len() implies ip_item_ok(#[trigger] a_items[i]) by {
                    assert(a_items[i] == allow@[i]@);
                }
                assert forall|i: int|
                    0 <= i < dn_items.len() implies ip_item_ok(#[trigger] dn_items[i]) by {
                    assert(dn_items[i] == deny@[i]@);
                }
                assert forall|i: int|
                    0 <= i < a_items.len() implies m.allow_view()[i]
                    == crate::matcher::spec_classify_ip(#[trigger] a_items[i]) by {
                    assert(a_items[i] == allow@[i]@);
                }
                assert forall|i: int|
                    0 <= i < dn_items.len() implies m.deny_view()[i]
                    == crate::matcher::spec_classify_ip(#[trigger] dn_items[i]) by {
                    assert(dn_items[i] == deny@[i]@);
                }
            }
            Ok(Setting::Value(m))
        },
        Err(msg) => {
            let line = d.line();
            let e = ConfError { line, message: msg };
            proof {
                if exists|i: int|
                    0 <= i < allow@.len() && !crate::util::seq_has_char(#[trigger] allow@[i]@, '*')
                        && !spec_is_ipv4(allow@[i]@) {
                    let i0 = choose|i: int|
                        0 <= i < allow@.len() && !crate::util::seq_has_char(
                            #[trigger] allow@[i]@,
                            '*',
                        ) && !spec_is_ipv4(allow@[i]@);
                    assert(a_items[i0] == allow@[i0]@);
                    assert(!ip_item_ok(a_items[i0]));
                    assert(!ip_list_ok(a_items));
                } else {
                    let i0 = choose|i: int|
                        0 <= i < deny@.len() && !crate::util::seq_has_char(
                            #[trigger] deny@[i]@,
                            '*',
                        ) && !spec_is_ipv4(deny@[i]@);
                    assert(dn_items[i0] == deny@[i0]@);
                    assert(!ip_item_ok(dn_items[i0]));
                    assert(!ip_list_ok(dn_items));
                }
            }
            Err(e)
        },
    }
}

/// How the parsed `try` option relates to the block: each item classified.
pub open spec fn try_rel(
    r: Result<Setting<Vec<Var<String>>>, ConfError>,
    b: BlockV,
) -> bool {
    if opt_missing(b, "try"@) {
        r is Ok && (r matches Ok(s) && s is NotSet)
    } else if opt_off(b, "try"@) {
        r is Ok && (r matches Ok(s) && s is Off)
    } else {
        match items_of(b, "try"@) {
            Some(items) => r matches Ok(Setting::Value(v)) && v@.len() == items.len() && (forall|
                i: int,
            | 0 <= i < items.len() ==> var_rel(#[trigger] v@[i], items[i])),
            None => r is Err,
        }
    }
}

/// Reads the `try` option.
pub fn parse_try(block: &Block) -> (r: Result<Setting<Vec<Var<String>>>, ConfError>)
    ensures
        try_rel(r, block@),
{
    if block_missing(block, "try") {
        return Ok(Setting::NotSet);
    }
    if block_off(block, "try") {
        return Ok(Setting::Off);
    }
    match directive_items(block, "try") {
        Some(items) => {
            proof {
                crate::util::lemma_views_index(items@);
            }
            let n = items.len();
            let mut out: Vec<Var<String>> = Vec::new();
            let mut i: usize = 0;
            while i < n
                invariant
                    n == items@.len(),
                    out@.len() == i,
                    i <= n,
                    forall|k: int| 0 <= k < n ==> views(items@)[k] == #[trigger] items@[k]@,
                    forall|k: int|
                        0 <= k < i ==> var_rel(#[trigger] out@[k], views(items@)[k]),
                decreases n - i,
            {
                let t = chars_string(&items[i]);
                out.push(Var::from(t.as_str()));
                i = i + 1;
            }
            Ok(Setting::Value(out))
        },
        Option::None => {
            let k = str_chars("try");
            Err(conf_error(block.line(), "Cannot convert `", &k, "` to 'string'"))
        },
    }
}

/// How the parsed `error` option relates to the block: each directive's
/// name is a status code; its value is a page path resolved under `root`,
/// or `off`.
pub open spec fn error_rel(
    r: Result<Setting<StatusPage>, ConfError>,
    b: BlockV,
    root: Option<Seq<char>>,
) -> bool {
    if opt_missing(b, "error"@) {
        r is Ok && (r matches Ok(s) && s is NotSet)
    } else if opt_off(b, "error"@) {
        r is Ok && (r matches Ok(s) && s is Off)
    } else {
        match spec_block_get(b.directives, "error"@) {
            Some(d) => match d.value {
                ValueV::Block(eb) => match r {
                    Ok(s) => s matches Setting::Value(p) && p@.len() == eb.directives.len() && (
                    forall|i: int|
                        0 <= i < p@.len() ==> error_entry_rel(
                            #[trigger] p@[i],
                            eb.directives[i],
                            root,
                        )),
                    Err(_) => exists|i: int|
                        0 <= i < eb.directives.len() && no_error_entry(
                            #[trigger] eb.directives[i],
                            root,
                        ),
                },
                _ => r is Err,
            },
            None => r is Err,
        }
    }
}

/// How one error-page entry relates to its directive: a three-digit status
/// in 100..=999, and a path (resolved under the root, which must then be
/// set) or `off`.
pub open spec fn error_entry_rel(
    e: StatusEntry,
    d: DirectiveV,
    root: Option<Seq<char>>,
) -> bool {
    &&& all_digits(d.name) && d.name.len() == 3 && 100 <= spec_dec_value(d.name) <= 999
    &&& e.status == spec_dec_value(d.name)
    &&& (match d.value {
        ValueV::Text(t) => match root {
            Some(rt) => e.file matches Setting::Value(p) && p@ == spec_join(t, rt),
            None => crate::util::is_absolute(t) && (e.file matches Setting::Value(p) && p@ == t),
        },
        ValueV::Boolean(false) => e.file is Off,
        _ => false,
    })
}

/// Reads the `error` option, resolving pages under `root`.
#[verifier::loop_isolation(false)]
pub fn parse_error(block: &Block, root: &Option<String>) -> (r: Result<
    Setting<StatusPage>,
    ConfError,
>)
    ensures
        error_rel(
            r,
            block@,
            match root {
                Some(rt) => Some(rt@),
                None => None,
            },
        ),
{
    if block_missing(block, "error") {
        return Ok(Setting::NotSet);
    }
    if block_off(block, "error") {
        return Ok(Setting::Off);
    }
    let d = match block.get("error") {
        Some(d) => d,
        Option::None => {
            let k = str_chars("error");
            return Err(conf_error(block.line(), "Cannot convert `", &k, "` to 'block'"));
        },
    };
    let eb = match d.as_block() {
        Some(eb) => eb,
        Option::None => {
            let k = str_chars("error");
            return Err(conf_error(d.line(), "Cannot convert `", &k, "` to 'block'"));
        },
    };
    let ds = eb.directives();
    let n = ds.len();
    let mut pages: Vec<StatusEntry> = Vec::new();
    let mut i: usize = 0;
    proof {
        crate::conf::lemma_directives_view_index_pub(ds@);
    }
    while i < n
        invariant
            n == ds@.len(),
            eb@.directives.len() == n,
            pages@.len() == i,
            i <= n,
            forall|k: int|
                0 <= k < n ==> eb@.directives[k] == crate::conf::directive_view(
                    #[trigger] ds@[k],
                ),
            forall|k: int|
                0 <= k < i ==> error_entry_rel(
                    #[trigger] pages@[k],
                    eb@.directives[k],
                    match root {
                        Some(rt) => Some(rt@),
                        Option::None => Option::None,
                    },
                ),
        decreases n - i,
    {
        let nm = str_chars(ds[i].name.as_str());
        let status: u16 = match crate::util::parse_small_decimal(&nm) {
            Some(v) => {
                if nm.len() == 3 && 100 <= v && v <= 999 {
                    v as u16
                } else {
                    return Err(conf_error(ds[i].line, "Cannot parse `", &nm, "` to http status"));
                }
            },
            Option::None => {
                return Err(conf_error(ds[i].line, "Cannot parse `", &nm, "` to http status"));
            },
        };
        let file: Setting<String> = match ds[i].as_bool() {
            Some(v) => {
                if !v {
                    Setting::Off
                } else {
                    return Err(conf_error(ds[i].line, "Cannot parse `", &nm, "` to error page"));
                }
            },
            Option::None => match ds[i].as_source_str() {
                Some(t) => match root {
                    Some(rt) => Setting::Value(crate::util::absolute_path(t, rt.as_str())),
                    Option::None => {
                        let tc = str_chars(t);
                        if tc.len() > 0 && tc[0] == '/' {
                            Setting::Value(chars_string(&tc))
                        } else {
                            let k = str_chars("root");
                            return Err(conf_error(ds[i].line, "Missing directive `", &k, "`"));
                        }
                    },
                },
                Option::None => {
                    return Err(conf_error(ds[i].line, "Cannot parse `", &nm, "` to error page"));
                },
            },
        };
        pages.push(StatusEntry { status, file });
        i = i + 1;
    }
    Ok(Setting::Value(StatusPage { pages }))
}

/// How the parsed `log` option relates to the block: plain text is a log
/// file with the default format; a block reads `mode`, `file` and `format`.
pub open spec fn log_rel(
    r: Result<Setting<Logger>, ConfError>,
    b: BlockV,
    root: Seq<char>,
) -> bool {
    if opt_missing(b, "log"@) {
        r is Ok && (r matches Ok(s) && s is NotSet)
    } else if opt_off(b, "log"@) {
        r is Ok && (r matches Ok(s) && s is Off)
    } else {
        match spec_block_get(b.directives, "log"@) {
            Some(d) => match d.value {
                ValueV::Text(t) => r matches Ok(Setting::Value(lg)) && logger_rel(
                    lg,
                    default_log_format(),
                    Some(spec_join(t, root)),
                ),
                ValueV::Block(lb) => {
                    let format = match text_of(lb, "format"@) {
                        Some(f) => Some(f),
                        None => {
                            if spec_block_get(lb.directives, "format"@) is Some {
                                None
                            } else {
                                Some(default_log_format())
                            }
                        },
                    };
                    match format {
                        None => r is Err,
                        Some(f) => match text_of(lb, "mode"@) {
                            Some(m) => {
                                if m == "stdout"@ {
                                    r matches Ok(Setting::Value(lg)) && logger_rel(lg, f, None)
                                } else if m == "file"@ {
                                    match text_of(lb, "file"@) {
                                        Some(p) => r matches Ok(Setting::Value(lg)) && logger_rel(
                                            lg,
                                            f,
                                            Some(spec_join(p, root)),
                                        ),
                                        None => r is Err,
                                    }
                                } else {
                                    r is Err
                                }
                            },
                            None => r is Err,
                        },
                    }
                },
                _ => r is Err,
            },
            None => r is Err,
        }
    }
}

/// The default access-log line format.
pub open spec fn default_log_format() -> Seq<char> {
    "${request_method} ${request_header_host}${request_path}${request_query} ${request_header_user-agent}"@
}

/// How a built logger relates to its format text and optional file path.
pub open spec fn logger_rel(lg: Logger, format: Seq<char>, file: Option<Seq<char>>) -> bool {
    &&& var_rel_format(lg.format, format + "\n"@)
    &&& (match file {
        Some(p) => lg.output matches crate::options::LogOutput::File(q) && q@ == p,
        None => lg.output is Stdout,
    })
}

/// How a classified log format relates to its raw text.
pub open spec fn var_rel_format(v: Var<String>, t: Seq<char>) -> bool {
    match v {
        Var::Template(s, rep) => s@ == t && replace_records(rep, t) && replace_any(rep),
        Var::Literal(x) => x@ == t && (forall|cls: TokenClass| !spec_has_class(t, cls)),
    }
}

/// Reads the `log` option, resolving file paths under `root`.
pub fn parse_log(block: &Block, root: &str) -> (r: Result<Setting<Logger>, ConfError>)
    ensures
        log_rel(r, block@, root@),
{
    if block_missing(block, "log") {
        return Ok(Setting::NotSet);
    }
    if block_off(block, "log") {
        return Ok(Setting::Off);
    }
    let d = match block.get("log") {
        Some(d) => d,
        Option::None => {
            let k = str_chars("log");
            return Err(conf_error(block.line(), "Cannot convert `", &k, "` to 'block'"));
        },
    };
    if let Some(t) = d.as_source_str() {
        let fmt =
            "${request_method} ${request_header_host}${request_path}${request_query} ${request_header_user-agent}";
        let lg = Logger::new(fmt).file(crate::util::absolute_path(t, root));
        return Ok(Setting::Value(lg));
    }
    let lb = match d.as_block() {
        Some(lb) => lb,
        Option::None => {
            let k = str_chars("log");
            return Err(conf_error(d.line(), "Cannot convert `", &k, "` to 'block'"));
        },
    };
    let format_text: String = match lb.get("format") {
        Some(fd) => match fd.as_source_str() {
            Some(f) => {
                let fc = str_chars(f);
                chars_string(&fc)
            },
            Option::None => {
                let k = str_chars("format");
                return Err(conf_error(fd.line(), "Cannot convert `", &k, "` to 'string'"));
            },
        },
        Option::None => {
            let fc = str_chars(
                "${request_method} ${request_header_host}${request_path}${request_query} ${request_header_user-agent}",
            );
            chars_string(&fc)
        },
    };
    let mode = match directive_text(lb, "mode") {
        Some(m) => m,
        Option::None => {
            let k = str_chars("mode");
            return Err(conf_error(lb.line(), "Missing directive `", &k, "`"));
        },
    };
    let mc = str_chars(mode);
    if eq_chars(&mc, &str_chars("stdout")) {
        return Ok(Setting::Value(Logger::new(format_text.as_str())));
    }
    if eq_chars(&mc, &str_chars("file")) {
        let p = match directive_text(lb, "file") {
            Some(p) => p,
            Option::None => {
                let k = str_chars("file");
                return Err(conf_error(lb.line(), "Missing directive `", &k, "`"));
            },
        };
        let lg = Logger::new(format_text.as_str()).file(crate::util::absolute_path(p, root));
        return Ok(Setting::Value(lg));
    }
    proof {
        reveal_strlit("stdout");
        reveal_strlit("file");
    }
    Err(conf_error(lb.line(), "Wrong log mode `", &mc, "`"))
}


// ---------------------------------------------------------------------------
// Listen addresses, hosts, TLS.
// ---------------------------------------------------------------------------

/// A character that may appear in bracketed IPv6 address text.
pub open spec fn is_v6_char(c: char) -> bool {
    ('0' <= c <= '9') || ('a' <= c <= 'f') || ('A' <= c <= 'F') || c == ':' || c == '.'
}

/// The shape of bracketed IPv6 address text: non-empty, holds a colon, and
/// uses only hex digits, colons and dots. This is a shape check; a
/// malformed address inside it is reported when the socket is bound.
pub open spec fn v6_text_ok(t: Seq<char>) -> bool {
    t.len() > 0 && crate::util::seq_has_char(t, ':') && (forall|i: int|
        0 <= i < t.len() ==> is_v6_char(#[trigger] t[i]))
}

/// The canonical listen address a configured text stands for:
/// `[ipv6]:port` or `ipv4:port` as given, bare IPv4 with port 80, a bare
/// port on `0.0.0.0`.
pub open spec fn spec_addr(s: Seq<char>) -> Option<Seq<char>> {
    if s.len() > 0 && s[0] == '[' {
        let rb = crate::wildcard::first_index_from(s, 1, ']');
        if 1 <= rb && rb < s.len() && v6_text_ok(s.subrange(1, rb)) && rb + 1 < s.len() && s[rb
            + 1] == ':' && port_text_ok(s.subrange(rb + 2, s.len() as int)) {
            Some(s)
        } else {
            None
        }
    } else {
        let c = crate::wildcard::first_index_from(s, 0, ':');
        if c < s.len() {
            if spec_is_ipv4(s.subrange(0, c)) && port_text_ok(s.subrange(c + 1, s.len() as int)) {
                Some(s)
            } else {
                None
            }
        } else if spec_is_ipv4(s) {
            Some(s + ":80"@)
        } else if port_text_ok(s) {
            Some("0.0.0.0:"@ + s)
        } else {
            None
        }
    }
}

fn check_v6_text(t: &Vec<char>) -> (r: bool)
    ensures
        r == v6_text_ok(t@),
{
    if t.len() == 0 {
        return false;
    }
    if !crate::util::has_char(t, ':') {
        return false;
    }
    let n = t.len();
    let mut i: usize = 0;
    while i < n
        invariant
            n == t@.len(),
            i <= n,
            forall|j: int| 0 <= j < i ==> is_v6_char(#[trigger] t@[j]),
        decreases n - i,
    {
        let c = t[i];
        let ok = ('0' <= c && c <= '9') || ('a' <= c && c <= 'f') || ('A' <= c && c <= 'F') || c
            == ':' || c == '.';
        if !ok {
            return false;
        }
        i = i + 1;
    }
    true
}

/// A non-empty decimal of at most five digits, at most 65535.
pub open spec fn port_text_ok(s: Seq<char>) -> bool {
    s.len() > 0 && s.len() <= 5 && all_digits(s) && spec_dec_value(s) <= 65535
}

fn port_ok(s: &Vec<char>) -> (r: bool)
    ensures
        r == port_text_ok(s@),
{
    match parse_small_decimal(s) {
        Some(v) => v <= 65535,
        Option::None => false,
    }
}

/// Reads one listen address to canonical `ip:port` text.
pub fn to_socket_addr(s: &str) -> (r: Option<String>)
    ensures
        match r {
            Some(a) => spec_addr(s@) == Some(a@),
            None => spec_addr(s@) is None,
        },
{
    let c = str_chars(s);
    proof {
        crate::wildcard::lemma_first_index_from(c@, 0, ':');
    }
    let n = c.len();
    if n > 0 && c[0] == '[' {
        proof {
            crate::wildcard::lemma_first_index_from(c@, 1, ']');
        }
        let rb = match crate::util::find_char_from(&c, ']', 1) {
            Some(i) => {
                assert(i == crate::wildcard::first_index_from(c@, 1, ']'));
                i
            },
            Option::None => {
                assert(crate::wildcard::first_index_from(c@, 1, ']') == c@.len());
                return Option::None;
            },
        };
        let inner = slice_chars(&c, 1, rb);
        if !check_v6_text(&inner) {
            return Option::None;
        }
        if !(rb + 1 < n && c[rb + 1] == ':') {
            return Option::None;
        }
        let port = slice_chars(&c, rb + 2, n);
        if port_ok(&port) {
            return Some(chars_string(&c));
        }
        return Option::None;
    }
    match crate::util::find_char_from(&c, ':', 0) {
        Some(i) => {
            assert(i == crate::wildcard::first_index_from(c@, 0, ':'));
            let host = slice_chars(&c, 0, i);
            let port = slice_chars(&c, i + 1, n);
            if crate::matcher::is_ipv4_text(&host) && port_ok(&port) {
                Some(chars_string(&c))
            } else {
                Option::None
            }
        },
        Option::None => {
            assert(crate::wildcard::first_index_from(c@, 0, ':') == c@.len());
            if crate::matcher::is_ipv4_text(&c) {
                let suffix = str_chars(":80");
                let joined = crate::util::concat_chars(&c, &suffix);
                Some(chars_string(&joined))
            } else if port_ok(&c) {
                let prefix = str_chars("0.0.0.0:");
                let joined = crate::util::concat_chars(&prefix, &c);
                Some(chars_string(&joined))
            } else {
                Option::None
            }
        },
    }
}

/// The canonical listen addresses of a server block, duplicates removed.
pub open spec fn listens_ok(b: BlockV) -> bool {
    match items_of(b, "listen"@) {
        Some(items) => items.len() > 0 && (forall|i: int|
            0 <= i < items.len() ==> spec_addr(#[trigger] items[i]) is Some),
        None => false,
    }
}

/// How a parsed listen list relates to the block: each canonical address
/// comes from the matching item, in order, with later duplicates removed.
pub open spec fn listen_rel(addrs: Seq<Seq<char>>, b: BlockV) -> bool {
    match items_of(b, "listen"@) {
        Some(items) => addrs == crate::util::spec_dedup(
            Seq::new(
                items.len(),
                |i: int|
                    match spec_addr(items[i]) {
                        Some(a) => a,
                        None => Seq::empty(),
                    },
            ),
        ),
        None => false,
    }
}

/// A deduplicated non-empty list stays non-empty.
proof fn lemma_dedup_nonempty(s: Seq<Seq<char>>)
    ensures
        s.len() > 0 ==> crate::util::spec_dedup(s).len() > 0,
    decreases s.len(),
{
    if s.len() > 1 {
        lemma_dedup_nonempty(s.drop_last());
    }
}

/// Reads the `listen` directive of a server block.
#[verifier::loop_isolation(false)]
pub fn parse_listen(block: &Block) -> (r: Result<Vec<String>, ConfError>)
    ensures
        (r matches Ok(v) ==> (v@.len() > 0 && listens_ok(block@) && listen_rel(
            Seq::new(v@.len(), |i: int| v@[i]@),
            block@,
        ))),
        (r is Err <==> !listens_ok(block@)),
{
    let items = match directive_items(block, "listen") {
        Some(items) => items,
        Option::None => {
            let k = str_chars("listen");
            return Err(conf_error(block.line(), "Missing directive `", &k, "`"));
        },
    };
    proof {
        crate::util::lemma_views_index(items@);
    }
    if items.len() == 0 {
        let k = str_chars("listen");
        return Err(conf_error(block.line(), "Missing directive `", &k, "`"));
    }
    let n = items.len();
    let mut addrs: Vec<Vec<char>> = Vec::new();
    let mut i: usize = 0;
    while i < n
        invariant
            n == items@.len(),
            addrs@.len() == i,
            i <= n,
            forall|k: int| 0 <= k < n ==> views(items@)[k] == #[trigger] items@[k]@,
            forall|k: int|
                0 <= k < i ==> spec_addr(#[trigger] views(items@)[k]) is Some,
            forall|k: int|
                0 <= k < i ==> #[trigger] addrs@[k]@ == (match spec_addr(views(items@)[k]) {
                    Some(a) => a,
                    None => Seq::empty(),
                }),
        decreases n - i,
    {
        let t = chars_string(&items[i]);
        match to_socket_addr(t.as_str()) {
            Some(a) => {
                addrs.push(str_chars(a.as_str()));
            },
            Option::None => {
                let tc = str_chars(t.as_str());
                return Err(conf_error(block.line(), "Cannot parse `", &tc, "` to SocketAddr"));
            },
        }
        i = i + 1;
    }
    let ghost addrs_views = views(addrs@);
    let deduped = crate::util::dedup_chars(addrs);
    let out = strings_of(&deduped);
    proof {
        lemma_dedup_nonempty(addrs_views);
        assert(Seq::new(out@.len(), |k: int| out@[k]@) =~= views(deduped@));
        assert(views(addrs@) =~= Seq::new(
            views(items@).len(),
            |k: int|
                match spec_addr(views(items@)[k]) {
                    Some(a) => a,
                    None => Seq::empty(),
                },
        ));
    }
    Ok(out)
}

/// How the parsed host matcher relates to the block: classified from the
/// `host` items, or empty when absent.
pub open spec fn host_rel(m: HostMatcher, b: BlockV) -> bool {
    match spec_block_get(b.directives, "host"@) {
        Some(d) => match d.value {
            ValueV::Text(t) => {
                let items = ws_tokens(t);
                m@.len() == items.len() && (forall|i: int|
                    0 <= i < items.len() ==> m@[i] == crate::matcher::spec_classify_host(
                        #[trigger] items[i],
                    ))
            },
            _ => false,
        },
        None => m@.len() == 0,
    }
}

/// Whether a set `host` directive cannot be used: it is not plain text, or
/// one of its `~` patterns is not a valid regular expression.
pub open spec fn host_bad(b: BlockV) -> bool {
    match spec_block_get(b.directives, "host"@) {
        Some(d) => match d.value {
            ValueV::Text(t) => exists|i: int|
                0 <= i < ws_tokens(t).len() && crate::matcher::host_pattern_bad(
                    #[trigger] ws_tokens(t)[i],
                ),
            _ => true,
        },
        None => false,
    }
}

/// Reads the `host` directive; fails exactly when it is not plain text or
/// a `~` pattern's anchored form does not compile.
pub fn parse_host(block: &Block) -> (r: Result<HostMatcher, ConfError>)
    ensures
        (r matches Ok(m) ==> host_rel(m, block@)),
        (r is Err <==> host_bad(block@)),
{
    match block.get("host") {
        Option::None => {
            let m = HostMatcher::default();
            Ok(m)
        },
        Some(d) => match d.as_source_str() {
            Some(t) => {
                let tc = str_chars(t);
                let items = crate::conf::ws_split(&tc);
                let strings = strings_of(&items);
                let ghost sv = Seq::new(strings@.len(), |i: int| strings@[i]@);
                let ghost sv2 = strings@;
                match HostMatcher::new(strings) {
                    Ok(m) => {
                        proof {
                            crate::util::lemma_views_index(items@);
                            assert forall|i: int|
                                0 <= i < ws_tokens(t@).len() implies m@[i]
                                == crate::matcher::spec_classify_host(
                                #[trigger] ws_tokens(t@)[i],
                            ) by {
                                assert(views(items@)[i] == items@[i]@);
                                assert(sv[i] == items@[i]@);
                            }
                            assert forall|i: int|
                                0 <= i < ws_tokens(t@).len() implies !crate::matcher::host_pattern_bad(
                                #[trigger] ws_tokens(t@)[i],
                            ) by {
                                assert(views(items@)[i] == items@[i]@);
                                assert(sv2[i]@ == items@[i]@);
                            }
                        }
                        Ok(m)
                    },
                    Err(msg) => {
                        proof {
                            crate::util::lemma_views_index(items@);
                            let i0 = choose|i: int|
                                0 <= i < sv2.len() && crate::matcher::host_pattern_bad(
                                    #[trigger] sv2[i]@,
                                );
                            assert(sv2[i0]@ == items@[i0]@);
                            assert(ws_tokens(t@)[i0] == items@[i0]@);
                            assert(crate::matcher::host_pattern_bad(ws_tokens(t@)[i0]));
                        }
                        Err(ConfError { line: d.line(), message: msg })
                    },
                }
            },
            Option::None => {
                let k = str_chars("host");
                Err(conf_error(d.line(), "Cannot convert `", &k, "` to 'string'"))
            },
        },
    }
}

/// How parsed TLS content relates to the block: the `https` block's `cert`
/// and `key` paths under the configuration directory, answering for the
/// first host pattern.
pub open spec fn https_rel(
    r: Option<TLSContent>,
    b: BlockV,
    config_dir: Seq<char>,
) -> bool {
    match spec_block_get(b.directives, "https"@) {
        None => r is None,
        Some(d) => match d.value {
            ValueV::Block(hb) => match (text_of(hb, "cert"@), text_of(hb, "key"@)) {
                (Some(cert), Some(key)) => match text_of(b, "host"@) {
                    Some(hosts) => {
                        let items = ws_tokens(hosts);
                        items.len() > 0 && (r matches Some(t) && t.cert@ == spec_join(
                            cert,
                            config_dir,
                        ) && t.key@ == spec_join(key, config_dir) && t.sni@ == items[0])
                    },
                    None => false,
                },
                _ => false,
            },
            _ => false,
        },
    }
}

/// Whether a set `https` block cannot be used: it is not a block, its
/// `cert` or `key` text is missing, or the site names no host for SNI.
pub open spec fn https_bad(b: BlockV) -> bool {
    match spec_block_get(b.directives, "https"@) {
        Some(d) => match d.value {
            ValueV::Block(hb) => text_of(hb, "cert"@) is None || text_of(hb, "key"@) is None || (
            match text_of(b, "host"@) {
                Some(h) => ws_tokens(h).len() == 0,
                None => true,
            }),
            _ => true,
        },
        None => false,
    }
}

/// Reads the `https` directive of a server block; fails exactly when the
/// block is malformed or the site names no host.
pub fn parse_https(block: &Block, config_dir: &str) -> (r: Result<
    Option<TLSContent>,
    ConfError,
>)
    ensures
        (r matches Ok(t) ==> https_rel(t, block@, config_dir@)),
        (r is Err <==> https_bad(block@)),
{
    let d = match block.get("https") {
        Option::None => {
            return Ok(Option::None);
        },
        Some(d) => d,
    };
    let hb = match d.as_block() {
        Some(hb) => hb,
        Option::None => {
            let k = str_chars("https");
            return Err(conf_error(d.line(), "Cannot convert `", &k, "` to 'block'"));
        },
    };
    let cert = match directive_text(hb, "cert") {
        Some(c) => c,
        Option::None => {
            let k = str_chars("cert");
            return Err(conf_error(hb.line(), "Missing directive `", &k, "`"));
        },
    };
    let key = match directive_text(hb, "key") {
        Some(kk) => kk,
        Option::None => {
            let k = str_chars("key");
            return Err(conf_error(hb.line(), "Missing directive `", &k, "`"));
        },
    };
    let hosts = match directive_text(block, "host") {
        Some(h) => h,
        Option::None => {
            let k = str_chars("host");
            return Err(conf_error(block.line(), "Missing directive `", &k, "`"));
        },
    };
    let hc = str_chars(hosts);
    let items = crate::conf::ws_split(&hc);
    proof {
        crate::util::lemma_views_index(items@);
        assert(views(items@) == ws_tokens(hc@));
    }
    if items.len() == 0 {
        let k = str_chars("host");
        return Err(conf_error(block.line(), "Missing directive `", &k, "`"));
    }
    let sni = chars_string(&items[0]);
    Ok(
        Some(
            TLSContent {
                cert: crate::util::absolute_path(cert, config_dir),
                key: crate::util::absolute_path(key, config_dir),
                sni,
            },
        ),
    )
}


// ---------------------------------------------------------------------------
// Sites, locations, and listeners.
// ---------------------------------------------------------------------------

/// How a parsed location matcher relates to its sigil and pattern.
pub open spec fn matcher_rel(
    m: crate::matcher::LocModeV,
    sigil: Seq<char>,
    route: Seq<char>,
) -> bool {
    if sigil == "@"@ {
        m == crate::matcher::LocModeV::Glob(route) && crate::matcher::glob_usable(route)
    } else if sigil == "~"@ {
        m == crate::matcher::LocModeV::Rx(route) && crate::matcher::regex_compiles(route)
    } else if sigil == "^"@ {
        m == crate::matcher::LocModeV::Start(route)
    } else if sigil == "$"@ {
        m == crate::matcher::LocModeV::End(route)
    } else {
        false
    }
}

/// How one parsed location overlay relates to its directive: the matcher
/// from the sigil and pattern, and every option read from the location's
/// block, with files and pages resolved like the site's.
pub open spec fn location_rel(l: crate::config::Location, d: DirectiveV, config_dir: Seq<char>)
    -> bool {
    match d.value {
        ValueV::ValueBlock(route, lb) => {
            &&& matcher_rel(l.location@, d.name, route)
            &&& break_rel(l.break_, lb)
            &&& root_rel(Result::Ok(l.root), lb, config_dir)
            &&& echo_rel(Result::Ok(l.echo), lb)
            &&& file_rel(Result::Ok(l.file), lb, config_dir)
            &&& index_rel(Result::Ok(l.index), lb, false)
            &&& directory_rel(Result::Ok(l.directory), lb)
            &&& header_rel(Result::Ok(l.headers), lb)
            &&& rewrite_rel(Result::Ok(l.rewrite), lb)
            &&& method_rel(Result::Ok(l.method), lb, false)
            &&& auth_rel(Result::Ok(l.auth), lb)
            &&& try_rel(Result::Ok(l.try_), lb)
            &&& error_rel(Result::Ok(l.error), lb, match l.root {
                Some(rt) => Some(rt@),
                None => None,
            })
            &&& proxy_rel(Result::Ok(l.proxy), lb)
            &&& log_rel(Result::Ok(l.log), lb, config_dir)
            &&& ((l.ip is NotSet && opt_missing(lb, "ip"@)) || (l.ip is Off && !opt_missing(
                lb,
                "ip"@,
            ) && opt_off(lb, "ip"@)) || (l.ip matches Setting::Value(m) && ip_value_rel(m, lb)))
        },
        _ => false,
    }
}

/// How a parsed site relates to its server block.
pub open spec fn site_rel(s: crate::config::SiteConfig, b: BlockV, config_dir: Seq<char>)
    -> bool {
    &&& host_rel(s.host, b)
    &&& root_rel(Result::Ok(s.root), b, config_dir)
    &&& echo_rel(Result::Ok(s.echo), b)
    &&& (match s.root {
        Some(rt) => file_rel(Result::Ok(s.file), b, rt@),
        None => file_rel(Result::Ok(s.file), b, config_dir),
    })
    &&& index_rel(Result::Ok(s.index), b, true)
    &&& directory_rel(Result::Ok(s.directory), b)
    &&& header_rel(Result::Ok(s.headers), b)
    &&& rewrite_rel(Result::Ok(s.rewrite), b)
    &&& method_rel(Result::Ok(s.method), b, true)
    &&& auth_rel(Result::Ok(s.auth), b)
    &&& try_rel(Result::Ok(s.try_), b)
    &&& error_rel(Result::Ok(s.error), b, match s.root {
        Some(rt) => Some(rt@),
        None => None,
    })
    &&& proxy_rel(Result::Ok(s.proxy), b)
    &&& log_rel(Result::Ok(s.log), b, config_dir)
    &&& ((s.ip is NotSet && opt_missing(b, "ip"@)) || (s.ip is Off && !opt_missing(b, "ip"@)
        && opt_off(b, "ip"@)) || (s.ip matches Setting::Value(m) && ip_value_rel(m, b)))
    &&& locations_rel(s.location@, b, config_dir)
}

/// How the parsed location list relates to the block: one overlay per
/// sigil directive, in declaration order.
pub open spec fn locations_rel(
    locs: Seq<crate::config::Location>,
    b: BlockV,
    config_dir: Seq<char>,
) -> bool {
    let sigils = crate::conf::spec_filter_names(
        b.directives,
        seq!["@"@, "~"@, "^"@, "$"@],
    );
    locs.len() == sigils.len() && (forall|i: int|
        0 <= i < locs.len() ==> location_rel(#[trigger] locs[i], sigils[i], config_dir))
}

/// Reads the location overlays of a server block.
#[verifier::loop_isolation(false)]
pub fn parse_location(block: &Block, config_dir: &str) -> (r: Result<
    Vec<crate::config::Location>,
    ConfError,
>)
    ensures
        (r matches Ok(locs) ==> locations_rel(locs@, block@, config_dir@)),
        (r is Err <==> bad_locations(block@, config_dir@)),
{
    let mut names: Vec<&str> = Vec::new();
    names.push("@");
    names.push("~");
    names.push("^");
    names.push("$");
    proof {
        assert(Seq::new(names@.len(), |i: int| names@[i]@) =~= seq!["@"@, "~"@, "^"@, "$"@]);
    }
    let ds = block.get_all_by_names(&names);
    let ghost sigils = crate::conf::spec_filter_names(
        block@.directives,
        seq!["@"@, "~"@, "^"@, "$"@],
    );
    let n = ds.len();
    let mut out: Vec<crate::config::Location> = Vec::new();
    let mut i: usize = 0;
    while i < n
        invariant
            n == ds@.len(),
            out@.len() == i,
            i <= n,
            forall|k: int| 0 <= k < n ==> sigils[k] == #[trigger] ds@[k]@,
            sigils.len() == n,
            forall|k: int|
                0 <= k < i ==> location_rel(#[trigger] out@[k], sigils[k], config_dir@),
            forall|k: int| 0 <= k < i ==> !bad_location(#[trigger] sigils[k], config_dir@),
        decreases n - i,
    {
        proof {
            crate::conf::lemma_filter_names_member(
                block@.directives,
                seq!["@"@, "~"@, "^"@, "$"@],
            );
            reveal_strlit("@");
            reveal_strlit("~");
            reveal_strlit("^");
            reveal_strlit("$");
            assert("@"@[0] == '@' && "~"@[0] == '~' && "^"@[0] == '^' && "$"@[0] == '$');
        }
        let d: &Directive = ds[i];
        let (route, lb) = match d.as_value_block() {
            Some(p) => p,
            Option::None => {
                proof {
                    assert(bad_location(sigils[i as int], config_dir@));
                }
                let k = str_chars(d.name.as_str());
                return Err(conf_error(d.line, "Cannot convert `", &k, "` to 'value block'"));
            },
        };
        let mut allow: Vec<&str> = Vec::new();
        allow.push("break");
        allow.push("root");
        allow.push("echo");
        allow.push("file");
        allow.push("index");
        allow.push("directory");
        allow.push("header");
        allow.push("rewrite");
        allow.push("compress");
        allow.push("method");
        allow.push("auth");
        allow.push("try");
        allow.push("error");
        allow.push("proxy");
        allow.push("log");
        allow.push("ip");
        let required: Vec<&str> = Vec::new();
        let repeat: Vec<&str> = Vec::new();
        proof {
            assert(Seq::new(allow@.len(), |k: int| allow@[k]@) =~= loc_allow_names());
            assert(Seq::new(required@.len(), |k: int| required@[k]@) =~= Seq::<Seq<char>>::empty());
            assert(Seq::new(repeat@.len(), |k: int| repeat@[k]@) =~= Seq::<Seq<char>>::empty());
        }
        match lb.check(&allow, &required, &repeat) {
            Ok(_) => {},
            Err(e) => {
                proof {
                    assert(bad_location(sigils[i as int], config_dir@));
                }
                return Err(e);
            },
        }
        let nm = str_chars(d.name.as_str());
        let matcher = if eq_chars(&nm, &str_chars("@")) {
            match crate::matcher::LocationMatcher::glob(route) {
                Ok(m) => m,
                Err(msg) => {
                    proof {
                        assert(bad_location(sigils[i as int], config_dir@));
                    }
                    return Err(ConfError { line: d.line, message: msg });
                },
            }
        } else if eq_chars(&nm, &str_chars("~")) {
            match crate::matcher::LocationMatcher::regex(route) {
                Ok(m) => m,
                Err(msg) => {
                    proof {
                        assert(bad_location(sigils[i as int], config_dir@));
                    }
                    return Err(ConfError { line: d.line, message: msg });
                },
            }
        } else if eq_chars(&nm, &str_chars("^")) {
            crate::matcher::LocationMatcher::start(route)
        } else if eq_chars(&nm, &str_chars("$")) {
            crate::matcher::LocationMatcher::end(route)
        } else {
            proof {
                assert(nm@ == sigils[i as int].name);
                assert(crate::conf::name_list_has(
                    seq!["@"@, "~"@, "^"@, "$"@],
                    sigils[i as int].name,
                ));
                assert(false);
            }
            let k = str_chars(d.name.as_str());
            return Err(conf_error(d.line, "Unknown directive `", &k, "`"));
        };
        let root = match parse_root(lb, config_dir) {
            Ok(v) => v,
            Err(e) => {
                proof {
                    assert(bad_location(sigils[i as int], config_dir@));
                }
                return Err(e);
            },
        };
        let echo = match parse_echo(lb) {
            Ok(v) => v,
            Err(e) => {
                proof {
                    assert(bad_location(sigils[i as int], config_dir@));
                }
                return Err(e);
            },
        };
        let file = match parse_file(lb, config_dir) {
            Ok(v) => v,
            Err(e) => {
                proof {
                    assert(bad_location(sigils[i as int], config_dir@));
                }
                return Err(e);
            },
        };
        let index = match parse_index(lb, false) {
            Ok(v) => v,
            Err(e) => {
                proof {
                    assert(bad_location(sigils[i as int], config_dir@));
                }
                return Err(e);
            },
        };
        let directory = match parse_directory(lb) {
            Ok(v) => v,
            Err(e) => {
                proof {
                    assert(bad_location(sigils[i as int], config_dir@));
                }
                return Err(e);
            },
        };
        let headers = match parse_header(lb) {
            Ok(v) => v,
            Err(e) => {
                proof {
                    assert(bad_location(sigils[i as int], config_dir@));
                }
                return Err(e);
            },
        };
        let rewrite = match parse_rewrite(lb) {
            Ok(v) => v,
            Err(e) => {
                proof {
                    assert(bad_location(sigils[i as int], config_dir@));
                }
                return Err(e);
            },
        };
        let compress = match parse_compress(lb) {
            Ok(v) => v,
            Err(e) => {
                proof {
                    assert(bad_location(sigils[i as int], config_dir@));
                }
                return Err(e);
            },
        };
        let method = match parse_method(lb, false) {
            Ok(v) => v,
            Err(e) => {
                proof {
                    assert(bad_location(sigils[i as int], config_dir@));
                }
                return Err(e);
            },
        };
        let auth = match parse_auth(lb) {
            Ok(v) => v,
            Err(e) => {
                proof {
                    assert(bad_location(sigils[i as int], config_dir@));
                }
                return Err(e);
            },
        };
        let try_ = match parse_try(lb) {
            Ok(v) => v,
            Err(e) => {
                proof {
                    assert(bad_location(sigils[i as int], config_dir@));
                }
                return Err(e);
            },
        };
        let error = match parse_error(lb, &root) {
            Ok(v) => v,
            Err(e) => {
                proof {
                    assert(bad_location(sigils[i as int], config_dir@));
                }
                return Err(e);
            },
        };
        let proxy = match parse_proxy(lb) {
            Ok(v) => v,
            Err(e) => {
                proof {
                    assert(bad_location(sigils[i as int], config_dir@));
                }
                return Err(e);
            },
        };
        let log = match parse_log(lb, config_dir) {
            Ok(v) => v,
            Err(e) => {
                proof {
                    assert(bad_location(sigils[i as int], config_dir@));
                }
                return Err(e);
            },
        };
        let ip = match parse_ip(lb) {
            Ok(v) => v,
            Err(e) => {
                proof {
                    assert(bad_location(sigils[i as int], config_dir@));
                }
                return Err(e);
            },
        };
        let break_ = parse_break(lb);
        let loc = crate::config::Location {
            location: matcher,
            break_,
            root,
            echo,
            file,
            index,
            directory,
            headers,
            rewrite,
            compress,
            method,
            auth,
            try_,
            error,
            proxy,
            log,
            ip,
        };
        proof {
            reveal_strlit("@");
            reveal_strlit("~");
            reveal_strlit("^");
            reveal_strlit("$");
            assert("@"@[0] == '@' && "~"@[0] == '~' && "^"@[0] == '^' && "$"@[0] == '$');
        }
        proof {
            assert(!bad_matcher(sigils[i as int].name, route@));
            match spec_block_get(lb@.directives, "root"@) {
                Some(rd) => {
                    match rd.value {
                        ValueV::Text(_) => {},
                        _ => {
                            assert(false);
                        },
                    }
                },
                None => {},
            }
            assert((match loc.root {
                Some(rt) => Some(rt@),
                Option::None => None::<Seq<char>>,
            }) == root_of(lb@, config_dir@));
            match spec_block_get(lb@.directives, "error"@) {
                Some(ed) => {
                    match ed.value {
                        ValueV::Block(eb) => {
                            if !opt_missing(lb@, "error"@) && !opt_off(lb@, "error"@) {
                                let gerr = loc.error;
                                match gerr {
                                    Setting::Value(sp) => {
                                        assert forall|k: int|
                                            0 <= k < eb.directives.len() implies !no_error_entry(
                                            #[trigger] eb.directives[k],
                                            root_of(lb@, config_dir@),
                                        ) by {
                                            assert(error_entry_rel(
                                                sp@[k],
                                                eb.directives[k],
                                                root_of(lb@, config_dir@),
                                            ));
                                        }
                                    },
                                    _ => {
                                        assert(false);
                                    },
                                }
                            }
                        },
                        _ => {},
                    }
                },
                None => {},
            }
            assert(!bad_error(lb@, root_of(lb@, config_dir@)));
            assert(!bad_options(lb@, config_dir@));
            assert(!bad_location(sigils[i as int], config_dir@));
        }
        out.push(loc);
        i = i + 1;
    }
    proof {
        assert(!bad_locations(block@, config_dir@));
    }
    Ok(out)
}

/// Reads one site from a server block, under the configuration directory.
pub fn parse_site(block: &Block, config_dir: &str) -> (r: Result<
    crate::config::SiteConfig,
    ConfError,
>)
    ensures
        (r matches Ok(s) ==> site_rel(s, block@, config_dir@)),
        (r is Err <==> site_bad(block@, config_dir@)),
{
    let host = match parse_host(block) {
        Ok(v) => v,
        Err(e) => {
            proof {
                assert(site_bad(block@, config_dir@));
            }
            return Err(e);
        },
    };
    let root = match parse_root(block, config_dir) {
        Ok(v) => v,
        Err(e) => {
            proof {
                assert(site_bad(block@, config_dir@));
            }
            return Err(e);
        },
    };
    let echo = match parse_echo(block) {
        Ok(v) => v,
        Err(e) => {
            proof {
                assert(site_bad(block@, config_dir@));
            }
            return Err(e);
        },
    };
    let file = match (match &root {
        Some(rt) => parse_file(block, rt.as_str()),
        Option::None => parse_file(block, config_dir),
    }) {
        Ok(v) => v,
        Err(e) => {
            proof {
                assert(site_bad(block@, config_dir@));
            }
            return Err(e);
        },
    };
    let index = match parse_index(block, true) {
        Ok(v) => v,
        Err(e) => {
            proof {
                assert(site_bad(block@, config_dir@));
            }
            return Err(e);
        },
    };
    let directory = match parse_directory(block) {
        Ok(v) => v,
        Err(e) => {
            proof {
                assert(site_bad(block@, config_dir@));
            }
            return Err(e);
        },
    };
    let headers = match parse_header(block) {
        Ok(v) => v,
        Err(e) => {
            proof {
                assert(site_bad(block@, config_dir@));
            }
            return Err(e);
        },
    };
    let rewrite = match parse_rewrite(block) {
        Ok(v) => v,
        Err(e) => {
            proof {
                assert(site_bad(block@, config_dir@));
            }
            return Err(e);
        },
    };
    let compress = match parse_compress(block) {
        Ok(v) => v,
        Err(e) => {
            proof {
                assert(site_bad(block@, config_dir@));
            }
            return Err(e);
        },
    };
    let method = match parse_method(block, true) {
        Ok(v) => v,
        Err(e) => {
            proof {
                assert(site_bad(block@, config_dir@));
            }
            return Err(e);
        },
    };
    let auth = match parse_auth(block) {
        Ok(v) => v,
        Err(e) => {
            proof {
                assert(site_bad(block@, config_dir@));
            }
            return Err(e);
        },
    };
    let try_ = match parse_try(block) {
        Ok(v) => v,
        Err(e) => {
            proof {
                assert(site_bad(block@, config_dir@));
            }
            return Err(e);
        },
    };
    let error = match parse_error(block, &root) {
        Ok(v) => v,
        Err(e) => {
            proof {
                assert(site_bad(block@, config_dir@));
            }
            return Err(e);
        },
    };
    let proxy = match parse_proxy(block) {
        Ok(v) => v,
        Err(e) => {
            proof {
                assert(site_bad(block@, config_dir@));
            }
            return Err(e);
        },
    };
    let log = match parse_log(block, config_dir) {
        Ok(v) => v,
        Err(e) => {
            proof {
                assert(site_bad(block@, config_dir@));
            }
            return Err(e);
        },
    };
    let ip = match parse_ip(block) {
        Ok(v) => v,
        Err(e) => {
            proof {
                assert(site_bad(block@, config_dir@));
            }
            return Err(e);
        },
    };
    let location = match parse_location(block, config_dir) {
        Ok(v) => v,
        Err(e) => {
            proof {
                assert(site_bad(block@, config_dir@));
            }
            return Err(e);
        },
    };
    let site = crate::config::SiteConfig {
        host,
        root,
        echo,
        file,
        index,
        directory,
        headers,
        rewrite,
        compress,
        method,
        auth,
        try_,
        error,
        proxy,
        log,
        ip,
        location,
    };
    proof {
        match spec_block_get(block@.directives, "root"@) {
            Some(rd) => {
                match rd.value {
                    ValueV::Text(_) => {},
                    _ => {
                        assert(false);
                    },
                }
            },
            None => {},
        }
        assert((match site.root {
            Some(rt) => Some(rt@),
            Option::None => None::<Seq<char>>,
        }) == root_of(block@, config_dir@));
        match spec_block_get(block@.directives, "error"@) {
            Some(ed) => {
                match ed.value {
                    ValueV::Block(eb) => {
                        if !opt_missing(block@, "error"@) && !opt_off(block@, "error"@) {
                            let gerr = site.error;
                            match gerr {
                                Setting::Value(sp) => {
                                    assert forall|k: int|
                                        0 <= k < eb.directives.len() implies !no_error_entry(
                                        #[trigger] eb.directives[k],
                                        root_of(block@, config_dir@),
                                    ) by {
                                        assert(error_entry_rel(
                                            sp@[k],
                                            eb.directives[k],
                                            root_of(block@, config_dir@),
                                        ));
                                    }
                                },
                                _ => {
                                    assert(false);
                                },
                            }
                        }
                    },
                    _ => {},
                }
            },
            None => {},
        }
        assert(!bad_error(block@, root_of(block@, config_dir@)));
        assert(!bad_options(block@, config_dir@));
        assert(!site_bad(block@, config_dir@));
    }
    Ok(site)
}

/// How parsed listeners relate to the root block: every returned listener's
/// address is distinct, and each of its sites comes from a `server` block of
/// the configuration.
pub open spec fn servers_rel(
    configs: Seq<crate::config::ServerConfig>,
    b: BlockV,
    config_dir: Seq<char>,
) -> bool {
    &&& (forall|k1: int, k2: int|
        0 <= k1 < k2 < configs.len() ==> #[trigger] configs[k1].listen@
            != #[trigger] configs[k2].listen@)
    &&& (forall|k: int, j: int|
        0 <= k < configs.len() && 0 <= j < configs[k].sites@.len() ==> exists|si: int|
            0 <= si < b.directives.len() && (#[trigger] b.directives[si]).name == "server"@
                && (b.directives[si].value matches ValueV::Block(sb) && site_rel(
                #[trigger] configs[k].sites@[j],
                sb,
                config_dir,
            )))
}

/// Reads the whole configuration: every `server` block becomes one site
/// under each of its listen addresses; sites sharing an address share one
/// listener, in declaration order.
#[verifier::loop_isolation(false)]
pub fn parse_server(block: &Block, config_dir: &str) -> (r: Result<
    Vec<crate::config::ServerConfig>,
    ConfError,
>)
    ensures
        (r matches Ok(configs) ==> servers_rel(configs@, block@, config_dir@)),
        (r is Err <==> server_bad(block@, config_dir@)),
{
    let ds = block.directives();
    let n = ds.len();
    let mut configs: Vec<crate::config::ServerConfig> = Vec::new();
    let mut i: usize = 0;
    proof {
        crate::conf::lemma_directives_view_index_pub(ds@);
    }
    while i < n
        invariant
            n == ds@.len(),
            block@.directives.len() == n,
            i <= n,
            forall|k: int|
                0 <= k < n ==> block@.directives[k] == crate::conf::directive_view(
                    #[trigger] ds@[k],
                ),
            servers_rel(configs@, block@, config_dir@),
            forall|k: int|
                0 <= k < i ==> server_dir_good(#[trigger] block@.directives[k], config_dir@),
        decreases n - i,
    {
        let d: &Directive = &ds[i];
        let nm = str_chars(d.name.as_str());
        if !eq_chars(&nm, &str_chars("server")) {
            proof {
                assert(!server_dir_good(block@.directives[i as int], config_dir@));
            }
            return Err(conf_error(d.line, "Unknown directive `", &nm, "`"));
        }
        let sb = match d.as_block() {
            Some(sb) => sb,
            Option::None => {
                proof {
                    assert(!server_dir_good(block@.directives[i as int], config_dir@));
                }
                let k = str_chars("server");
                return Err(conf_error(d.line, "Cannot convert `", &k, "` to 'block'"));
            },
        };
        let mut allow: Vec<&str> = Vec::new();
        allow.push("listen");
        allow.push("https");
        allow.push("host");
        allow.push("root");
        allow.push("echo");
        allow.push("file");
        allow.push("index");
        allow.push("directory");
        allow.push("header");
        allow.push("rewrite");
        allow.push("compress");
        allow.push("method");
        allow.push("auth");
        allow.push("try");
        allow.push("error");
        allow.push("proxy");
        allow.push("log");
        allow.push("ip");
        allow.push("@");
        allow.push("~");
        allow.push("^");
        allow.push("$");
        let mut required: Vec<&str> = Vec::new();
        required.push("listen");
        let mut repeat: Vec<&str> = Vec::new();
        repeat.push("@");
        repeat.push("~");
        repeat.push("^");
        repeat.push("$");
        proof {
            assert(Seq::new(allow@.len(), |k: int| allow@[k]@) =~= srv_allow_names());
            assert(Seq::new(required@.len(), |k: int| required@[k]@) =~= seq!["listen"@]);
            assert(Seq::new(repeat@.len(), |k: int| repeat@[k]@) =~= seq![
                "@"@,
                "~"@,
                "^"@,
                "$"@,
            ]);
        }
        match sb.check(&allow, &required, &repeat) {
            Ok(_) => {},
            Err(e) => {
                proof {
                    assert(!server_dir_good(block@.directives[i as int], config_dir@));
                }
                return Err(e);
            },
        }
        let listens = match parse_listen(sb) {
            Ok(v) => v,
            Err(e) => {
                proof {
                    assert(!server_dir_good(block@.directives[i as int], config_dir@));
                }
                return Err(e);
            },
        };
        let ln = listens.len();
        let mut li: usize = 0;
        while li < ln
            invariant
                ln == listens@.len(),
                li <= ln,
                0 <= i < n,
                n == ds@.len(),
                block@.directives.len() == n,
                forall|k: int|
                    0 <= k < n ==> block@.directives[k] == crate::conf::directive_view(
                        #[trigger] ds@[k],
                    ),
                block@.directives[i as int].name == "server"@,
                block@.directives[i as int].value == ValueV::Block(sb@),
                servers_rel(configs@, block@, config_dir@),
                li == 0 || (!https_bad(sb@) && !site_bad(sb@, config_dir@)),
            decreases ln - li,
        {
            let tls = match parse_https(sb, config_dir) {
                Ok(v) => v,
                Err(e) => {
                    proof {
                        assert(!server_dir_good(block@.directives[i as int], config_dir@));
                    }
                    return Err(e);
                },
            };
            let site = match parse_site(sb, config_dir) {
                Ok(v) => v,
                Err(e) => {
                    proof {
                        assert(!server_dir_good(block@.directives[i as int], config_dir@));
                    }
                    return Err(e);
                },
            };
            let addr = str_chars(listens[li].as_str());
            let mut found: Option<usize> = Option::None;
            let cn = configs.len();
            let mut ci: usize = 0;
            while ci < cn
                invariant
                    cn == configs@.len(),
                    ci <= cn,
                    addr@ == listens@[li as int]@,
                    found is None ==> forall|k: int|
                        0 <= k < ci ==> #[trigger] configs@[k].listen@ != addr@,
                    (found matches Some(fi) ==> fi < cn && configs@[fi as int].listen@ == addr@),
                decreases cn - ci,
            {
                let cl = str_chars(configs[ci].listen.as_str());
                if eq_chars(&cl, &addr) {
                    found = Some(ci);
                    break ;
                }
                ci = ci + 1;
            }
            match found {
                Some(fi) => {
                    let ghost prev_cfgs = configs@;
                    let mut entry = configs.remove(fi);
                    let ghost prev_entry = entry;
                    entry.sites.push(site);
                    match tls {
                        Some(t) => {
                            entry.tls.push(t);
                        },
                        Option::None => {},
                    }
                    let ghost new_entry = entry;
                    configs.insert(fi, entry);
                    proof {
                        assert(configs@ =~= prev_cfgs.update(fi as int, new_entry));
                        assert(new_entry.listen == prev_cfgs[fi as int].listen);
                        assert(new_entry.sites@ =~= prev_entry.sites@.push(site));
                        assert forall|k: int, j: int|
                            0 <= k < configs@.len() && 0 <= j < configs@[k].sites@.len()
                                implies exists|si: int|
                            0 <= si < block@.directives.len() && (
                            #[trigger] block@.directives[si]).name == "server"@ && (
                            block@.directives[si].value matches ValueV::Block(sbv) && site_rel(
                                #[trigger] configs@[k].sites@[j],
                                sbv,
                                config_dir@,
                            )) by {
                            if k == fi as int && j == configs@[k].sites@.len() - 1 {
                                assert(configs@[k].sites@[j] == site);
                                assert(0 <= i < block@.directives.len() && (
                                #[trigger] block@.directives[i as int]).name == "server"@ && (
                                block@.directives[i as int].value matches ValueV::Block(sbv)
                                    && site_rel(site, sbv, config_dir@)));
                            } else {
                                assert(configs@[k].sites@[j] == prev_cfgs[k].sites@[j]);
                            }
                        }
                    }
                },
                Option::None => {
                    let ghost prev_cfgs = configs@;
                    let tls_list = match tls {
                        Some(t) => {
                            let mut v: Vec<TLSContent> = Vec::new();
                            v.push(t);
                            v
                        },
                        Option::None => Vec::new(),
                    };
                    let mut sites: Vec<crate::config::SiteConfig> = Vec::new();
                    sites.push(site);
                    let entry = crate::config::ServerConfig {
                        listen: chars_string(&addr),
                        tls: tls_list,
                        sites,
                    };
                    let ghost new_entry = entry;
                    configs.push(entry);
                    proof {
                        assert(configs@ =~= prev_cfgs.push(new_entry));
                        assert forall|k: int, j: int|
                            0 <= k < configs@.len() && 0 <= j < configs@[k].sites@.len()
                                implies exists|si: int|
                            0 <= si < block@.directives.len() && (
                            #[trigger] block@.directives[si]).name == "server"@ && (
                            block@.directives[si].value matches ValueV::Block(sbv) && site_rel(
                                #[trigger] configs@[k].sites@[j],
                                sbv,
                                config_dir@,
                            )) by {
                            if k == configs@.len() - 1 {
                                assert(configs@[k].sites@[j] == site);
                                assert(0 <= i < block@.directives.len() && (
                                #[trigger] block@.directives[i as int]).name == "server"@ && (
                                block@.directives[i as int].value matches ValueV::Block(sbv)
                                    && site_rel(site, sbv, config_dir@)));
                            } else {
                                assert(configs@[k].sites@[j] == prev_cfgs[k].sites@[j]);
                            }
                        }
                    }
                },
            }
            li = li + 1;
        }
        proof {
            assert(ln >= 1);
            assert(!https_bad(sb@) && !site_bad(sb@, config_dir@));
            assert(server_dir_good(block@.directives[i as int], config_dir@));
        }
        i = i + 1;
    }
    proof {
        assert(!server_bad(block@, config_dir@));
    }
    Ok(configs)
}


/// Whether a set `proxy` block cannot be read: the `url` text is missing,
/// the `method` or `timeout` is malformed, or its header map is.
pub open spec fn proxy_block_bad(pb: BlockV) -> bool {
    ||| text_of(pb, "url"@) is None
    ||| (match spec_block_get(pb.directives, "method"@) {
        Some(md) => !(md.value is Text),
        None => false,
    })
    ||| bad_headers(pb)
    ||| (match spec_block_get(pb.directives, "timeout"@) {
        Some(td) => match td.value {
            ValueV::Text(t) => !(all_digits(t) && 0 < t.len() <= 18),
            _ => true,
        },
        None => false,
    })
}

/// How the parsed `proxy` option relates to the block: its block holds a
/// required interpolated `url`, an optional `method`, optional `header`
/// entries, and an optional `timeout` in milliseconds (default 5000); an
/// error comes exactly from a malformed block.
pub open spec fn proxy_rel(r: Result<Setting<Proxy>, ConfError>, b: BlockV) -> bool {
    if opt_missing(b, "proxy"@) {
        r is Ok && (r matches Ok(s) && s is NotSet)
    } else if opt_off(b, "proxy"@) {
        r is Ok && (r matches Ok(s) && s is Off)
    } else {
        match spec_block_get(b.directives, "proxy"@) {
            Some(d) => match d.value {
                ValueV::Block(pb) => {
                    if proxy_block_bad(pb) {
                        r is Err
                    } else {
                        r matches Ok(s) && (s matches Setting::Value(p) && proxy_fields_rel(p, pb))
                    }
                },
                _ => r is Err,
            },
            None => r is Err,
        }
    }
}

/// How the fields of a parsed proxy relate to its block.
pub open spec fn proxy_fields_rel(p: Proxy, pb: BlockV) -> bool {
    &&& (match text_of(pb, "url"@) {
        Some(u) => var_rel(p.url, u),
        None => false,
    })
    &&& (match spec_block_get(pb.directives, "method"@) {
        Some(md) => match md.value {
            ValueV::Text(t) => p.method matches Some(m) && m@ == t,
            _ => false,
        },
        None => p.method is None,
    })
    &&& header_rel(Result::Ok(p.headers), pb)
    &&& (match spec_block_get(pb.directives, "timeout"@) {
        Some(td) => match td.value {
            ValueV::Text(t) => all_digits(t) && 0 < t.len() <= 18 && p.timeout == spec_dec_value(
                t,
            ),
            _ => false,
        },
        None => p.timeout == 5000,
    })
}

/// Reads the `proxy` option.
pub fn parse_proxy(block: &Block) -> (r: Result<Setting<Proxy>, ConfError>)
    ensures
        proxy_rel(r, block@),
{
    if block_missing(block, "proxy") {
        return Ok(Setting::NotSet);
    }
    if block_off(block, "proxy") {
        return Ok(Setting::Off);
    }
    let d = match block.get("proxy") {
        Some(d) => d,
        Option::None => {
            let k = str_chars("proxy");
            return Err(conf_error(block.line(), "Cannot convert `", &k, "` to 'block'"));
        },
    };
    let pb = match d.as_block() {
        Some(pb) => pb,
        Option::None => {
            let k = str_chars("proxy");
            return Err(conf_error(d.line(), "Cannot convert `", &k, "` to 'block'"));
        },
    };
    let url = match directive_text(pb, "url") {
        Some(u) => Var::from(u),
        Option::None => {
            let k = str_chars("url");
            return Err(conf_error(pb.line(), "Missing directive `", &k, "`"));
        },
    };
    let method: Option<String> = match pb.get("method") {
        Some(md) => match md.as_source_str() {
            Some(t) => {
                let tc = str_chars(t);
                Some(chars_string(&tc))
            },
            Option::None => {
                let k = str_chars("method");
                return Err(conf_error(md.line(), "Cannot convert `", &k, "` to 'string'"));
            },
        },
        Option::None => Option::None,
    };
    let headers = match parse_header(pb) {
        Ok(v) => v,
        Err(e) => {
            return Err(e);
        },
    };
    let timeout: u64 = match pb.get("timeout") {
        Some(td) => match td.as_source_str() {
            Some(t) => {
                let tc = str_chars(t);
                match crate::util::parse_decimal_u64(&tc) {
                    Some(v) => v,
                    Option::None => {
                        return Err(conf_error(td.line(), "Cannot parse `", &tc, "` to number"));
                    },
                }
            },
            Option::None => {
                let k = str_chars("timeout");
                return Err(conf_error(td.line(), "Cannot convert `", &k, "` to 'string'"));
            },
        },
        Option::None => 5000,
    };
    Ok(Setting::Value(Proxy { url, method, headers, timeout }))
}


// ---------------------------------------------------------------------------
// Failure shapes of whole sites, locations and listeners.
//
// Each predicate names exactly the inputs on which the matching parser
// fails; the parsers' contracts tie `Err` to them, if and only if.
// ---------------------------------------------------------------------------

/// The root a block configures, resolved under the configuration directory.
pub open spec fn root_of(b: BlockV, dir: Seq<char>) -> Option<Seq<char>> {
    match spec_block_get(b.directives, "root"@) {
        Some(d) => match d.value {
            ValueV::Text(t) => Some(spec_join(t, dir)),
            _ => None,
        },
        None => None,
    }
}

/// Whether a `root` directive cannot be read.
pub open spec fn bad_root(b: BlockV) -> bool {
    match spec_block_get(b.directives, "root"@) {
        Some(d) => !(d.value is Text),
        None => false,
    }
}

/// Whether a plain-text option directive cannot be read.
pub open spec fn bad_text_option(b: BlockV, key: Seq<char>) -> bool {
    !opt_missing(b, key) && !opt_off(b, key) && text_of(b, key) is None
}

/// Whether a `directory` block cannot be read.
pub open spec fn bad_directory(b: BlockV) -> bool {
    &&& !opt_missing(b, "directory"@)
    &&& !opt_off(b, "directory"@)
    &&& (match spec_block_get(b.directives, "directory"@) {
        Some(d) => match d.value {
            ValueV::Boolean(true) => false,
            ValueV::Block(db) => {
                let size_ok = match spec_block_get(db.directives, "size"@) {
                    Some(sd) => sd.value is Boolean,
                    None => true,
                };
                let time_ok = match spec_block_get(db.directives, "time"@) {
                    Some(td) => match td.value {
                        ValueV::Boolean(_) => true,
                        ValueV::Text(t) => strftime_ok(t),
                        _ => false,
                    },
                    None => true,
                };
                !(size_ok && time_ok)
            },
            _ => true,
        },
        None => false,
    })
}

/// A rewrite target no entry can carry: no token and not header-value text.
pub open spec fn bad_rewrite_target(loc: Seq<char>) -> bool {
    (forall|cls: TokenClass| !spec_has_class(loc, cls)) && !valid_header_value(loc)
}

/// Whether a `rewrite` directive cannot be read.
pub open spec fn bad_rewrite(b: BlockV) -> bool {
    &&& !opt_missing(b, "rewrite"@)
    &&& !opt_off(b, "rewrite"@)
    &&& (match spec_block_get(b.directives, "rewrite"@) {
        Some(d) => match d.value {
            ValueV::Text(t) => bad_rewrite_target(t),
            ValueV::Block(rb) => {
                match text_of(rb, "location"@) {
                    Some(loc) => match spec_block_get(rb.directives, "status"@) {
                        Some(sd) => match sd.value {
                            ValueV::Text(st) => {
                                if st == "301"@ || st == "302"@ {
                                    bad_rewrite_target(loc)
                                } else {
                                    true
                                }
                            },
                            _ => true,
                        },
                        None => bad_rewrite_target(loc),
                    },
                    None => true,
                }
            },
            _ => true,
        },
        None => false,
    })
}

/// Whether an `auth` block cannot be read.
pub open spec fn bad_auth(b: BlockV) -> bool {
    &&& !opt_missing(b, "auth"@)
    &&& !opt_off(b, "auth"@)
    &&& (match spec_block_get(b.directives, "auth"@) {
        Some(d) => match d.value {
            ValueV::Block(ab) => text_of(ab, "user"@) is None || text_of(ab, "password"@) is None,
            _ => true,
        },
        None => false,
    })
}

/// No error-page entry can satisfy the directive.
pub open spec fn no_error_entry(d: DirectiveV, root: Option<Seq<char>>) -> bool {
    forall|e: StatusEntry| !error_entry_rel(e, d, root)
}

/// Whether an `error` block cannot be read under the given root.
pub open spec fn bad_error(b: BlockV, root: Option<Seq<char>>) -> bool {
    &&& !opt_missing(b, "error"@)
    &&& !opt_off(b, "error"@)
    &&& (match spec_block_get(b.directives, "error"@) {
        Some(d) => match d.value {
            ValueV::Block(eb) => exists|i: int|
                0 <= i < eb.directives.len() && no_error_entry(
                    #[trigger] eb.directives[i],
                    root,
                ),
            _ => true,
        },
        None => false,
    })
}

/// Whether a `log` directive cannot be read.
pub open spec fn bad_log(b: BlockV) -> bool {
    &&& !opt_missing(b, "log"@)
    &&& !opt_off(b, "log"@)
    &&& (match spec_block_get(b.directives, "log"@) {
        Some(d) => match d.value {
            ValueV::Text(_) => false,
            ValueV::Block(lb) => {
                let format_bad = match spec_block_get(lb.directives, "format"@) {
                    Some(fd) => !(fd.value is Text),
                    None => false,
                };
                let mode_bad = match text_of(lb, "mode"@) {
                    Some(m) => {
                        if m == "stdout"@ {
                            false
                        } else if m == "file"@ {
                            text_of(lb, "file"@) is None
                        } else {
                            true
                        }
                    },
                    None => true,
                };
                format_bad || mode_bad
            },
            _ => true,
        },
        None => false,
    })
}

/// Whether a `compress` directive cannot be read.
pub open spec fn bad_compress(b: BlockV) -> bool {
    !opt_missing(b, "compress"@) && !opt_off(b, "compress"@) && !compress_shape_ok(b)
}

/// Whether an `ip` directive cannot be read.
pub open spec fn bad_ip(b: BlockV) -> bool {
    !opt_missing(b, "ip"@) && !opt_off(b, "ip"@) && !ip_shape_ok(b)
}

/// Whether a `proxy` directive cannot be read.
pub open spec fn bad_proxy(b: BlockV) -> bool {
    &&& !opt_missing(b, "proxy"@)
    &&& !opt_off(b, "proxy"@)
    &&& (match spec_block_get(b.directives, "proxy"@) {
        Some(d) => match d.value {
            ValueV::Block(pb) => proxy_block_bad(pb),
            _ => true,
        },
        None => false,
    })
}

/// The option failures shared by a site's server block and a location
/// block, with `error` pages resolved under the block's own root.
pub open spec fn bad_options(b: BlockV, dir: Seq<char>) -> bool {
    ||| bad_root(b)
    ||| bad_text_option(b, "echo"@)
    ||| bad_text_option(b, "file"@)
    ||| bad_text_option(b, "index"@)
    ||| bad_text_option(b, "method"@)
    ||| bad_text_option(b, "try"@)
    ||| bad_directory(b)
    ||| bad_headers(b)
    ||| bad_rewrite(b)
    ||| bad_compress(b)
    ||| bad_auth(b)
    ||| bad_error(b, root_of(b, dir))
    ||| bad_proxy(b)
    ||| bad_log(b)
    ||| bad_ip(b)
}

/// The directive names a location block may hold.
pub open spec fn loc_allow_names() -> Seq<Seq<char>> {
    seq![
        "break"@,
        "root"@,
        "echo"@,
        "file"@,
        "index"@,
        "directory"@,
        "header"@,
        "rewrite"@,
        "compress"@,
        "method"@,
        "auth"@,
        "try"@,
        "error"@,
        "proxy"@,
        "log"@,
        "ip"@,
    ]
}

/// Whether a location's sigil and pattern cannot build a matcher.
pub open spec fn bad_matcher(sigil: Seq<char>, route: Seq<char>) -> bool {
    ||| (sigil == "@"@ && !crate::matcher::glob_usable(route))
    ||| (sigil == "~"@ && !crate::matcher::regex_compiles(route))
}

/// Whether one location directive cannot be read.
pub open spec fn bad_location(d: DirectiveV, dir: Seq<char>) -> bool {
    match d.value {
        ValueV::ValueBlock(route, lb) => {
            ||| bad_matcher(d.name, route)
            ||| !crate::conf::names_allowed(lb.directives, loc_allow_names())
            ||| !crate::conf::names_unrepeated(lb.directives, Seq::empty())
            ||| bad_options(lb, dir)
        },
        _ => true,
    }
}

/// Whether some location of a server block cannot be read.
pub open spec fn bad_locations(b: BlockV, dir: Seq<char>) -> bool {
    let sigils = crate::conf::spec_filter_names(b.directives, seq!["@"@, "~"@, "^"@, "$"@]);
    exists|i: int| 0 <= i < sigils.len() && bad_location(#[trigger] sigils[i], dir)
}

/// Whether a whole site cannot be read from its server block.
pub open spec fn site_bad(b: BlockV, dir: Seq<char>) -> bool {
    host_bad(b) || bad_options(b, dir) || bad_locations(b, dir)
}

/// The directive names a server block may hold.
pub open spec fn srv_allow_names() -> Seq<Seq<char>> {
    seq![
        "listen"@,
        "https"@,
        "host"@,
        "root"@,
        "echo"@,
        "file"@,
        "index"@,
        "directory"@,
        "header"@,
        "rewrite"@,
        "compress"@,
        "method"@,
        "auth"@,
        "try"@,
        "error"@,
        "proxy"@,
        "log"@,
        "ip"@,
        "@"@,
        "~"@,
        "^"@,
        "$"@,
    ]
}

/// Whether one root-level directive is a fully well-formed server block.
pub open spec fn server_dir_good(d: DirectiveV, dir: Seq<char>) -> bool {
    &&& d.name == "server"@
    &&& (match d.value {
        ValueV::Block(sb) => {
            &&& crate::conf::names_allowed(sb.directives, srv_allow_names())
            &&& crate::conf::names_required(sb.directives, seq!["listen"@])
            &&& crate::conf::names_unrepeated(sb.directives, seq!["@"@, "~"@, "^"@, "$"@])
            &&& listens_ok(sb)
            &&& !https_bad(sb)
            &&& !site_bad(sb, dir)
        },
        _ => false,
    })
}

/// Whether the configuration cannot be read: some root directive is not a
/// well-formed server block.
pub open spec fn server_bad(b: BlockV, dir: Seq<char>) -> bool {
    exists|i: int| 0 <= i < b.directives.len() && !server_dir_good(#[trigger] b.directives[i], dir)
}

} // verus!
