use crate::request::{spec_header_value, spec_query_param, RequestInfo, RequestInfoV};
use crate::util::{
    concat_chars, decimal_chars, eq_chars, find_char_from, seq_has_char, slice_chars, starts_with,
    starts_with_exec, str_chars, chars_string, spec_decimal,
};
use crate::wildcard::{first_index_from, lemma_first_index_from};
use vstd::prelude::*;

verus! {

// ---------------------------------------------------------------------------
// The token grammar.
//
// A variable token is `${` followed by a recognized name and `}`. Names are
// either one of seven fixed request properties, or `request_query_NAME` /
// `request_header_NAME` with a non-empty NAME of word characters.
// ---------------------------------------------------------------------------

/// The class of one recognized token.
#[derive(Debug, Clone, Copy)]
pub enum TokenClass {
    Scheme,
    Host,
    Port,
    Path,
    Query,
    Uri,
    Method,
    QueryKey,
    HeaderKey,
}

/// A character allowed in a query-parameter or header name inside a token.
pub open spec fn is_name_char(c: char) -> bool {
    ('a' <= c <= 'z') || ('A' <= c <= 'Z') || ('0' <= c <= '9') || c == '_' || c == '-' || c == '|'
}

/// A non-empty run of name characters.
pub open spec fn valid_name(s: Seq<char>) -> bool {
    s.len() > 0 && forall|i: int| 0 <= i < s.len() ==> is_name_char(#[trigger] s[i])
}

/// The class of the text between `${` and `}`, if recognized.
pub open spec fn spec_token_class(content: Seq<char>) -> Option<TokenClass> {
    if content == "request_scheme"@ {
        Some(TokenClass::Scheme)
    } else if content == "request_host"@ {
        Some(TokenClass::Host)
    } else if content == "request_port"@ {
        Some(TokenClass::Port)
    } else if content == "request_path"@ {
        Some(TokenClass::Path)
    } else if content == "request_query"@ {
        Some(TokenClass::Query)
    } else if content == "request_uri"@ {
        Some(TokenClass::Uri)
    } else if content == "request_method"@ {
        Some(TokenClass::Method)
    } else if starts_with(content, "request_query_"@) && valid_name(
        content.skip("request_query_"@.len() as int),
    ) {
        Some(TokenClass::QueryKey)
    } else if starts_with(content, "request_header_"@) && valid_name(
        content.skip("request_header_"@.len() as int),
    ) {
        Some(TokenClass::HeaderKey)
    } else {
        None
    }
}

/// The query part of a request target: `?` plus the raw query, or empty.
pub open spec fn spec_query_full(q: Option<Seq<char>>) -> Seq<char> {
    match q {
        Some(qq) => seq!['?'] + qq,
        None => seq![],
    }
}

/// What a recognized token expands to, given the request.
pub open spec fn spec_token_value(content: Seq<char>, req: RequestInfoV) -> Seq<char> {
    match spec_token_class(content) {
        Some(TokenClass::Scheme) => req.scheme,
        Some(TokenClass::Host) => req.host,
        Some(TokenClass::Port) => spec_decimal(req.port as int),
        Some(TokenClass::Path) => req.path,
        Some(TokenClass::Query) => spec_query_full(req.query),
        Some(TokenClass::Uri) => req.path + spec_query_full(req.query),
        Some(TokenClass::Method) => req.method,
        Some(TokenClass::QueryKey) => match req.query {
            Some(q) => spec_query_param(q, content.skip("request_query_"@.len() as int)),
            None => seq![],
        },
        Some(TokenClass::HeaderKey) => spec_header_value(
            req.headers,
            content.skip("request_header_"@.len() as int),
        ),
        None => seq![],
    }
}

/// The expansion of a template: a single left-to-right scan; at each `${`
/// whose content up to the next `}` is recognized, the token is replaced,
/// and every other character is kept.
pub open spec fn spec_expand(s: Seq<char>, req: RequestInfoV) -> Seq<char>
    decreases s.len(),
{
    if s.len() == 0 {
        seq![]
    } else if s.len() >= 2 && s[0] == '$' && s[1] == '{' && {
        let j = first_index_from(s, 2, '}');
        2 <= j < s.len() && spec_token_class(s.subrange(2, j)) is Some
    } {
        let j = first_index_from(s, 2, '}');
        spec_token_value(s.subrange(2, j), req) + spec_expand(s.skip(j + 1), req)
    } else {
        seq![s[0]] + spec_expand(s.skip(1), req)
    }
}

fn name_chars_ok(s: &Vec<char>) -> (r: bool)
    ensures
        r == valid_name(s@),
{
    if s.len() == 0 {
        return false;
    }
    let n = s.len();
    let mut i: usize = 0;
    while i < n
        invariant
            n == s@.len(),
            i <= n,
            forall|j: int| 0 <= j < i ==> is_name_char(#[trigger] s@[j]),
        decreases n - i,
    {
        let c = s[i];
        let ok = ('a' <= c && c <= 'z') || ('A' <= c && c <= 'Z') || ('0' <= c && c <= '9') || c
            == '_' || c == '-' || c == '|';
        if !ok {
            return false;
        }
        i = i + 1;
    }
    true
}

fn token_class_of(content: &Vec<char>) -> (r: Option<TokenClass>)
    ensures
        match r {
            Some(cls) => spec_token_class(content@) == Some(cls),
            None => spec_token_class(content@) is None,
        },
{
    if eq_chars(content, &str_chars("request_scheme")) {
        return Some(TokenClass::Scheme);
    }
    if eq_chars(content, &str_chars("request_host")) {
        return Some(TokenClass::Host);
    }
    if eq_chars(content, &str_chars("request_port")) {
        return Some(TokenClass::Port);
    }
    if eq_chars(content, &str_chars("request_path")) {
        return Some(TokenClass::Path);
    }
    if eq_chars(content, &str_chars("request_query")) {
        return Some(TokenClass::Query);
    }
    if eq_chars(content, &str_chars("request_uri")) {
        return Some(TokenClass::Uri);
    }
    if eq_chars(content, &str_chars("request_method")) {
        return Some(TokenClass::Method);
    }
    let qk = str_chars("request_query_");
    if starts_with_exec(content, &qk) {
        let rest = slice_chars(content, qk.len(), content.len());
        proof {
            assert(rest@ =~= content@.skip("request_query_"@.len() as int));
        }
        if name_chars_ok(&rest) {
            return Some(TokenClass::QueryKey);
        }
    }
    let hk = str_chars("request_header_");
    if starts_with_exec(content, &hk) {
        let rest = slice_chars(content, hk.len(), content.len());
        proof {
            assert(rest@ =~= content@.skip("request_header_"@.len() as int));
        }
        if name_chars_ok(&rest) {
            return Some(TokenClass::HeaderKey);
        }
    }
    Option::None
}

fn token_value_of(content: &Vec<char>, req: &RequestInfo) -> (r: Vec<char>)
    requires
        spec_token_class(content@) is Some,
    ensures
        r@ == spec_token_value(content@, req@),
{
    let cls = match token_class_of(content) {
        Some(c) => c,
        Option::None => vstd::pervasive::unreached(),
    };
    match cls {
        TokenClass::Scheme => str_chars(req.scheme.as_str()),
        TokenClass::Host => str_chars(req.host.as_str()),
        TokenClass::Port => decimal_chars(req.port as u128),
        TokenClass::Path => str_chars(req.path.as_str()),
        TokenClass::Query => query_full_chars(req),
        TokenClass::Uri => {
            let p = str_chars(req.path.as_str());
            let q = query_full_chars(req);
            concat_chars(&p, &q)
        },
        TokenClass::Method => str_chars(req.method.as_str()),
        TokenClass::QueryKey => {
            let qk = str_chars("request_query_");
            let name = slice_chars(content, qk.len(), content.len());
            proof {
                assert(name@ =~= content@.skip("request_query_"@.len() as int));
            }
            match &req.query {
                Some(q) => {
                    let qc = str_chars(q.as_str());
                    crate::request::query_param(&qc, &name)
                },
                Option::None => Vec::new(),
            }
        },
        TokenClass::HeaderKey => {
            let hk = str_chars("request_header_");
            let name = slice_chars(content, hk.len(), content.len());
            proof {
                assert(name@ =~= content@.skip("request_header_"@.len() as int));
            }
            req.header_value(&name)
        },
    }
}

fn query_full_chars(req: &RequestInfo) -> (r: Vec<char>)
    ensures
        r@ == spec_query_full(req@.query),
{
    match &req.query {
        Some(q) => {
            let mut v: Vec<char> = Vec::new();
            v.push('?');
            let qc = str_chars(q.as_str());
            let r = concat_chars(&v, &qc);
            proof {
                assert(r@ =~= spec_query_full(req@.query));
            }
            r
        },
        Option::None => Vec::new(),
    }
}

/// Expands every recognized `${...}` token in `s` against the request, in one
/// left-to-right scan.
pub fn expand_template(s: &str, req: &RequestInfo) -> (r: String)
    ensures
        r@ == spec_expand(s@, req@),
{
    let mut rest = str_chars(s);
    let mut out: Vec<char> = Vec::new();
    while rest.len() > 0
        invariant
            spec_expand(s@, req@) == out@ + spec_expand(rest@, req@),
        decreases rest@.len(),
    {
        let rl = rest.len();
        let mut consumed = false;
        if rl >= 2 && rest[0] == '$' && rest[1] == '{' {
            proof {
                lemma_first_index_from(rest@, 2, '}');
            }
            match find_char_from(&rest, '}', 2) {
                Some(j) => {
                    assert(j == first_index_from(rest@, 2, '}'));
                    let content = slice_chars(&rest, 2, j);
                    match token_class_of(&content) {
                        Some(_) => {
                            let val = token_value_of(&content, req);
                            let ghost prev_rest = rest@;
                            out = concat_chars(&out, &val);
                            rest = slice_chars(&rest, j + 1, rl);
                            proof {
                                assert(rest@ =~= prev_rest.skip(j + 1));
                                assert(spec_expand(prev_rest, req@) == val@ + spec_expand(
                                    rest@,
                                    req@,
                                ));
                            }
                            consumed = true;
                        },
                        Option::None => {},
                    }
                },
                Option::None => {
                    assert(first_index_from(rest@, 2, '}') == rest@.len());
                },
            }
        }
        if !consumed {
            let ghost prev_rest = rest@;
            out.push(rest[0]);
            let new_rest = slice_chars(&rest, 1, rl);
            rest = new_rest;
            proof {
                assert(rest@ =~= prev_rest.skip(1));
                assert(spec_expand(prev_rest, req@) == seq![prev_rest[0]] + spec_expand(
                    rest@,
                    req@,
                ));
            }
        }
    }
    proof {
        assert(spec_expand(rest@, req@) == Seq::<char>::empty());
        assert(spec_expand(s@, req@) =~= out@);
    }
    chars_string(&out)
}

// ---------------------------------------------------------------------------
// Token-class scanning, recorded at configuration load.
// ---------------------------------------------------------------------------

/// Whether a token of class `cls` occurs in `s`, under the same scan that
/// `spec_expand` makes.
pub open spec fn spec_has_class(s: Seq<char>, cls: TokenClass) -> bool
    decreases s.len(),
{
    if s.len() == 0 {
        false
    } else if s.len() >= 2 && s[0] == '$' && s[1] == '{' && {
        let j = first_index_from(s, 2, '}');
        2 <= j < s.len() && spec_token_class(s.subrange(2, j)) is Some
    } {
        let j = first_index_from(s, 2, '}');
        spec_token_class(s.subrange(2, j)) == Some(cls) || spec_has_class(s.skip(j + 1), cls)
    } else {
        spec_has_class(s.skip(1), cls)
    }
}

/// Which token classes occur in a template, recorded once at load.
#[derive(Debug, Clone, Copy, Default)]
pub struct Replace {
    pub scheme: bool,
    pub host: bool,
    pub port: bool,
    pub path: bool,
    pub query: bool,
    pub uri: bool,
    pub method: bool,
    pub query_key: bool,
    pub header_key: bool,
}

/// Whether the flags of `rep` record exactly the classes occurring in `s`.
pub open spec fn replace_records(rep: Replace, s: Seq<char>) -> bool {
    &&& rep.scheme == spec_has_class(s, TokenClass::Scheme)
    &&& rep.host == spec_has_class(s, TokenClass::Host)
    &&& rep.port == spec_has_class(s, TokenClass::Port)
    &&& rep.path == spec_has_class(s, TokenClass::Path)
    &&& rep.query == spec_has_class(s, TokenClass::Query)
    &&& rep.uri == spec_has_class(s, TokenClass::Uri)
    &&& rep.method == spec_has_class(s, TokenClass::Method)
    &&& rep.query_key == spec_has_class(s, TokenClass::QueryKey)
    &&& rep.header_key == spec_has_class(s, TokenClass::HeaderKey)
}

/// Whether any flag is set.
pub open spec fn replace_any(rep: Replace) -> bool {
    rep.scheme || rep.host || rep.port || rep.path || rep.query || rep.uri || rep.method
        || rep.query_key || rep.header_key
}

impl Replace {
    /// Scans `text` once; the record of the token classes present, or `None`
    /// when no recognized token occurs.
    pub fn new(text: &str) -> (r: Option<Replace>)
        ensures
            match r {
                Some(rep) => replace_records(rep, text@) && replace_any(rep),
                None => forall|cls: TokenClass| !spec_has_class(text@, cls),
            },
    {
        let mut rest = str_chars(text);
        let mut rep = Replace {
            scheme: false,
            host: false,
            port: false,
            path: false,
            query: false,
            uri: false,
            method: false,
            query_key: false,
            header_key: false,
        };
        while rest.len() > 0
            invariant
                forall|cls: TokenClass|
                    #[trigger] spec_has_class(text@, cls) == (class_flag(rep, cls)
                        || spec_has_class(rest@, cls)),
            decreases rest@.len(),
        {
            let rl = rest.len();
            let mut consumed = false;
            if rl >= 2 && rest[0] == '$' && rest[1] == '{' {
                proof {
                    lemma_first_index_from(rest@, 2, '}');
                }
                match find_char_from(&rest, '}', 2) {
                    Some(j) => {
                        assert(j == first_index_from(rest@, 2, '}'));
                        let content = slice_chars(&rest, 2, j);
                        match token_class_of(&content) {
                            Some(cls) => {
                                let ghost prev_rest = rest@;
                                let ghost prev_rep = rep;
                                match cls {
                                    TokenClass::Scheme => {
                                        rep.scheme = true;
                                    },
                                    TokenClass::Host => {
                                        rep.host = true;
                                    },
                                    TokenClass::Port => {
                                        rep.port = true;
                                    },
                                    TokenClass::Path => {
                                        rep.path = true;
                                    },
                                    TokenClass::Query => {
                                        rep.query = true;
                                    },
                                    TokenClass::Uri => {
                                        rep.uri = true;
                                    },
                                    TokenClass::Method => {
                                        rep.method = true;
                                    },
                                    TokenClass::QueryKey => {
                                        rep.query_key = true;
                                    },
                                    TokenClass::HeaderKey => {
                                        rep.header_key = true;
                                    },
                                }
                                rest = slice_chars(&rest, j + 1, rl);
                                proof {
                                    assert(rest@ =~= prev_rest.skip(j + 1));
                                    assert forall|c2: TokenClass|
                                        #[trigger] spec_has_class(text@, c2) == (class_flag(
                                            rep,
                                            c2,
                                        ) || spec_has_class(rest@, c2)) by {
                                        assert(spec_has_class(prev_rest, c2) == (
                                        spec_token_class(prev_rest.subrange(2, j as int))
                                            == Some(c2) || spec_has_class(rest@, c2)));
                                    }
                                }
                                consumed = true;
                            },
                            Option::None => {},
                        }
                    },
                    Option::None => {
                        assert(first_index_from(rest@, 2, '}') == rest@.len());
                    },
                }
            }
            if !consumed {
                let ghost prev_rest = rest@;
                let new_rest = slice_chars(&rest, 1, rl);
                rest = new_rest;
                proof {
                    assert(rest@ =~= prev_rest.skip(1));
                    assert forall|c2: TokenClass|
                        #[trigger] spec_has_class(text@, c2) == (class_flag(rep, c2)
                            || spec_has_class(rest@, c2)) by {
                        assert(spec_has_class(prev_rest, c2) == spec_has_class(rest@, c2));
                    }
                }
            }
        }
        let any = rep.scheme || rep.host || rep.port || rep.path || rep.query || rep.uri
            || rep.method || rep.query_key || rep.header_key;
        if any {
            Some(rep)
        } else {
            proof {
                assert(forall|cls: TokenClass| !class_flag(rep, cls));
            }
            Option::None
        }
    }
}

/// The flag of `rep` that records class `cls`.
pub open spec fn class_flag(rep: Replace, cls: TokenClass) -> bool {
    match cls {
        TokenClass::Scheme => rep.scheme,
        TokenClass::Host => rep.host,
        TokenClass::Port => rep.port,
        TokenClass::Path => rep.path,
        TokenClass::Query => rep.query,
        TokenClass::Uri => rep.uri,
        TokenClass::Method => rep.method,
        TokenClass::QueryKey => rep.query_key,
        TokenClass::HeaderKey => rep.header_key,
    }
}

// ---------------------------------------------------------------------------
// Var: a configured string, pre-parsed when it holds no token.
// ---------------------------------------------------------------------------

/// A configured string value: either a literal, already converted to its
/// target type, or a template kept raw with the record of its token classes.
#[derive(Debug, Clone)]
pub enum Var<T> {
    Literal(T),
    Template(String, Replace),
}

impl<T> Var<T> {
    /// Applies `f` to a literal payload; keeps a template as it is.
    pub fn map_none<U, F: FnOnce(T) -> U>(self, f: F) -> (r: Var<U>)
        requires
            forall|x: T| self == Var::<T>::Literal(x) ==> f.requires((x,)),
        ensures
            forall|x: T|
                self == Var::<T>::Literal(x) ==> (r matches Var::<U>::Literal(y)
                    && f.ensures((x,), y)),
            forall|s: String, p: Replace|
                self == Var::<T>::Template(s, p) ==> r == Var::<U>::Template(s, p),
    {
        match self {
            Var::Literal(x) => Var::Literal(f(x)),
            Var::Template(s, rp) => Var::Template(s, rp),
        }
    }

    /// The literal payload, or `f` applied to the raw template and its plan.
    pub fn unwrap_or_else<F: FnOnce(String, Replace) -> T>(self, f: F) -> (r: T)
        requires
            forall|s: String, p: Replace| self == Var::<T>::Template(s, p) ==> f.requires((s, p)),
        ensures
            forall|x: T| self == Var::<T>::Literal(x) ==> r == x,
            forall|s: String, p: Replace|
                self == Var::<T>::Template(s, p) ==> f.ensures((s, p), r),
    {
        match self {
            Var::Literal(x) => x,
            Var::Template(s, rp) => f(s, rp),
        }
    }

    /// The literal payload, or `f` applied to the raw template and its plan.
    pub fn map<F: FnOnce(String, Replace) -> T>(self, f: F) -> (r: T)
        requires
            forall|s: String, p: Replace| self == Var::<T>::Template(s, p) ==> f.requires((s, p)),
        ensures
            forall|x: T| self == Var::<T>::Literal(x) ==> r == x,
            forall|s: String, p: Replace|
                self == Var::<T>::Template(s, p) ==> f.ensures((s, p), r),
    {
        match self {
            Var::Literal(x) => x,
            Var::Template(s, rp) => f(s, rp),
        }
    }
}

/// What a `Var<String>` produces for a request: the literal itself, or the
/// template's expansion.
pub open spec fn spec_var_expand(v: Var<String>, req: RequestInfoV) -> Seq<char> {
    match v {
        Var::Literal(x) => x@,
        Var::Template(s, _) => spec_expand(s@, req),
    }
}

impl Var<String> {
    /// Classifies a configured string: a template when a recognized token
    /// occurs in it, a literal otherwise.
    pub fn from(text: &str) -> (r: Var<String>)
        ensures
            match r {
                Var::Template(s, rep) => s@ == text@ && replace_records(rep, text@) && replace_any(
                    rep,
                ),
                Var::Literal(x) => x@ == text@ && (forall|cls: TokenClass|
                    !spec_has_class(text@, cls)),
            },
    {
        match Replace::new(text) {
            Some(rep) => {
                let tc = str_chars(text);
                Var::Template(chars_string(&tc), rep)
            },
            Option::None => {
                let tc = str_chars(text);
                Var::Literal(chars_string(&tc))
            },
        }
    }

    /// The value for this request: a literal as it is, a template expanded.
    pub fn expand(&self, req: &RequestInfo) -> (r: String)
        ensures
            r@ == spec_var_expand(*self, req@),
    {
        match self {
            Var::Literal(x) => {
                let c = str_chars(x.as_str());
                chars_string(&c)
            },
            Var::Template(s, _) => expand_template(s.as_str(), req),
        }
    }
}

// ---------------------------------------------------------------------------
// Variable closure.
// ---------------------------------------------------------------------------

/// Whether position `i` of `s` begins a recognized token under the scan.
pub open spec fn is_token_at(s: Seq<char>, i: int) -> bool {
    &&& 0 <= i && i + 1 < s.len()
    &&& s[i] == '$' && s[i + 1] == '{'
    &&& {
        let j = first_index_from(s, i + 2, '}');
        j < s.len() && spec_token_class(s.subrange(i + 2, j)) is Some
    }
}

/// A template in which every `$` begins a recognized token.
pub open spec fn only_recognized_tokens(s: Seq<char>) -> bool {
    forall|i: int| 0 <= i < s.len() && #[trigger] s[i] == '$' ==> is_token_at(s, i)
}

/// No `$` occurs in any value the request can contribute to an expansion.
pub open spec fn request_dollar_free(req: RequestInfoV) -> bool {
    &&& !seq_has_char(req.scheme, '$')
    &&& !seq_has_char(req.host, '$')
    &&& !seq_has_char(req.method, '$')
    &&& !seq_has_char(req.path, '$')
    &&& match req.query {
        Some(q) => !seq_has_char(q, '$'),
        None => true,
    }
    &&& forall|k: int|
        0 <= k < req.headers.len() ==> !seq_has_char(#[trigger] req.headers[k].value, '$')
}

proof fn lemma_fii_skip(s: Seq<char>, a: int, k: int, c: char)
    requires
        0 <= a,
        0 <= k,
        a + k <= s.len(),
    ensures
        first_index_from(s.skip(a), k, c) == if first_index_from(s, a + k, c) < s.len() {
            first_index_from(s, a + k, c) - a
        } else {
            s.len() - a
        },
    decreases s.len() - a - k,
{
    let t = s.skip(a);
    if a + k >= s.len() {
        assert(first_index_from(t, k, c) == t.len());
    } else {
        assert(t[k] == s[a + k]);
        if s[a + k] != c {
            lemma_fii_skip(s, a, k + 1, c);
        }
    }
}

proof fn lemma_decimal_digits(n: int)
    ensures
        forall|i: int|
            0 <= i < spec_decimal(n).len() ==> '0' <= #[trigger] spec_decimal(n)[i] <= '9',
    decreases n,
{
    if n < 10 {
        assert('0' <= spec_decimal(n)[0] <= '9');
    } else {
        lemma_decimal_digits(n / 10);
        let p = spec_decimal(n / 10);
        assert forall|i: int|
            0 <= i < spec_decimal(n).len() implies '0' <= #[trigger] spec_decimal(n)[i]
            <= '9' by {
            if i < p.len() {
                assert(spec_decimal(n)[i] == p[i]);
            } else {
                assert(spec_decimal(n)[i] == crate::util::spec_digit(n % 10));
            }
        }
    }
}

proof fn lemma_query_param_df(q: Seq<char>, name: Seq<char>)
    requires
        !seq_has_char(q, '$'),
    ensures
        !seq_has_char(spec_query_param(q, name), '$'),
    decreases q.len(),
{
    let amp = first_index_from(q, 0, '&');
    lemma_first_index_from(q, 0, '&');
    let item = q.subrange(0, amp);
    assert(forall|i: int| 0 <= i < item.len() ==> item[i] == q[i] && #[trigger] item[i] != '$');
    let eq1 = first_index_from(item, 0, '=');
    lemma_first_index_from(item, 0, '=');
    if eq1 < item.len() {
        lemma_first_index_from(item, eq1 + 1, '=');
    }
    if 0 <= amp && amp < q.len() {
        let rest = q.subrange(amp + 1, q.len() as int);
        assert(forall|i: int|
            0 <= i < rest.len() ==> rest[i] == q[amp + 1 + i] && #[trigger] rest[i] != '$');
        lemma_query_param_df(rest, name);
    }
}

proof fn lemma_header_value_df(headers: Seq<crate::request::HeaderEntryV>, name: Seq<char>)
    requires
        forall|k: int| 0 <= k < headers.len() ==> !seq_has_char(#[trigger] headers[k].value, '$'),
    ensures
        !seq_has_char(spec_header_value(headers, name), '$'),
    decreases headers.len(),
{
    if headers.len() > 0 && !crate::request::seq_eq_ci(headers[0].name, name) {
        assert(forall|k: int|
            0 <= k < headers.drop_first().len() ==> #[trigger] headers.drop_first()[k]
                == headers[k + 1]);
        lemma_header_value_df(headers.drop_first(), name);
    }
}

proof fn lemma_token_value_df(content: Seq<char>, req: RequestInfoV)
    requires
        request_dollar_free(req),
    ensures
        !seq_has_char(spec_token_value(content, req), '$'),
{
    match spec_token_class(content) {
        Some(TokenClass::Port) => {
            lemma_decimal_digits(req.port as int);
        },
        Some(TokenClass::Query) => {
            match req.query {
                Some(q) => {
                    assert(forall|i: int|
                        0 <= i < spec_query_full(req.query).len()
                            ==> #[trigger] spec_query_full(req.query)[i] != '$') by {
                        assert(spec_query_full(req.query)[0] == '?');
                        assert(forall|i: int|
                            1 <= i < spec_query_full(req.query).len()
                                ==> #[trigger] spec_query_full(req.query)[i] == q[i - 1]);
                    }
                },
                None => {},
            }
        },
        Some(TokenClass::Uri) => {
            let v = req.path + spec_query_full(req.query);
            assert(forall|i: int| 0 <= i < v.len() ==> #[trigger] v[i] != '$') by {
                assert(forall|i: int|
                    0 <= i < req.path.len() ==> #[trigger] v[i] == req.path[i]);
                match req.query {
                    Some(q) => {
                        assert(v[req.path.len() as int] == '?');
                        assert(forall|i: int|
                            req.path.len() + 1 <= i < v.len() ==> #[trigger] v[i] == q[
                                i - req.path.len() - 1
                            ]);
                    },
                    None => {},
                }
            }
        },
        Some(TokenClass::QueryKey) => {
            match req.query {
                Some(q) => {
                    lemma_query_param_df(q, content.skip("request_query_"@.len() as int));
                },
                None => {},
            }
        },
        Some(TokenClass::HeaderKey) => {
            lemma_header_value_df(req.headers, content.skip("request_header_"@.len() as int));
        },
        _ => {},
    }
}

proof fn lemma_expand_no_dollar(s: Seq<char>, req: RequestInfoV)
    requires
        only_recognized_tokens(s),
        request_dollar_free(req),
    ensures
        !seq_has_char(spec_expand(s, req), '$'),
    decreases s.len(),
{
    if s.len() == 0 {
    } else if s.len() >= 2 && s[0] == '$' && s[1] == '{' && {
        let j = first_index_from(s, 2, '}');
        2 <= j < s.len() && spec_token_class(s.subrange(2, j)) is Some
    } {
        let j = first_index_from(s, 2, '}');
        lemma_first_index_from(s, 2, '}');
        lemma_token_value_df(s.subrange(2, j), req);
        let t = s.skip(j + 1);
        assert forall|k: int| 0 <= k < t.len() && #[trigger] t[k] == '$' implies is_token_at(
            t,
            k,
        ) by {
            lemma_token_shift(s, j + 1, k);
        }
        lemma_expand_no_dollar(t, req);
        let v = spec_token_value(s.subrange(2, j), req);
        let e = spec_expand(t, req);
        assert(spec_expand(s, req) == v + e);
        assert forall|i: int| 0 <= i < (v + e).len() implies #[trigger] (v + e)[i] != '$' by {
            if i < v.len() {
                assert((v + e)[i] == v[i]);
            } else {
                assert((v + e)[i] == e[i - v.len()]);
            }
        }
    } else {
        if s[0] == '$' {
            lemma_first_index_from(s, 2, '}');
            assert(is_token_at(s, 0));
            assert(false);
        }
        let t = s.skip(1);
        assert forall|k: int| 0 <= k < t.len() && #[trigger] t[k] == '$' implies is_token_at(
            t,
            k,
        ) by {
            lemma_token_shift(s, 1, k);
        }
        lemma_expand_no_dollar(t, req);
        let v = seq![s[0]];
        let e = spec_expand(t, req);
        assert(spec_expand(s, req) == v + e);
        assert forall|i: int| 0 <= i < (v + e).len() implies #[trigger] (v + e)[i] != '$' by {
            if i < 1 {
                assert((v + e)[i] == s[0]);
            } else {
                assert((v + e)[i] == e[i - 1]);
            }
        }
    }
}

proof fn lemma_token_shift(s: Seq<char>, a: int, k: int)
    requires
        only_recognized_tokens(s),
        1 <= a <= s.len(),
        0 <= k < s.len() - a,
        s.skip(a)[k] == '$',
    ensures
        is_token_at(s.skip(a), k),
{
    let t = s.skip(a);
    assert(t[k] == s[a + k]);
    assert(is_token_at(s, a + k));
    let j2s = first_index_from(s, a + k + 2, '}');
    assert(a + k + 2 <= s.len()) by {
        if a + k + 2 > s.len() {
            assert(first_index_from(s, a + k + 2, '}') == s.len());
        }
    }
    lemma_first_index_from(s, a + k + 2, '}');
    lemma_fii_skip(s, a, k + 2, '}');
    let j2t = first_index_from(t, k + 2, '}');
    assert(j2t == j2s - a);
    assert forall|x: int| 0 <= x < j2t - k - 2 implies #[trigger] t.subrange(k + 2, j2t)[x]
        == s.subrange(a + k + 2, j2s)[x] by {
        assert(t.subrange(k + 2, j2t)[x] == t[k + 2 + x]);
        assert(t[k + 2 + x] == s[a + k + 2 + x]);
    }
    assert(t.subrange(k + 2, j2t) =~= s.subrange(a + k + 2, j2s));
}

/// Law: a template in which every `$` begins a recognized token, expanded
/// against a request none of whose values contains `$`, yields text that
/// contains no `$` at all, and so no substring matching the token grammar.
pub proof fn lemma_variable_closure(s: Seq<char>, req: RequestInfoV)
    requires
        only_recognized_tokens(s),
        request_dollar_free(req),
    ensures
        !seq_has_char(spec_expand(s, req), '$'),
        forall|i: int| !is_token_at(spec_expand(s, req), i),
{
    lemma_expand_no_dollar(s, req);
    let e = spec_expand(s, req);
    assert forall|i: int| !is_token_at(e, i) by {
        if 0 <= i < e.len() && e[i] == '$' {
            assert(seq_has_char(e, '$'));
        }
    }
}

} // verus!
