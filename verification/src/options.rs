use crate::base64::spec_b64;
use crate::request::{spec_header_value, RequestInfo, RequestInfoV};
use crate::setting::Setting;
use crate::util::{concat_chars, str_chars, chars_string, spec_join};
use crate::var::{spec_var_expand, Var};
use vstd::prelude::*;

verus! {

// ---------------------------------------------------------------------------
// Response headers configured per site or location.
// ---------------------------------------------------------------------------

/// One configured response header: a name and an interpolated value.
#[derive(Debug, Clone)]
pub struct HeaderField {
    pub name: String,
    pub value: Var<String>,
}

/// The configured header map. Entries keep insertion order; inserting an
/// existing name replaces its value in place.
#[derive(Debug, Clone)]
pub struct Headers {
    pub fields: Vec<HeaderField>,
}

impl View for Headers {
    type V = Seq<HeaderField>;

    open spec fn view(&self) -> Seq<HeaderField> {
        self.fields@
    }
}

/// Inserting `f`: replaces the first entry of the same name, else appends.
pub open spec fn spec_headers_insert(s: Seq<HeaderField>, f: HeaderField) -> Seq<HeaderField>
    decreases s.len(),
{
    if s.len() == 0 {
        seq![f]
    } else if s[0].name@ == f.name@ {
        seq![f] + s.drop_first()
    } else {
        seq![s[0]] + spec_headers_insert(s.drop_first(), f)
    }
}

/// The value under `name`, from the first entry of that name.
pub open spec fn spec_headers_lookup(s: Seq<HeaderField>, name: Seq<char>) -> Option<Var<String>>
    decreases s.len(),
{
    if s.len() == 0 {
        None
    } else if s[0].name@ == name {
        Some(s[0].value)
    } else {
        spec_headers_lookup(s.drop_first(), name)
    }
}

/// The union of two header maps: every entry of `over` inserted into `base`,
/// in order, overwriting on name collision.
pub open spec fn spec_headers_union(base: Seq<HeaderField>, over: Seq<HeaderField>) -> Seq<
    HeaderField,
>
    decreases over.len(),
{
    if over.len() == 0 {
        base
    } else {
        spec_headers_union(spec_headers_insert(base, over[0]), over.drop_first())
    }
}

/// No two entries share a name.
pub open spec fn headers_unique(s: Seq<HeaderField>) -> bool {
    forall|i: int, j: int| 0 <= i < j < s.len() ==> #[trigger] s[i].name@ != #[trigger] s[j].name@
}

impl Headers {
    /// The empty header map.
    pub fn new() -> (r: Headers)
        ensures
            r@ == Seq::<HeaderField>::empty(),
    {
        Headers { fields: Vec::new() }
    }

    /// Inserts one header, replacing an existing entry of the same name.
    pub fn insert(&mut self, f: HeaderField)
        ensures
            final(self)@ == spec_headers_insert(old(self)@, f),
    {
        let ghost orig = self@;
        let n = self.fields.len();
        let mut i: usize = 0;
        proof {
            assert(orig.skip(0) =~= orig);
            assert(orig.subrange(0, 0) + spec_headers_insert(orig.skip(0), f)
                =~= spec_headers_insert(orig, f));
        }
        while i < n
            invariant
                orig == old(self)@,
                n == self.fields@.len(),
                self@ == orig,
                i <= n,
                forall|j: int| 0 <= j < i ==> #[trigger] orig[j].name@ != f.name@,
                spec_headers_insert(orig, f) == orig.subrange(0, i as int) + spec_headers_insert(
                    orig.skip(i as int),
                    f,
                ),
            decreases n - i,
        {
            proof {
                assert(orig.skip(i as int)[0] == orig[i as int]);
                assert(orig.skip(i as int).drop_first() =~= orig.skip(i + 1));
            }
            if self.fields[i].name == f.name {
                assert(orig[i as int].name@ == f.name@);
                self.fields.set(i, f);
                proof {
                    assert(spec_headers_insert(orig.skip(i as int), f) =~= seq![f] + orig.skip(
                        i + 1,
                    ));
                    assert(spec_headers_insert(orig.skip(i as int), f) == seq![f] + orig.skip(
                        i + 1,
                    ));
                    assert(self@ =~= orig.subrange(0, i as int) + (seq![f] + orig.skip(i + 1)));
                    assert(self@ == orig.subrange(0, i as int) + (seq![f] + orig.skip(i + 1)));
                    assert(self@ == spec_headers_insert(orig, f));
                }
                return ;
            }
            proof {
                assert(orig.subrange(0, i + 1) =~= orig.subrange(0, i as int) + seq![
                    orig[i as int],
                ]);
                assert(orig.subrange(0, i as int) + (seq![orig[i as int]] + spec_headers_insert(
                    orig.skip(i + 1),
                    f,
                )) =~= orig.subrange(0, i + 1) + spec_headers_insert(orig.skip(i + 1), f));
            }
            i = i + 1;
        }
        proof {
            assert(orig.skip(n as int) =~= Seq::<HeaderField>::empty());
        }
        self.fields.push(f);
        proof {
            assert(self@ =~= orig.subrange(0, n as int) + seq![f]);
            assert(orig.subrange(0, n as int) =~= orig);
        }
    }

    /// Inserts every entry of `other`, in order, consuming it.
    pub fn extend(&mut self, other: Headers)
        ensures
            final(self)@ == spec_headers_union(old(self)@, other@),
    {
        let mut rest = other.fields;
        while rest.len() > 0
            invariant
                spec_headers_union(old(self)@, other@) == spec_headers_union(self@, rest@),
            decreases rest@.len(),
        {
            let ghost prev = rest@;
            let f = rest.remove(0);
            proof {
                assert(rest@ =~= prev.drop_first());
            }
            self.insert(f);
        }
    }
}

pub proof fn lemma_headers_insert_lookup(s: Seq<HeaderField>, f: HeaderField, k: Seq<char>)
    ensures
        spec_headers_lookup(spec_headers_insert(s, f), k) == if k == f.name@ {
            Some(f.value)
        } else {
            spec_headers_lookup(s, k)
        },
    decreases s.len(),
{
    if s.len() == 0 {
        let r = spec_headers_insert(s, f);
        assert(r == seq![f]);
        assert(r[0] == f);
        assert(r.drop_first() =~= Seq::<HeaderField>::empty());
        if k == f.name@ {
            assert(spec_headers_lookup(r, k) == Some(f.value));
        } else {
            assert(spec_headers_lookup(r, k) == spec_headers_lookup(r.drop_first(), k));
            assert(spec_headers_lookup(r.drop_first(), k) is None);
            assert(spec_headers_lookup(s, k) is None);
        }
    } else if s[0].name@ == f.name@ {
        let r = seq![f] + s.drop_first();
        assert(spec_headers_insert(s, f) == r);
        assert(r[0] == f);
        assert(r.drop_first() =~= s.drop_first());
        if k == f.name@ {
            assert(spec_headers_lookup(r, k) == Some(f.value));
        } else {
            assert(spec_headers_lookup(r, k) == spec_headers_lookup(s.drop_first(), k));
            assert(spec_headers_lookup(s, k) == spec_headers_lookup(s.drop_first(), k));
        }
    } else {
        lemma_headers_insert_lookup(s.drop_first(), f, k);
        let r = seq![s[0]] + spec_headers_insert(s.drop_first(), f);
        assert(spec_headers_insert(s, f) == r);
        assert(r[0] == s[0]);
        assert(r.len() > 0);
        assert(r.drop_first() =~= spec_headers_insert(s.drop_first(), f));
        if k == s[0].name@ {
            assert(spec_headers_lookup(r, k) == Some(s[0].value));
            assert(spec_headers_lookup(s, k) == Some(s[0].value));
        } else {
            assert(spec_headers_lookup(r, k) == spec_headers_lookup(
                spec_headers_insert(s.drop_first(), f),
                k,
            ));
            assert(spec_headers_lookup(s, k) == spec_headers_lookup(s.drop_first(), k));
        }
    }
}

pub proof fn lemma_headers_lookup_none(s: Seq<HeaderField>, k: Seq<char>)
    ensures
        (spec_headers_lookup(s, k) is None) <==> (forall|i: int|
            0 <= i < s.len() ==> #[trigger] s[i].name@ != k),
    decreases s.len(),
{
    if s.len() > 0 {
        let rest = s.drop_first();
        lemma_headers_lookup_none(rest, k);
        assert(forall|i: int| 0 <= i < rest.len() ==> #[trigger] rest[i] == s[i + 1]);
        if spec_headers_lookup(s, k) is None {
            assert(s[0].name@ != k);
            assert forall|i: int| 0 <= i < s.len() implies #[trigger] s[i].name@ != k by {
                if i > 0 {
                    assert(s[i] == rest[i - 1]);
                }
            }
        } else {
            if forall|i: int| 0 <= i < s.len() ==> #[trigger] s[i].name@ != k {
                assert forall|i: int| 0 <= i < rest.len() implies #[trigger] rest[i].name@
                    != k by {
                    assert(rest[i] == s[i + 1]);
                }
                assert(spec_headers_lookup(rest, k) is None);
                assert(false);
            }
        }
    }
}

/// Law: the union of two header maps holds every key of both; on a key both
/// hold, the overlay's value wins; on any other key the base's value stands.
pub proof fn lemma_header_map_union(
    base: Seq<HeaderField>,
    over: Seq<HeaderField>,
    k: Seq<char>,
)
    requires
        headers_unique(over),
    ensures
        spec_headers_lookup(spec_headers_union(base, over), k) == match spec_headers_lookup(
            over,
            k,
        ) {
            Some(v) => Some(v),
            None => spec_headers_lookup(base, k),
        },
    decreases over.len(),
{
    if over.len() > 0 {
        let f = over[0];
        let rest = over.drop_first();
        assert(forall|i: int| 0 <= i < rest.len() ==> #[trigger] rest[i] == over[i + 1]);
        lemma_header_map_union(spec_headers_insert(base, f), rest, k);
        lemma_headers_insert_lookup(base, f, k);
        if k == f.name@ {
            lemma_headers_lookup_none(rest, k);
            assert(forall|i: int| 0 <= i < rest.len() ==> #[trigger] rest[i].name@ != k);
        }
    }
}

// ---------------------------------------------------------------------------
// Error pages.
// ---------------------------------------------------------------------------

/// One configured error page: a status and the page for it (or `Off`).
#[derive(Debug, Clone)]
pub struct StatusEntry {
    pub status: u16,
    pub file: Setting<String>,
}

/// Error pages by status code; inserting an existing status replaces it.
#[derive(Debug, Clone)]
pub struct StatusPage {
    pub pages: Vec<StatusEntry>,
}

impl View for StatusPage {
    type V = Seq<StatusEntry>;

    open spec fn view(&self) -> Seq<StatusEntry> {
        self.pages@
    }
}

/// Inserting an entry: replaces the first entry of the same status, else
/// appends.
pub open spec fn spec_status_insert(s: Seq<StatusEntry>, e: StatusEntry) -> Seq<StatusEntry>
    decreases s.len(),
{
    if s.len() == 0 {
        seq![e]
    } else if s[0].status == e.status {
        seq![e] + s.drop_first()
    } else {
        seq![s[0]] + spec_status_insert(s.drop_first(), e)
    }
}

/// The page configured for `status`, if any.
pub open spec fn spec_status_lookup(s: Seq<StatusEntry>, status: u16) -> Option<Setting<String>>
    decreases s.len(),
{
    if s.len() == 0 {
        None
    } else if s[0].status == status {
        Some(s[0].file)
    } else {
        spec_status_lookup(s.drop_first(), status)
    }
}

/// The union of two error-page maps, the overlay winning per status.
pub open spec fn spec_status_union(base: Seq<StatusEntry>, over: Seq<StatusEntry>) -> Seq<
    StatusEntry,
>
    decreases over.len(),
{
    if over.len() == 0 {
        base
    } else {
        spec_status_union(spec_status_insert(base, over[0]), over.drop_first())
    }
}

impl StatusPage {
    /// The empty error-page map.
    pub fn new() -> (r: StatusPage)
        ensures
            r@ == Seq::<StatusEntry>::empty(),
    {
        StatusPage { pages: Vec::new() }
    }

    /// Inserts one entry, replacing an existing entry of the same status.
    pub fn insert(&mut self, e: StatusEntry)
        ensures
            final(self)@ == spec_status_insert(old(self)@, e),
    {
        let ghost orig = self@;
        let n = self.pages.len();
        let mut i: usize = 0;
        proof {
            assert(orig.skip(0) =~= orig);
            assert(orig.subrange(0, 0) + spec_status_insert(orig.skip(0), e)
                =~= spec_status_insert(orig, e));
        }
        while i < n
            invariant
                orig == old(self)@,
                n == self.pages@.len(),
                self@ == orig,
                i <= n,
                spec_status_insert(orig, e) == orig.subrange(0, i as int) + spec_status_insert(
                    orig.skip(i as int),
                    e,
                ),
            decreases n - i,
        {
            proof {
                assert(orig.skip(i as int)[0] == orig[i as int]);
                assert(orig.skip(i as int).drop_first() =~= orig.skip(i + 1));
            }
            if self.pages[i].status == e.status {
                self.pages.set(i, e);
                proof {
                    assert(spec_status_insert(orig.skip(i as int), e) =~= seq![e] + orig.skip(
                        i + 1,
                    ));
                    assert(self@ =~= orig.subrange(0, i as int) + (seq![e] + orig.skip(i + 1)));
                }
                return ;
            }
            proof {
                assert(orig.subrange(0, i + 1) =~= orig.subrange(0, i as int) + seq![
                    orig[i as int],
                ]);
                assert(orig.subrange(0, i as int) + (seq![orig[i as int]] + spec_status_insert(
                    orig.skip(i + 1),
                    e,
                )) =~= orig.subrange(0, i + 1) + spec_status_insert(orig.skip(i + 1), e));
            }
            i = i + 1;
        }
        proof {
            assert(orig.skip(n as int) =~= Seq::<StatusEntry>::empty());
        }
        self.pages.push(e);
        proof {
            assert(self@ =~= orig.subrange(0, n as int) + seq![e]);
            assert(orig.subrange(0, n as int) =~= orig);
        }
    }

    /// Inserts every entry of `other`, in order, consuming it.
    pub fn extend(&mut self, other: StatusPage)
        ensures
            final(self)@ == spec_status_union(old(self)@, other@),
    {
        let mut rest = other.pages;
        while rest.len() > 0
            invariant
                spec_status_union(old(self)@, other@) == spec_status_union(self@, rest@),
            decreases rest@.len(),
        {
            let ghost prev = rest@;
            let e = rest.remove(0);
            proof {
                assert(rest@ =~= prev.drop_first());
            }
            self.insert(e);
        }
    }

    /// The page configured for `status`, if any.
    pub fn get(&self, status: u16) -> (r: Option<&Setting<String>>)
        ensures
            match r {
                Some(x) => spec_status_lookup(self@, status) == Some(*x),
                None => spec_status_lookup(self@, status) is None,
            },
    {
        let n = self.pages.len();
        let mut i: usize = 0;
        proof {
            assert(self@.skip(0) =~= self@);
        }
        while i < n
            invariant
                n == self.pages@.len(),
                i <= n,
                spec_status_lookup(self@, status) == spec_status_lookup(
                    self@.skip(i as int),
                    status,
                ),
            decreases n - i,
        {
            proof {
                assert(self@.skip(i as int)[0] == self@[i as int]);
                assert(self@.skip(i as int).drop_first() =~= self@.skip(i + 1));
            }
            if self.pages[i].status == status {
                return Some(&self.pages[i].file);
            }
            i = i + 1;
        }
        proof {
            assert(self@.skip(n as int) =~= Seq::<StatusEntry>::empty());
        }
        Option::None
    }
}

// ---------------------------------------------------------------------------
// Allowed methods.
// ---------------------------------------------------------------------------

/// The names of the allowed methods.
pub open spec fn method_views(m: Method) -> Seq<Seq<char>> {
    Seq::new(m.allow@.len(), |i: int| m.allow@[i]@)
}

/// The comma-separated join of a list, as in an `Allow` header.
pub open spec fn spec_csv(list: Seq<Seq<char>>) -> Seq<char>
    decreases list.len(),
{
    if list.len() == 0 {
        seq![]
    } else if list.len() == 1 {
        list[0]
    } else {
        list[0] + ", "@ + spec_csv(list.drop_first())
    }
}

/// The allowed request methods of a site or location.
#[derive(Debug, Clone)]
pub struct Method {
    pub allow: Vec<String>,
}

impl Method {
    /// A method allow-list.
    pub fn new(allow: Vec<String>) -> (r: Method)
        ensures
            r.allow == allow,
    {
        Method { allow }
    }

    /// Whether the list names `m`.
    pub fn allows(&self, m: &str) -> (r: bool)
        ensures
            r == method_views(*self).contains(m@),
    {
        let mc = str_chars(m);
        let n = self.allow.len();
        let mut i: usize = 0;
        while i < n
            invariant
                n == self.allow@.len(),
                mc@ == m@,
                i <= n,
                forall|j: int| 0 <= j < i ==> #[trigger] self.allow@[j]@ != m@,
                forall|j: int| 0 <= j < n ==> method_views(*self)[j] == #[trigger] self.allow@[j]@,
            decreases n - i,
        {
            let a = str_chars(self.allow[i].as_str());
            if crate::util::eq_chars(&a, &mc) {
                assert(method_views(*self)[i as int] == m@);
                return true;
            }
            i = i + 1;
        }
        false
    }

    /// The allowed methods joined by `", "`, for an `Allow` header.
    pub fn allow_csv(&self) -> (r: String)
        ensures
            r@ == spec_csv(method_views(*self)),
    {
        let n = self.allow.len();
        let mut out: Vec<char> = Vec::new();
        let mut i: usize = 0;
        proof {
            assert(method_views(*self).skip(0) =~= method_views(*self));
        }
        while i < n
            invariant
                n == self.allow@.len(),
                i <= n,
                spec_csv(method_views(*self)) == out@ + spec_csv(
                    method_views(*self).skip(i as int),
                ) || (i == n && n == 0 && out@ == spec_csv(method_views(*self))),
                i < n ==> spec_csv(method_views(*self)) == out@ + spec_csv(
                    method_views(*self).skip(i as int),
                ),
            decreases n - i,
        {
            let ghost rest = method_views(*self).skip(i as int);
            proof {
                assert(rest[0] == method_views(*self)[i as int]);
                assert(rest.drop_first() =~= method_views(*self).skip(i + 1));
            }
            let a = str_chars(self.allow[i].as_str());
            out = concat_chars(&out, &a);
            if i + 1 < n {
                let sepc = str_chars(", ");
                out = concat_chars(&out, &sepc);
                proof {
                    assert(rest.len() > 1);
                    assert(spec_csv(rest) == rest[0] + ", "@ + spec_csv(rest.drop_first()));
                }
            } else {
                proof {
                    assert(rest.len() == 1);
                    assert(spec_csv(rest) == rest[0]);
                    assert(method_views(*self).skip(i + 1) =~= Seq::<Seq<char>>::empty());
                }
            }
            i = i + 1;
        }
        chars_string(&out)
    }
}

// ---------------------------------------------------------------------------
// HTTP Basic authentication.
// ---------------------------------------------------------------------------

/// The UTF-8 bytes of a character sequence, computed directly.
pub fn utf8_bytes(v: &Vec<char>) -> (r: Vec<u8>)
    ensures
        r@ == vstd::utf8::encode_utf8(v@),
{
    let n = v.len();
    let mut out: Vec<u8> = Vec::new();
    let mut i: usize = 0;
    proof {
        assert(v@.skip(0) =~= v@);
    }
    while i < n
        invariant
            n == v@.len(),
            i <= n,
            vstd::utf8::encode_utf8(v@) == out@ + vstd::utf8::encode_utf8(v@.skip(i as int)),
        decreases n - i,
    {
        let c = v[i];
        let sc = c as u32;
        let ghost prev = out@;
        proof {
            vstd::utf8::char_is_scalar(c);
            assert(v@.skip(i as int)[0] == v@[i as int]);
            assert(v@.skip(i as int).drop_first() =~= v@.skip(i + 1));
        }
        if sc <= 0x7F {
            out.push(#[verifier::truncate] ((sc & 0x7F) as u8));
        } else if sc <= 0x7FF {
            out.push(0xC0 | (#[verifier::truncate] (((sc >> 6) & 0x1F) as u8)));
            out.push(0x80 | (#[verifier::truncate] ((sc & 0x3F) as u8)));
        } else if sc <= 0xFFFF {
            out.push(0xE0 | (#[verifier::truncate] (((sc >> 12) & 0x0F) as u8)));
            out.push(0x80 | (#[verifier::truncate] (((sc >> 6) & 0x3F) as u8)));
            out.push(0x80 | (#[verifier::truncate] ((sc & 0x3F) as u8)));
        } else {
            out.push(0xF0 | (#[verifier::truncate] (((sc >> 18) & 0x7) as u8)));
            out.push(0x80 | (#[verifier::truncate] (((sc >> 12) & 0x3F) as u8)));
            out.push(0x80 | (#[verifier::truncate] (((sc >> 6) & 0x3F) as u8)));
            out.push(0x80 | (#[verifier::truncate] ((sc & 0x3F) as u8)));
        }
        proof {
            assert(out@ =~= prev + vstd::utf8::encode_scalar(sc));
        }
        i = i + 1;
    }
    proof {
        assert(vstd::utf8::encode_utf8(v@.skip(n as int)) =~= Seq::<u8>::empty());
        assert(out@ + vstd::utf8::encode_utf8(v@.skip(n as int)) =~= out@);
    }
    out
}

/// The expected `Authorization` line for HTTP Basic credentials: the
/// UTF-8 bytes of `user:password`, base64-encoded after `Basic `.
pub open spec fn spec_basic_credential(user: Seq<char>, password: Seq<char>) -> Seq<char> {
    "Basic "@ + spec_b64(vstd::utf8::encode_utf8(user + seq![':'] + password))
}

/// HTTP Basic credentials, pre-encoded to the expected header line.
#[derive(Debug, Clone)]
pub struct Auth {
    pub credential: String,
}

impl Auth {
    /// The credentials for `user` and `password`, as `Basic <base64>` over
    /// the UTF-8 bytes of `user:password`.
    pub fn basic(user: &str, password: &str) -> (r: Auth)
        ensures
            r.credential@ == spec_basic_credential(user@, password@),
    {
        let u = str_chars(user);
        let p = str_chars(password);
        let mut joined: Vec<char> = u;
        joined.push(':');
        let joined2 = concat_chars(&joined, &p);
        proof {
            assert(joined2@ =~= user@ + seq![':'] + password@);
        }
        let bytes = utf8_bytes(&joined2);
        let encoded = crate::base64::encode(bytes.as_slice());
        let prefix = str_chars("Basic ");
        let enc = str_chars(encoded.as_str());
        let all = concat_chars(&prefix, &enc);
        Auth { credential: chars_string(&all) }
    }

    /// Whether the request's `Authorization` header equals the credential,
    /// byte for byte.
    pub fn check(&self, req: &RequestInfo) -> (r: bool)
        ensures
            r == (spec_header_value(req@.headers, "authorization"@) == self.credential@),
    {
        let name = str_chars("authorization");
        let value = req.header_value(&name);
        let cred = str_chars(self.credential.as_str());
        crate::util::eq_chars(&value, &cred)
    }
}

// ---------------------------------------------------------------------------
// Rewrite, index, directory listing and log options.
// ---------------------------------------------------------------------------

/// A redirect status: moved permanently or found.
#[derive(Debug, Clone, Copy, PartialEq, Eq, Structural)]
pub enum RewriteStatus {
    _301,
    _302,
}

impl RewriteStatus {
    /// Reads `301` or `302`; anything else is refused.
    pub fn from_str(s: &str) -> (r: Result<RewriteStatus, String>)
        ensures
            match r {
                Ok(v) => (s@ == "301"@ && v == RewriteStatus::_301) || (s@ == "302"@ && v
                    == RewriteStatus::_302),
                Err(_) => s@ != "301"@ && s@ != "302"@,
            },
    {
        let c = str_chars(s);
        if crate::util::eq_chars(&c, &str_chars("301")) {
            Ok(RewriteStatus::_301)
        } else if crate::util::eq_chars(&c, &str_chars("302")) {
            Ok(RewriteStatus::_302)
        } else {
            Err(crate::matcher::error_message("Cannot parse `", &c, "` to rewrite status"))
        }
    }

    /// The numeric status code.
    pub fn code(&self) -> (r: u16)
        ensures
            (*self == RewriteStatus::_301 ==> r == 301) && (*self == RewriteStatus::_302 ==> r
                == 302),
    {
        match self {
            RewriteStatus::_301 => 301,
            RewriteStatus::_302 => 302,
        }
    }
}

impl Default for RewriteStatus {
    /// A rewrite without an explicit status is a found (302) redirect.
    fn default() -> (r: Self)
        ensures
            r == RewriteStatus::_302,
    {
        RewriteStatus::_302
    }
}

/// A character accepted in an HTTP header value.
pub open spec fn valid_header_value_char(c: char) -> bool {
    c == '\t' || (c as u32 >= 32 && c as u32 != 127)
}

/// Text accepted as an HTTP header value.
pub open spec fn valid_header_value(s: Seq<char>) -> bool {
    forall|i: int| 0 <= i < s.len() ==> valid_header_value_char(#[trigger] s[i])
}

/// Whether `s` is accepted as an HTTP header value, tested directly.
pub fn check_header_value(s: &Vec<char>) -> (r: bool)
    ensures
        r == valid_header_value(s@),
{
    let n = s.len();
    let mut i: usize = 0;
    while i < n
        invariant
            n == s@.len(),
            i <= n,
            forall|j: int| 0 <= j < i ==> valid_header_value_char(#[trigger] s@[j]),
        decreases n - i,
    {
        let c = s[i];
        let ok = c == '\t' || (c as u32 >= 32 && c as u32 != 127);
        if !ok {
            return false;
        }
        i = i + 1;
    }
    true
}

/// A configured redirect: an interpolated target and its status.
#[derive(Debug, Clone)]
pub struct Rewrite {
    pub location: Var<String>,
    pub status: RewriteStatus,
}

impl Rewrite {
    /// A rewrite whose literal target must be valid header-value text; a
    /// template is checked after expansion.
    pub fn new(location: &str, status: RewriteStatus) -> (r: Result<Rewrite, String>)
        ensures
            match r {
                Ok(rw) => rw.status == status && (match rw.location {
                    Var::Literal(x) => x@ == location@ && valid_header_value(location@) && (forall|
                        cls: crate::var::TokenClass,
                    | !crate::var::spec_has_class(location@, cls)),
                    Var::Template(s, rep) => s@ == location@ && crate::var::replace_records(
                        rep,
                        location@,
                    ) && crate::var::replace_any(rep),
                }),
                Err(_) => !valid_header_value(location@) && (forall|cls: crate::var::TokenClass|
                    !crate::var::spec_has_class(location@, cls)),
            },
    {
        let v = Var::from(location);
        match v {
            Var::Literal(x) => {
                let c = str_chars(x.as_str());
                if check_header_value(&c) {
                    Ok(Rewrite { location: Var::Literal(x), status })
                } else {
                    Err(crate::matcher::error_message(
                        "Cannot parse `",
                        &c,
                        "` to http header value",
                    ))
                }
            },
            Var::Template(s, rep) => Ok(Rewrite { location: Var::Template(s, rep), status }),
        }
    }
}

/// The filenames probed when a request resolves to a directory.
#[derive(Debug, Clone)]
pub struct Index {
    pub files: Vec<String>,
}

impl Index {
    /// An ordered list of index filenames.
    pub fn new(files: Vec<String>) -> (r: Index)
        ensures
            r.files == files,
    {
        Index { files }
    }

    /// The full paths to probe under `dir`, in order.
    pub fn candidate_paths(&self, dir: &str) -> (r: Vec<String>)
        ensures
            r@.len() == self.files@.len(),
            forall|i: int|
                0 <= i < r@.len() ==> #[trigger] r@[i]@ == spec_join(self.files@[i]@, dir@),
    {
        let n = self.files.len();
        let mut out: Vec<String> = Vec::new();
        let mut i: usize = 0;
        while i < n
            invariant
                n == self.files@.len(),
                out@.len() == i,
                i <= n,
                forall|j: int|
                    0 <= j < i ==> #[trigger] out@[j]@ == spec_join(self.files@[j]@, dir@),
            decreases n - i,
        {
            out.push(crate::util::absolute_path(self.files[i].as_str(), dir));
            i = i + 1;
        }
        out
    }
}

/// The autoindex option: an optional time format for the modification-time
/// column, and whether a size column is shown.
#[derive(Debug, Clone)]
pub struct Directory {
    pub time: Option<String>,
    pub size: bool,
}

/// Where a site's log lines go.
#[derive(Debug, Clone)]
pub enum LogOutput {
    Stdout,
    File(String),
}

/// A site's access-log configuration: an interpolated line format and the
/// sink it is written to. The writing itself is I/O and lives outside the
/// library.
#[derive(Debug, Clone)]
pub struct Logger {
    pub format: Var<String>,
    pub output: LogOutput,
}

impl Logger {
    /// A logger with the given line format (a newline is appended) writing
    /// to standard output.
    pub fn new(format: &str) -> (r: Logger)
        ensures
            r.output is Stdout,
            match r.format {
                Var::Literal(x) => x@ == format@ + "\n"@ && (forall|cls: crate::var::TokenClass|
                    !crate::var::spec_has_class(format@ + "\n"@, cls)),
                Var::Template(s, rep) => s@ == format@ + "\n"@ && crate::var::replace_records(
                    rep,
                    format@ + "\n"@,
                ) && crate::var::replace_any(rep),
            },
    {
        let f = str_chars(format);
        let nl = str_chars("\n");
        let all = concat_chars(&f, &nl);
        let s = chars_string(&all);
        Logger { format: Var::from(s.as_str()), output: LogOutput::Stdout }
    }

    /// The same logger writing to the file at `path` instead.
    pub fn file(self, path: String) -> (r: Logger)
        ensures
            r.format == self.format,
            r.output == LogOutput::File(path),
    {
        Logger { format: self.format, output: LogOutput::File(path) }
    }

    /// The log line for one request: the format expanded against it.
    pub fn format_line(&self, req: &RequestInfo) -> (r: String)
        ensures
            r@ == spec_var_expand(self.format, req@),
    {
        self.format.expand(req)
    }
}

/// A configured reverse-proxy target: an interpolated upstream URL, an
/// optional method override, extra headers, and the upstream timeout in
/// milliseconds.
#[derive(Debug, Clone)]
pub struct Proxy {
    pub url: Var<String>,
    pub method: Option<String>,
    pub headers: Setting<Headers>,
    pub timeout: u64,
}

/// The content of a TLS site: certificate and key files, and the SNI name
/// the pair answers for.
#[derive(Debug, Eq, PartialEq, Clone)]
pub struct TLSContent {
    pub cert: String,
    pub key: String,
    pub sni: String,
}

} // verus!
