use vstd::prelude::*;

verus! {

/// One request header, as plain text.
#[derive(Debug, Clone)]
pub struct HeaderEntry {
    pub name: String,
    pub value: String,
}

/// The mathematical shape of one header.
pub struct HeaderEntryV {
    pub name: Seq<char>,
    pub value: Seq<char>,
}

impl View for HeaderEntry {
    type V = HeaderEntryV;

    open spec fn view(&self) -> HeaderEntryV {
        HeaderEntryV { name: self.name@, value: self.value@ }
    }
}

/// What the variable engine and the handlers read from a request: scheme,
/// authority, method, decoded target, and headers, all as plain values.
#[derive(Debug, Clone)]
pub struct RequestInfo {
    pub scheme: String,
    pub host: String,
    pub port: u16,
    pub method: String,
    pub path: String,
    pub query: Option<String>,
    pub headers: Vec<HeaderEntry>,
}

/// The mathematical shape of a request.
pub struct RequestInfoV {
    pub scheme: Seq<char>,
    pub host: Seq<char>,
    pub port: u16,
    pub method: Seq<char>,
    pub path: Seq<char>,
    pub query: Option<Seq<char>>,
    pub headers: Seq<HeaderEntryV>,
}

impl View for RequestInfo {
    type V = RequestInfoV;

    open spec fn view(&self) -> RequestInfoV {
        RequestInfoV {
            scheme: self.scheme@,
            host: self.host@,
            port: self.port,
            method: self.method@,
            path: self.path@,
            query: match self.query {
                Some(ref q) => Some(q@),
                None => None,
            },
            headers: Seq::new(self.headers@.len(), |i: int| self.headers@[i]@),
        }
    }
}

/// Case-insensitive equality of two ASCII characters.
pub open spec fn char_eq_ci(a: char, b: char) -> bool {
    a == b || ('A' <= a <= 'Z' && b as u64 == a as u64 + 32) || ('a' <= a <= 'z' && a as u64 - 32
        == b as u64)
}

/// Case-insensitive equality of two names, per HTTP header rules.
pub open spec fn seq_eq_ci(a: Seq<char>, b: Seq<char>) -> bool {
    a.len() == b.len() && forall|i: int| 0 <= i < a.len() ==> char_eq_ci(a[i], #[trigger] b[i])
}

/// Case-insensitive equality, tested directly.
pub fn eq_ci(a: &Vec<char>, b: &Vec<char>) -> (r: bool)
    ensures
        r == seq_eq_ci(a@, b@),
{
    if a.len() != b.len() {
        return false;
    }
    let n = a.len();
    let mut i: usize = 0;
    while i < n
        invariant
            n == a@.len() && n == b@.len(),
            i <= n,
            forall|j: int| 0 <= j < i ==> char_eq_ci(a@[j], #[trigger] b@[j]),
        decreases n - i,
    {
        let x = a[i];
        let y = b[i];
        let same = x == y || ('A' <= x && x <= 'Z' && y as u64 == x as u64 + 32) || ('a' <= x && x
            <= 'z' && x as u64 - 32 == y as u64);
        if !same {
            assert(!char_eq_ci(a@[i as int], b@[i as int]));
            return false;
        }
        i = i + 1;
    }
    true
}

/// The value of the first header whose name equals `name` case-insensitively,
/// or empty if there is none.
pub open spec fn spec_header_value(headers: Seq<HeaderEntryV>, name: Seq<char>) -> Seq<char>
    decreases headers.len(),
{
    if headers.len() == 0 {
        seq![]
    } else if seq_eq_ci(headers[0].name, name) {
        headers[0].value
    } else {
        spec_header_value(headers.drop_first(), name)
    }
}

impl RequestInfo {
    /// The value of the named header, case-insensitively, or empty.
    pub fn header_value(&self, name: &Vec<char>) -> (r: Vec<char>)
        ensures
            r@ == spec_header_value(self@.headers, name@),
    {
        let n = self.headers.len();
        let mut i: usize = 0;
        proof {
            assert(self@.headers.skip(0) =~= self@.headers);
        }
        while i < n
            invariant
                n == self.headers@.len(),
                i <= n,
                spec_header_value(self@.headers, name@) == spec_header_value(
                    self@.headers.skip(i as int),
                    name@,
                ),
            decreases n - i,
        {
            proof {
                assert(self@.headers.skip(i as int).drop_first() =~= self@.headers.skip(i + 1));
                assert(self@.headers.skip(i as int)[0] == self@.headers[i as int]);
            }
            let hn = crate::util::str_chars(self.headers[i].name.as_str());
            if eq_ci(&hn, name) {
                return crate::util::str_chars(self.headers[i].value.as_str());
            }
            i = i + 1;
        }
        proof {
            assert(self@.headers.skip(n as int) =~= Seq::<HeaderEntryV>::empty());
        }
        Vec::new()
    }
}

/// The value of query parameter `name` in the raw query string `q`: items are
/// separated by `&`, a key is the part of an item before its first `=`, and
/// the value runs from there to the next `=` if any; empty when absent.
pub open spec fn spec_query_param(q: Seq<char>, name: Seq<char>) -> Seq<char>
    decreases q.len(),
{
    let amp = crate::wildcard::first_index_from(q, 0, '&');
    let item = q.subrange(0, amp);
    let eq1 = crate::wildcard::first_index_from(item, 0, '=');
    let key = item.subrange(0, eq1);
    let value = if eq1 < item.len() {
        let eq2 = crate::wildcard::first_index_from(item, eq1 + 1, '=');
        item.subrange(eq1 + 1, eq2)
    } else {
        seq![]
    };
    if key == name {
        value
    } else if 0 <= amp && amp < q.len() {
        spec_query_param(q.subrange(amp + 1, q.len() as int), name)
    } else {
        seq![]
    }
}

/// The value of query parameter `name` in `q`, computed directly.
pub fn query_param(q: &Vec<char>, name: &Vec<char>) -> (r: Vec<char>)
    ensures
        r@ == spec_query_param(q@, name@),
    decreases q@.len(),
{
    proof {
        crate::wildcard::lemma_first_index_from(q@, 0, '&');
    }
    let ql = q.len();
    let amp = match crate::util::find_char_from(q, '&', 0) {
        Some(i) => {
            assert(i == crate::wildcard::first_index_from(q@, 0, '&'));
            i
        },
        Option::None => {
            assert(crate::wildcard::first_index_from(q@, 0, '&') == q@.len());
            ql
        },
    };
    let item = crate::util::slice_chars(q, 0, amp);
    proof {
        crate::wildcard::lemma_first_index_from(item@, 0, '=');
    }
    let il = item.len();
    let eq1 = match crate::util::find_char_from(&item, '=', 0) {
        Some(i) => {
            assert(i == crate::wildcard::first_index_from(item@, 0, '='));
            i
        },
        Option::None => {
            assert(crate::wildcard::first_index_from(item@, 0, '=') == item@.len());
            il
        },
    };
    let key = crate::util::slice_chars(&item, 0, eq1);
    if crate::util::eq_chars(&key, name) {
        if eq1 < il {
            proof {
                crate::wildcard::lemma_first_index_from(item@, eq1 + 1, '=');
            }
            let eq2 = match crate::util::find_char_from(&item, '=', eq1 + 1) {
                Some(i) => {
                    assert(i == crate::wildcard::first_index_from(item@, eq1 + 1, '='));
                    i
                },
                Option::None => {
                    assert(crate::wildcard::first_index_from(item@, eq1 + 1, '=') == item@.len());
                    il
                },
            };
            crate::util::slice_chars(&item, eq1 + 1, eq2)
        } else {
            Vec::new()
        }
    } else if amp < ql {
        let rest = crate::util::slice_chars(q, amp + 1, ql);
        query_param(&rest, name)
    } else {
        Vec::new()
    }
}

} // verus!
