use crate::util::{eq_chars, find_sub_from, occurs_at, slice_chars, str_chars, views};
use vstd::prelude::*;

verus! {

// ---------------------------------------------------------------------------
// Splitting on a separator string.
// ---------------------------------------------------------------------------

/// The first position at or after `i` where `needle` occurs in `hay`, or
/// `hay.len()` if there is none.
pub open spec fn first_occ_from(hay: Seq<char>, needle: Seq<char>, i: int) -> int
    decreases hay.len() - i,
{
    if i < 0 || i >= hay.len() || i + needle.len() > hay.len() {
        hay.len() as int
    } else if occurs_at(hay, needle, i) {
        i
    } else {
        first_occ_from(hay, needle, i + 1)
    }
}

pub proof fn lemma_first_occ_from(hay: Seq<char>, needle: Seq<char>, i: int)
    requires
        0 <= i <= hay.len(),
        needle.len() > 0,
    ensures
        i <= first_occ_from(hay, needle, i) <= hay.len(),
        first_occ_from(hay, needle, i) < hay.len() ==> occurs_at(
            hay,
            needle,
            first_occ_from(hay, needle, i),
        ),
        forall|j: int| i <= j < first_occ_from(hay, needle, i) ==> !occurs_at(hay, needle, j),
        first_occ_from(hay, needle, i) == hay.len() ==> forall|j: int|
            i <= j ==> !occurs_at(hay, needle, j),
    decreases hay.len() - i,
{
    if i >= hay.len() || i + needle.len() > hay.len() {
        assert(forall|j: int| j >= i ==> !occurs_at(hay, needle, j));
    } else if !occurs_at(hay, needle, i) {
        lemma_first_occ_from(hay, needle, i + 1);
    }
}

/// The pieces of `s` between occurrences of `sep`, in order; like the
/// standard `split`, the piece count is one more than the separator count.
pub open spec fn spec_split(s: Seq<char>, sep: Seq<char>) -> Seq<Seq<char>>
    decreases s.len(),
{
    let p = first_occ_from(s, sep, 0);
    if 0 <= p && p + sep.len() <= s.len() && sep.len() > 0 && p < s.len() {
        seq![s.subrange(0, p)] + spec_split(s.skip(p + sep.len()), sep)
    } else {
        seq![s]
    }
}

/// Splits `s` on `sep`, directly.
pub fn split_chars(s: &Vec<char>, sep: &Vec<char>) -> (r: Vec<Vec<char>>)
    requires
        sep@.len() > 0,
    ensures
        views(r@) == spec_split(s@, sep@),
    decreases s@.len(),
{
    proof {
        lemma_first_occ_from(s@, sep@, 0);
        crate::util::lemma_views_index(Seq::<Vec<char>>::empty());
    }
    match find_sub_from(s, sep, 0) {
        Some(p) => {
            assert(p == first_occ_from(s@, sep@, 0)) by {
                assert(occurs_at(s@, sep@, p as int));
            }
            assert(p < s@.len() && p + sep@.len() <= s@.len()) by {
                assert(occurs_at(s@, sep@, p as int));
            }
            let piece = slice_chars(s, 0, p);
            let sl = sep.len();
            let n = s.len();
            assert(p + sl <= n);
            let rest = slice_chars(s, p + sl, n);
            proof {
                assert(rest@ =~= s@.skip(p + sl));
            }
            let mut tail = split_chars(&rest, sep);
            let mut out: Vec<Vec<char>> = Vec::new();
            out.push(piece);
            let ghost tail_view = views(tail@);
            out.append(&mut tail);
            proof {
                crate::util::lemma_views_index(out@);
                assert(views(out@) =~= seq![s@.subrange(0, p as int)] + tail_view);
            }
            out
        },
        Option::None => {
            assert(first_occ_from(s@, sep@, 0) == s@.len()) by {
                if first_occ_from(s@, sep@, 0) < s@.len() {
                    assert(occurs_at(s@, sep@, first_occ_from(s@, sep@, 0)));
                }
            }
            let mut out: Vec<Vec<char>> = Vec::new();
            let piece = slice_chars(s, 0, s.len());
            proof {
                assert(piece@ =~= s@);
            }
            out.push(piece);
            proof {
                crate::util::lemma_views_index(out@);
                assert(views(out@) =~= seq![s@]);
            }
            out
        },
    }
}

// ---------------------------------------------------------------------------
// Content encodings and the negotiation algorithm.
// ---------------------------------------------------------------------------

/// A configured compression mode with its level: `Auto` picks for the client,
/// the others stand for one specific encoding; `Identity` is no compression.
#[derive(Debug, Clone, Copy, PartialEq, Eq, Structural)]
pub enum ContentEncoding {
    Auto(u32),
    Gzip(u32),
    Deflate(u32),
    Br(u32),
    Identity,
}

/// Whether the client's `Accept-Encoding` list names `enc`.
pub open spec fn client_accepts(client: Seq<Seq<char>>, enc: Seq<char>) -> bool {
    exists|i: int| 0 <= i < client.len() && client[i] == enc
}

/// The encoding selected for one configured mode: a specific mode is chosen
/// exactly when the client accepts it; `Auto` expands to the first of
/// `gzip`, `deflate`, `br` that the client accepts.
pub open spec fn spec_choose(mode: ContentEncoding, client: Seq<Seq<char>>) -> ContentEncoding {
    match mode {
        ContentEncoding::Auto(level) => {
            if client_accepts(client, "gzip"@) {
                ContentEncoding::Gzip(level)
            } else if client_accepts(client, "deflate"@) {
                ContentEncoding::Deflate(level)
            } else if client_accepts(client, "br"@) {
                ContentEncoding::Br(level)
            } else {
                ContentEncoding::Identity
            }
        },
        ContentEncoding::Gzip(level) => {
            if client_accepts(client, "gzip"@) {
                ContentEncoding::Gzip(level)
            } else {
                ContentEncoding::Identity
            }
        },
        ContentEncoding::Deflate(level) => {
            if client_accepts(client, "deflate"@) {
                ContentEncoding::Deflate(level)
            } else {
                ContentEncoding::Identity
            }
        },
        ContentEncoding::Br(level) => {
            if client_accepts(client, "br"@) {
                ContentEncoding::Br(level)
            } else {
                ContentEncoding::Identity
            }
        },
        ContentEncoding::Identity => ContentEncoding::Identity,
    }
}

/// The encoding selected from an ordered mode list: that of the first mode
/// which selects one.
pub open spec fn spec_choose_list(modes: Seq<ContentEncoding>, client: Seq<Seq<char>>)
    -> ContentEncoding
    decreases modes.len(),
{
    if modes.len() == 0 {
        ContentEncoding::Identity
    } else if spec_choose(modes[0], client) != ContentEncoding::Identity {
        spec_choose(modes[0], client)
    } else {
        spec_choose_list(modes.drop_first(), client)
    }
}

fn accepts(client: &Vec<Vec<char>>, enc: &str) -> (r: bool)
    ensures
        r == client_accepts(views(client@), enc@),
{
    proof {
        crate::util::lemma_views_index(client@);
    }
    let e = str_chars(enc);
    let n = client.len();
    let mut i: usize = 0;
    while i < n
        invariant
            n == client@.len(),
            e@ == enc@,
            i <= n,
            forall|j: int| 0 <= j < i ==> #[trigger] client@[j]@ != enc@,
            forall|j: int| 0 <= j < n ==> views(client@)[j] == #[trigger] client@[j]@,
        decreases n - i,
    {
        if eq_chars(&client[i], &e) {
            assert(views(client@)[i as int] == enc@);
            return true;
        }
        i = i + 1;
    }
    false
}

impl ContentEncoding {
    /// Classifies a configured mode name with its level; fails exactly on an
    /// unknown name.
    pub fn from(mode: &str, level: u32) -> (r: Result<ContentEncoding, String>)
        ensures
            match r {
                Ok(e) => (mode@ == "auto"@ && e == ContentEncoding::Auto(level)) || (mode@
                    == "gzip"@ && e == ContentEncoding::Gzip(level)) || (mode@ == "deflate"@ && e
                    == ContentEncoding::Deflate(level)) || (mode@ == "br"@ && e
                    == ContentEncoding::Br(level)),
                Err(_) => mode@ != "auto"@ && mode@ != "gzip"@ && mode@ != "deflate"@ && mode@
                    != "br"@,
            },
    {
        let m = str_chars(mode);
        if eq_chars(&m, &str_chars("auto")) {
            Ok(ContentEncoding::Auto(level))
        } else if eq_chars(&m, &str_chars("gzip")) {
            Ok(ContentEncoding::Gzip(level))
        } else if eq_chars(&m, &str_chars("deflate")) {
            Ok(ContentEncoding::Deflate(level))
        } else if eq_chars(&m, &str_chars("br")) {
            Ok(ContentEncoding::Br(level))
        } else {
            Err(crate::matcher::error_message("Wrong compression mode `", &m, "`"))
        }
    }

    /// The encoding this mode selects for the given client list.
    pub fn parse_mode(&self, modes: &Vec<String>) -> (r: ContentEncoding)
        ensures
            r == spec_choose(
                *self,
                Seq::new(modes@.len(), |i: int| modes@[i]@),
            ),
    {
        let mut client: Vec<Vec<char>> = Vec::new();
        let n = modes.len();
        let mut i: usize = 0;
        while i < n
            invariant
                n == modes@.len(),
                client@.len() == i,
                i <= n,
                forall|j: int| 0 <= j < i ==> #[trigger] client@[j]@ == modes@[j]@,
            decreases n - i,
        {
            client.push(str_chars(modes[i].as_str()));
            i = i + 1;
        }
        proof {
            crate::util::lemma_views_index(client@);
            assert(views(client@) =~= Seq::new(modes@.len(), |i: int| modes@[i]@));
        }
        choose_one(*self, &client)
    }

    /// The `Content-Encoding` header text for this encoding; empty for
    /// `Auto` and `Identity`.
    pub fn to_header_value(&self) -> (r: String)
        ensures
            match self {
                ContentEncoding::Gzip(_) => r@ == "gzip"@,
                ContentEncoding::Deflate(_) => r@ == "deflate"@,
                ContentEncoding::Br(_) => r@ == "br"@,
                _ => r@ == ""@,
            },
    {
        let s = match self {
            ContentEncoding::Gzip(_) => "gzip",
            ContentEncoding::Deflate(_) => "deflate",
            ContentEncoding::Br(_) => "br",
            _ => "",
        };
        let c = str_chars(s);
        crate::util::chars_string(&c)
    }
}

fn choose_one(mode: ContentEncoding, client: &Vec<Vec<char>>) -> (r: ContentEncoding)
    ensures
        r == spec_choose(mode, views(client@)),
{
    match mode {
        ContentEncoding::Auto(level) => {
            if accepts(client, "gzip") {
                ContentEncoding::Gzip(level)
            } else if accepts(client, "deflate") {
                ContentEncoding::Deflate(level)
            } else if accepts(client, "br") {
                ContentEncoding::Br(level)
            } else {
                ContentEncoding::Identity
            }
        },
        ContentEncoding::Gzip(level) => {
            if accepts(client, "gzip") {
                ContentEncoding::Gzip(level)
            } else {
                ContentEncoding::Identity
            }
        },
        ContentEncoding::Deflate(level) => {
            if accepts(client, "deflate") {
                ContentEncoding::Deflate(level)
            } else {
                ContentEncoding::Identity
            }
        },
        ContentEncoding::Br(level) => {
            if accepts(client, "br") {
                ContentEncoding::Br(level)
            } else {
                ContentEncoding::Identity
            }
        },
        ContentEncoding::Identity => ContentEncoding::Identity,
    }
}

/// The compression option of a site: an ordered mode list and the file
/// extensions it applies to.
#[derive(Debug, Clone)]
pub struct Compress {
    pub modes: Vec<ContentEncoding>,
    pub extensions: Vec<String>,
}

/// The extension list of a compress option, as sequences.
pub open spec fn ext_views(c: Compress) -> Seq<Seq<char>> {
    Seq::new(c.extensions@.len(), |i: int| c.extensions@[i]@)
}

/// What the compression layer selects: nothing when the file's extension is
/// not listed; otherwise the first configured mode the client accepts, with
/// the client list read by splitting `Accept-Encoding` on `", "`.
pub open spec fn spec_compress_choice(c: Compress, accept: Seq<char>, ext: Seq<char>) -> Option<
    ContentEncoding,
> {
    if !ext_views(c).contains(ext) {
        None
    } else {
        let client = spec_split(accept, ", "@);
        let chosen = spec_choose_list(c.modes@, client);
        if chosen == ContentEncoding::Identity {
            None
        } else {
            Some(chosen)
        }
    }
}

impl Compress {
    /// The encoding to use for a response with extension `ext`, given the
    /// client's `Accept-Encoding` header.
    pub fn get_compress_mode(&self, accept: &str, ext: &str) -> (r: Option<ContentEncoding>)
        ensures
            r == spec_compress_choice(*self, accept@, ext@),
    {
        let e = str_chars(ext);
        let mut found = false;
        let n = self.extensions.len();
        let mut i: usize = 0;
        while i < n
            invariant
                n == self.extensions@.len(),
                e@ == ext@,
                i <= n,
                !found ==> forall|j: int| 0 <= j < i ==> #[trigger] self.extensions@[j]@ != ext@,
                found ==> ext_views(*self).contains(ext@),
                forall|j: int|
                    0 <= j < n ==> ext_views(*self)[j] == #[trigger] self.extensions@[j]@,
            decreases n - i,
        {
            let x = str_chars(self.extensions[i].as_str());
            if eq_chars(&x, &e) {
                assert(ext_views(*self)[i as int] == ext@);
                found = true;
            }
            i = i + 1;
        }
        if !found {
            assert(!ext_views(*self).contains(ext@));
            return Option::None;
        }
        let a = str_chars(accept);
        let sep = str_chars(", ");
        proof {
            reveal_strlit(", ");
        }
        let client = split_chars(&a, &sep);
        let mn = self.modes.len();
        let mut k: usize = 0;
        proof {
            assert(self.modes@.skip(0) =~= self.modes@);
        }
        while k < mn
            invariant
                mn == self.modes@.len(),
                k <= mn,
                ext_views(*self).contains(ext@),
                views(client@) == spec_split(accept@, ", "@),
                spec_choose_list(self.modes@, views(client@)) == spec_choose_list(
                    self.modes@.skip(k as int),
                    views(client@),
                ),
            decreases mn - k,
        {
            proof {
                assert(self.modes@.skip(k as int).drop_first() =~= self.modes@.skip(k + 1));
                assert(self.modes@.skip(k as int)[0] == self.modes@[k as int]);
            }
            let chosen = choose_one(self.modes[k], &client);
            if !matches!(chosen, ContentEncoding::Identity) {
                return Some(chosen);
            }
            k = k + 1;
        }
        proof {
            assert(self.modes@.skip(mn as int) =~= Seq::<ContentEncoding>::empty());
        }
        Option::None
    }
}

/// Law: the selected encoding comes from the first mode that selects one;
/// every mode before it selects nothing, and a specific mode selects exactly
/// when the client accepts its encoding, while `Auto` expands to the first of
/// `gzip`, `deflate`, `br` in the client's list (see `spec_choose`).
pub proof fn lemma_compression_choice(modes: Seq<ContentEncoding>, client: Seq<Seq<char>>)
    ensures
        spec_choose_list(modes, client) != ContentEncoding::Identity ==> exists|k: int|
            0 <= k < modes.len() && spec_choose_list(modes, client) == spec_choose(
                #[trigger] modes[k],
                client,
            ) && (forall|j: int|
                0 <= j < k ==> spec_choose(#[trigger] modes[j], client)
                    == ContentEncoding::Identity),
        spec_choose_list(modes, client) == ContentEncoding::Identity ==> forall|k: int|
            0 <= k < modes.len() ==> spec_choose(#[trigger] modes[k], client)
                == ContentEncoding::Identity,
    decreases modes.len(),
{
    if modes.len() > 0 {
        let rest = modes.drop_first();
        lemma_compression_choice(rest, client);
        assert(forall|j: int| 0 <= j < rest.len() ==> #[trigger] rest[j] == modes[j + 1]);
        if spec_choose(modes[0], client) != ContentEncoding::Identity {
            assert(spec_choose_list(modes, client) == spec_choose(modes[0], client));
        } else {
            assert(spec_choose_list(modes, client) == spec_choose_list(rest, client));
            if spec_choose_list(rest, client) != ContentEncoding::Identity {
                let k0 = choose|k: int|
                    0 <= k < rest.len() && spec_choose_list(rest, client) == spec_choose(
                        #[trigger] rest[k],
                        client,
                    ) && (forall|j: int|
                        0 <= j < k ==> spec_choose(#[trigger] rest[j], client)
                            == ContentEncoding::Identity);
                assert(rest[k0] == modes[k0 + 1]);
                assert forall|j: int|
                    0 <= j < k0 + 1 implies spec_choose(#[trigger] modes[j], client)
                    == ContentEncoding::Identity by {
                    if j > 0 {
                        assert(modes[j] == rest[j - 1]);
                    }
                }
                assert(0 <= k0 + 1 < modes.len() && spec_choose_list(modes, client)
                    == spec_choose(#[trigger] modes[k0 + 1], client));
            } else {
                assert forall|k: int|
                    0 <= k < modes.len() implies spec_choose(#[trigger] modes[k], client)
                    == ContentEncoding::Identity by {
                    if k > 0 {
                        assert(modes[k] == rest[k - 1]);
                    }
                }
            }
        }
    }
}

} // verus!
