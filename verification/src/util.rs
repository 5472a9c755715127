use vstd::prelude::*;

verus! {

// ---------------------------------------------------------------------------
// Conversions between strings and character vectors.
//
// The request-handling logic works over `Vec<char>`, whose view is the same
// `Seq<char>` as the view of the `String` it came from.
// ---------------------------------------------------------------------------

/// The characters of a string slice, in order.
pub fn str_chars(s: &str) -> (r: Vec<char>)
    ensures
        r@ == s@,
{
    let n = s.unicode_len();
    let mut r: Vec<char> = Vec::new();
    let mut i: usize = 0;
    while i < n
        invariant
            n == s@.len(),
            i <= n,
            r@ == s@.subrange(0, i as int),
        decreases n - i,
    {
        r.push(s.get_char(i));
        i = i + 1;
    }
    proof {
        assert(r@ =~= s@);
    }
    r
}

/// Relies on `String`'s `FromIterator` impl: collecting characters yields the
/// string of exactly those characters, in order.
#[verifier::external_body]
pub fn chars_string(v: &Vec<char>) -> (r: String)
    ensures
        r@ == v@,
{
    v.iter().collect()
}

/// Element-wise equality of two character vectors.
pub fn eq_chars(a: &Vec<char>, b: &Vec<char>) -> (r: bool)
    ensures
        r == (a@ == b@),
{
    if a.len() != b.len() {
        proof {
            assert(a@ != b@);
        }
        return false;
    }
    let n = a.len();
    let mut i: usize = 0;
    while i < n
        invariant
            n == a@.len() && n == b@.len(),
            i <= n,
            forall|j: int| 0 <= j < i ==> a@[j] == b@[j],
        decreases n - i,
    {
        if a[i] != b[i] {
            return false;
        }
        i = i + 1;
    }
    proof {
        assert(a@ =~= b@);
    }
    true
}

/// Whether `needle` occurs in `hay` starting at position `i`.
pub open spec fn occurs_at(hay: Seq<char>, needle: Seq<char>, i: int) -> bool {
    0 <= i && i + needle.len() <= hay.len() && hay.subrange(i, i + needle.len()) == needle
}

/// Whether `needle` occurs in `hay` at position `i`, tested directly.
pub fn occurs_at_exec(hay: &Vec<char>, needle: &Vec<char>, i: usize) -> (r: bool)
    requires
        i <= hay@.len(),
    ensures
        r == occurs_at(hay@, needle@, i as int),
{
    let hl = hay.len();
    if hl - i < needle.len() {
        proof {
            assert(!occurs_at(hay@, needle@, i as int));
        }
        return false;
    }
    let n = needle.len();
    let mut j: usize = 0;
    while j < n
        invariant
            n == needle@.len(),
            hl == hay@.len(),
            i + n <= hl,
            j <= n,
            forall|k: int| 0 <= k < j ==> hay@[i + k] == needle@[k],
        decreases n - j,
    {
        if hay[i + j] != needle[j] {
            proof {
                assert(hay@.subrange(i as int, i + needle@.len())[j as int] == hay@[i + j]);
            }
            return false;
        }
        j = j + 1;
    }
    proof {
        assert(hay@.subrange(i as int, i + needle@.len()) =~= needle@);
    }
    true
}

/// The least position at or after `from` where `needle` occurs in `hay`.
pub fn find_sub_from(hay: &Vec<char>, needle: &Vec<char>, from: usize) -> (r: Option<usize>)
    requires
        from <= hay@.len(),
    ensures
        match r {
            Some(i) => from <= i && occurs_at(hay@, needle@, i as int) && forall|j: int|
                from <= j < i ==> !occurs_at(hay@, needle@, j),
            None => forall|j: int| from <= j ==> !occurs_at(hay@, needle@, j),
        },
{
    let n = hay.len();
    let mut i: usize = from;
    while i < n
        invariant
            n == hay@.len(),
            from <= i,
            i <= n,
            forall|j: int| from <= j < i ==> !occurs_at(hay@, needle@, j),
        decreases n - i,
    {
        if occurs_at_exec(hay, needle, i) {
            return Some(i);
        }
        i = i + 1;
    }
    if occurs_at_exec(hay, needle, n) {
        return Some(n);
    }
    proof {
        assert(forall|j: int| from <= j && occurs_at(hay@, needle@, j) ==> j <= n as int);
    }
    None
}

/// Whether `c` occurs in `s`.
pub open spec fn seq_has_char(s: Seq<char>, c: char) -> bool {
    exists|i: int| 0 <= i < s.len() && s[i] == c
}

/// The position of the first occurrence of `c` in `s` at or after `from`.
pub fn find_char_from(s: &Vec<char>, c: char, from: usize) -> (r: Option<usize>)
    requires
        from <= s@.len(),
    ensures
        match r {
            Some(i) => from <= i < s@.len() && s@[i as int] == c && forall|j: int|
                from <= j < i ==> s@[j] != c,
            None => forall|j: int| from <= j < s@.len() ==> s@[j] != c,
        },
{
    let n = s.len();
    let mut i: usize = from;
    while i < n
        invariant
            n == s@.len(),
            from <= i,
            i <= n,
            forall|j: int| from <= j < i ==> s@[j] != c,
        decreases n - i,
    {
        if s[i] == c {
            return Some(i);
        }
        i = i + 1;
    }
    None
}

/// Whether any character of `s` equals `c`.
pub fn has_char(s: &Vec<char>, c: char) -> (r: bool)
    ensures
        r == seq_has_char(s@, c),
{
    match find_char_from(s, c, 0) {
        Some(_) => true,
        Option::None => false,
    }
}

/// `a` followed by `b`.
pub fn concat_chars(a: &Vec<char>, b: &Vec<char>) -> (r: Vec<char>)
    ensures
        r@ == a@ + b@,
{
    let mut r: Vec<char> = Vec::new();
    let mut i: usize = 0;
    let na = a.len();
    while i < na
        invariant
            na == a@.len(),
            i <= na,
            r@ == a@.subrange(0, i as int),
        decreases na - i,
    {
        r.push(a[i]);
        i = i + 1;
    }
    proof {
        assert(r@ =~= a@);
    }
    let nb = b.len();
    let mut j: usize = 0;
    while j < nb
        invariant
            nb == b@.len(),
            j <= nb,
            r@ == a@ + b@.subrange(0, j as int),
        decreases nb - j,
    {
        proof {
            assert(a@ + b@.subrange(0, j + 1) =~= (a@ + b@.subrange(0, j as int)).push(b@[j as int]));
        }
        r.push(b[j]);
        j = j + 1;
    }
    proof {
        assert(b@.subrange(0, nb as int) =~= b@);
    }
    r
}

/// The characters of `s` from `from` (inclusive) to `to` (exclusive).
pub fn slice_chars(s: &Vec<char>, from: usize, to: usize) -> (r: Vec<char>)
    requires
        from <= to <= s@.len(),
    ensures
        r@ == s@.subrange(from as int, to as int),
{
    let mut r: Vec<char> = Vec::new();
    let mut i: usize = from;
    while i < to
        invariant
            from <= i <= to <= s@.len(),
            r@ == s@.subrange(from as int, i as int),
        decreases to - i,
    {
        proof {
            assert(s@.subrange(from as int, i + 1) =~= s@.subrange(from as int, i as int).push(
                s@[i as int],
            ));
        }
        r.push(s[i]);
        i = i + 1;
    }
    r
}

/// Whether `s` starts with `prefix`.
pub open spec fn starts_with(s: Seq<char>, prefix: Seq<char>) -> bool {
    prefix.len() <= s.len() && s.subrange(0, prefix.len() as int) == prefix
}

/// Whether `s` ends with `suffix`.
pub open spec fn ends_with(s: Seq<char>, suffix: Seq<char>) -> bool {
    suffix.len() <= s.len() && s.subrange(s.len() - suffix.len(), s.len() as int) == suffix
}

/// Whether `s` starts with `prefix`, tested directly.
pub fn starts_with_exec(s: &Vec<char>, prefix: &Vec<char>) -> (r: bool)
    ensures
        r == starts_with(s@, prefix@),
{
    occurs_at_exec(s, prefix, 0)
}

/// Whether `s` ends with `suffix`, tested directly.
pub fn ends_with_exec(s: &Vec<char>, suffix: &Vec<char>) -> (r: bool)
    ensures
        r == ends_with(s@, suffix@),
{
    if suffix.len() > s.len() {
        return false;
    }
    occurs_at_exec(s, suffix, s.len() - suffix.len())
}

// ---------------------------------------------------------------------------
// Decimal rendering and parsing.
// ---------------------------------------------------------------------------

/// The decimal digit character for a value below ten.
pub open spec fn spec_digit(n: int) -> char {
    if n == 0 {
        '0'
    } else if n == 1 {
        '1'
    } else if n == 2 {
        '2'
    } else if n == 3 {
        '3'
    } else if n == 4 {
        '4'
    } else if n == 5 {
        '5'
    } else if n == 6 {
        '6'
    } else if n == 7 {
        '7'
    } else if n == 8 {
        '8'
    } else {
        '9'
    }
}

/// The decimal rendering of a natural number, without leading zeros.
pub open spec fn spec_decimal(n: int) -> Seq<char>
    decreases n,
{
    if n < 10 {
        seq![spec_digit(n)]
    } else {
        spec_decimal(n / 10).push(spec_digit(n % 10))
    }
}

fn digit_char(n: u128) -> (r: char)
    requires
        n < 10,
    ensures
        r == spec_digit(n as int),
{
    match n {
        0 => '0',
        1 => '1',
        2 => '2',
        3 => '3',
        4 => '4',
        5 => '5',
        6 => '6',
        7 => '7',
        8 => '8',
        _ => '9',
    }
}

/// The decimal rendering of `n`.
pub fn decimal_chars(n: u128) -> (r: Vec<char>)
    ensures
        r@ == spec_decimal(n as int),
    decreases n,
{
    if n < 10 {
        let mut r: Vec<char> = Vec::new();
        r.push(digit_char(n));
        proof {
            assert(r@ =~= spec_decimal(n as int));
        }
        r
    } else {
        let mut r = decimal_chars(n / 10);
        r.push(digit_char(n % 10));
        r
    }
}

/// The decimal rendering of `n`, as a string.
pub fn decimal_string(n: u64) -> (r: String)
    ensures
        r@ == spec_decimal(n as int),
{
    let chars = decimal_chars(n as u128);
    chars_string(&chars)
}

/// Whether every character of `s` is a decimal digit.
pub open spec fn all_digits(s: Seq<char>) -> bool {
    forall|i: int| 0 <= i < s.len() ==> '0' <= #[trigger] s[i] <= '9'
}

/// The value of a digit string, most significant digit first.
pub open spec fn spec_dec_value(s: Seq<char>) -> int
    decreases s.len(),
{
    if s.len() == 0 {
        0
    } else {
        spec_dec_value(s.drop_last()) * 10 + (s.last() as int - '0' as int)
    }
}

/// Ten to the power `n`.
pub open spec fn pow10(n: nat) -> int
    decreases n,
{
    if n == 0 {
        1
    } else {
        10 * pow10((n - 1) as nat)
    }
}

/// Parses a non-empty, all-digit string of at most five characters to its
/// value, for ports and status codes; rejects anything else.
pub fn parse_small_decimal(s: &Vec<char>) -> (r: Option<u32>)
    ensures
        match r {
            Some(v) => s@.len() > 0 && s@.len() <= 5 && all_digits(s@) && v == spec_dec_value(s@),
            None => !(s@.len() > 0 && s@.len() <= 5 && all_digits(s@)),
        },
{
    let n = s.len();
    if n == 0 || n > 5 {
        return Option::None;
    }
    let mut v: u32 = 0;
    let mut i: usize = 0;
    while i < n
        invariant
            n == s@.len(),
            0 < n <= 5,
            i <= n,
            forall|j: int| 0 <= j < i ==> '0' <= #[trigger] s@[j] <= '9',
            v == spec_dec_value(s@.subrange(0, i as int)),
            v < pow10(i as nat),
        decreases n - i,
    {
        let c = s[i];
        if c < '0' || c > '9' {
            return Option::None;
        }
        proof {
            assert(s@.subrange(0, i + 1).drop_last() =~= s@.subrange(0, i as int));
            assert(s@.subrange(0, i + 1).last() == s@[i as int]);
            reveal_with_fuel(pow10, 7);
            assert(pow10((i + 1) as nat) == 10 * pow10(i as nat));
        }
        v = v * 10 + ((c as u32) - ('0' as u32));
        i = i + 1;
    }
    proof {
        assert(s@.subrange(0, n as int) =~= s@);
    }
    Some(v)
}

/// Parses a non-empty, all-digit string of at most eighteen characters to
/// its value, for durations; rejects anything else.
pub fn parse_decimal_u64(s: &Vec<char>) -> (r: Option<u64>)
    ensures
        match r {
            Some(v) => s@.len() > 0 && s@.len() <= 18 && all_digits(s@) && v == spec_dec_value(s@),
            None => !(s@.len() > 0 && s@.len() <= 18 && all_digits(s@)),
        },
{
    let n = s.len();
    if n == 0 || n > 18 {
        return Option::None;
    }
    let mut v: u64 = 0;
    let mut i: usize = 0;
    while i < n
        invariant
            n == s@.len(),
            0 < n <= 18,
            i <= n,
            forall|j: int| 0 <= j < i ==> '0' <= #[trigger] s@[j] <= '9',
            v == spec_dec_value(s@.subrange(0, i as int)),
            v < pow10(i as nat),
        decreases n - i,
    {
        let c = s[i];
        if c < '0' || c > '9' {
            return Option::None;
        }
        proof {
            assert(s@.subrange(0, i + 1).drop_last() =~= s@.subrange(0, i as int));
            assert(s@.subrange(0, i + 1).last() == s@[i as int]);
            reveal_with_fuel(pow10, 20);
            assert(pow10((i + 1) as nat) == 10 * pow10(i as nat));
        }
        v = v * 10 + (((c as u32) - ('0' as u32)) as u64);
        i = i + 1;
    }
    proof {
        assert(s@.subrange(0, n as int) =~= s@);
    }
    Some(v)
}

// ---------------------------------------------------------------------------
// Paths.
// ---------------------------------------------------------------------------

/// The index of the last occurrence of `c` in `s`, or -1.
pub open spec fn last_index_of(s: Seq<char>, c: char) -> int
    decreases s.len(),
{
    if s.len() == 0 {
        -1
    } else if s.last() == c {
        s.len() - 1
    } else {
        last_index_of(s.drop_last(), c)
    }
}

pub proof fn lemma_last_index_of(s: Seq<char>, c: char)
    ensures
        -1 <= last_index_of(s, c) < s.len(),
        last_index_of(s, c) >= 0 ==> s[last_index_of(s, c)] == c,
        forall|j: int| last_index_of(s, c) < j < s.len() ==> s[j] != c,
    decreases s.len(),
{
    if s.len() > 0 && s.last() != c {
        lemma_last_index_of(s.drop_last(), c);
        assert(forall|j: int|
            last_index_of(s, c) < j < s.len() - 1 ==> s[j] == s.drop_last()[j] && s[j] != c);
    }
}

/// The file extension of a path: the part of the last `/`-separated component
/// after its last `.`, where that `.` is neither the component's first
/// character nor its last; empty otherwise.
pub open spec fn spec_extension(path: Seq<char>) -> Seq<char> {
    let name = path.subrange(last_index_of(path, '/') + 1, path.len() as int);
    let k = last_index_of(name, '.');
    if 0 < k < name.len() - 1 {
        name.subrange(k + 1, name.len() as int)
    } else {
        seq![]
    }
}

fn rfind_char(s: &Vec<char>, c: char) -> (r: Option<usize>)
    ensures
        match r {
            Some(i) => i as int == last_index_of(s@, c),
            None => last_index_of(s@, c) == -1,
        },
{
    proof {
        lemma_last_index_of(s@, c);
    }
    let mut i: usize = s.len();
    while i > 0
        invariant
            i <= s@.len(),
            forall|j: int| i <= j < s@.len() ==> s@[j] != c,
            -1 <= last_index_of(s@, c) < s@.len(),
            last_index_of(s@, c) >= 0 ==> s@[last_index_of(s@, c)] == c,
            forall|j: int| last_index_of(s@, c) < j < s@.len() ==> s@[j] != c,
        decreases i,
    {
        i = i - 1;
        if s[i] == c {
            return Some(i);
        }
    }
    Option::None
}

/// The file extension of `path` per `spec_extension`, or empty.
pub fn get_extension(path: &str) -> (r: String)
    ensures
        r@ == spec_extension(path@),
{
    let chars = str_chars(path);
    let cl = chars.len();
    proof {
        lemma_last_index_of(chars@, '/');
    }
    let name_start: usize = match rfind_char(&chars, '/') {
        Some(i) => {
            assert(i < cl);
            i + 1
        },
        Option::None => 0,
    };
    let name = slice_chars(&chars, name_start, cl);
    let nl = name.len();
    proof {
        lemma_last_index_of(name@, '.');
    }
    let r = match rfind_char(&name, '.') {
        Some(k) => {
            assert(k < nl);
            if k > 0 && k + 1 < nl {
                slice_chars(&name, k + 1, nl)
            } else {
                Vec::new()
            }
        },
        Option::None => Vec::new(),
    };
    proof {
        assert(r@ =~= spec_extension(path@));
    }
    chars_string(&r)
}

/// An absolute path begins with `/`.
pub open spec fn is_absolute(path: Seq<char>) -> bool {
    path.len() > 0 && path[0] == '/'
}

/// Joining `path` under `root`: `path` itself if absolute, else `root` and
/// `path` separated by a single `/`.
pub open spec fn spec_join(path: Seq<char>, root: Seq<char>) -> Seq<char> {
    if is_absolute(path) {
        path
    } else if root.len() > 0 && root.last() == '/' {
        root + path
    } else {
        root + seq!['/'] + path
    }
}

/// Converts `path` to an absolute path under `root`.
pub fn absolute_path(path: &str, root: &str) -> (r: String)
    ensures
        r@ == spec_join(path@, root@),
{
    let p = str_chars(path);
    let rt = str_chars(root);
    if p.len() > 0 && p[0] == '/' {
        let r = chars_string(&p);
        return r;
    }
    let mut out = rt;
    if out.len() == 0 || out[out.len() - 1] != '/' {
        out.push('/');
    }
    let joined = concat_chars(&out, &p);
    proof {
        if root@.len() > 0 && root@.last() == '/' {
            assert(joined@ =~= spec_join(path@, root@));
        } else {
            assert(joined@ =~= spec_join(path@, root@));
        }
    }
    chars_string(&joined)
}

// ---------------------------------------------------------------------------
// Deduplication.
// ---------------------------------------------------------------------------

/// Keeps the first occurrence of each string, in order.
pub open spec fn spec_dedup(s: Seq<Seq<char>>) -> Seq<Seq<char>>
    decreases s.len(),
{
    if s.len() == 0 {
        s
    } else {
        let rest = spec_dedup(s.drop_last());
        if rest.contains(s.last()) {
            rest
        } else {
            rest.push(s.last())
        }
    }
}

/// The views of a list of character vectors.
pub open spec fn views(v: Seq<Vec<char>>) -> Seq<Seq<char>> {
    v.map_values(|c: Vec<char>| c@)
}

pub proof fn lemma_views_index(v: Seq<Vec<char>>)
    ensures
        views(v).len() == v.len(),
        forall|j: int| 0 <= j < v.len() ==> views(v)[j] == #[trigger] v[j]@,
{
}

fn chars_vec_contains(v: &Vec<Vec<char>>, x: &Vec<char>) -> (r: bool)
    ensures
        r == views(v@).contains(x@),
{
    proof {
        lemma_views_index(v@);
    }
    let n = v.len();
    let mut i: usize = 0;
    while i < n
        invariant
            n == v@.len(),
            i <= n,
            forall|j: int| 0 <= j < i ==> #[trigger] v@[j]@ != x@,
            views(v@).len() == v@.len(),
            forall|j: int| 0 <= j < v@.len() ==> views(v@)[j] == #[trigger] v@[j]@,
        decreases n - i,
    {
        if eq_chars(&v[i], x) {
            assert(views(v@)[i as int] == x@);
            return true;
        }
        i = i + 1;
    }
    false
}

/// Removes later duplicates from a list of strings, keeping first occurrences.
pub fn dedup_chars(v: Vec<Vec<char>>) -> (r: Vec<Vec<char>>)
    ensures
        views(r@) == spec_dedup(views(v@)),
{
    let n = v.len();
    let mut out: Vec<Vec<char>> = Vec::new();
    let mut i: usize = 0;
    while i < n
        invariant
            n == v@.len(),
            i <= n,
            views(out@) == spec_dedup(views(v@.subrange(0, i as int))),
        decreases n - i,
    {
        proof {
            lemma_views_index(v@.subrange(0, i + 1));
            lemma_views_index(v@.subrange(0, i as int));
            lemma_views_index(v@);
            assert(views(v@.subrange(0, i + 1)).drop_last() =~= views(v@.subrange(0, i as int)));
            assert(views(v@.subrange(0, i + 1)).last() == v@[i as int]@);
        }
        let item = v[i].clone();
        assert(item@ == v@[i as int]@);
        if !chars_vec_contains(&out, &item) {
            let ghost prev = views(out@);
            out.push(item);
            proof {
                lemma_views_index(out@);
                assert(views(out@) =~= prev.push(v@[i as int]@));
            }
        } else {
            proof {
                assert(views(v@.subrange(0, i + 1)) =~= views(v@.subrange(0, i as int)).push(
                    v@[i as int]@,
                ));
            }
        }
        i = i + 1;
        proof {
            assert(views(v@.subrange(0, i as int)) =~= views(v@.subrange(0, i - 1)).push(
                v@[i - 1]@,
            ));
        }
    }
    proof {
        assert(v@.subrange(0, n as int) =~= v@);
    }
    out
}

} // verus!
