use crate::util::str_chars;
use vstd::prelude::*;

verus! {

/// The index of the first occurrence of `c` in `s` at or after `i`, or
/// `s.len()` if there is none.
pub open spec fn first_index_from(s: Seq<char>, i: int, c: char) -> int
    decreases s.len() - i,
{
    if i < 0 || i >= s.len() {
        s.len() as int
    } else if s[i] == c {
        i
    } else {
        first_index_from(s, i + 1, c)
    }
}

pub proof fn lemma_first_index_from(s: Seq<char>, i: int, c: char)
    requires
        0 <= i <= s.len(),
    ensures
        i <= first_index_from(s, i, c) <= s.len(),
        first_index_from(s, i, c) < s.len() ==> s[first_index_from(s, i, c)] == c,
        forall|j: int| i <= j < first_index_from(s, i, c) ==> s[j] != c,
    decreases s.len() - i,
{
    if i < s.len() && s[i] != c {
        lemma_first_index_from(s, i + 1, c);
    }
}

/// One step of wildcard matching: pattern position `pi`, subject position
/// `si`, and whether a `.` in the subject has been consumed by a `*` and is
/// still owed a matching `.` in the pattern.
///
/// A `*` consumes one or more subject characters, none of them `.`, up to the
/// next `.` boundary or the end of the subject; it matches nothing empty and
/// nothing across a `.`.
pub open spec fn wc_step(p: Seq<char>, s: Seq<char>, pi: int, si: int, dot: bool) -> bool
    decreases p.len() - pi,
{
    if pi < 0 || pi >= p.len() {
        !dot && si == s.len()
    } else if p[pi] == '*' {
        0 <= si < s.len() && s[si] != '.' && {
            let d = first_index_from(s, si + 1, '.');
            if d < s.len() {
                wc_step(p, s, pi + 1, d + 1, true)
            } else {
                wc_step(p, s, pi + 1, s.len() as int, false)
            }
        }
    } else if dot {
        if p[pi] == '.' {
            wc_step(p, s, pi + 1, si, false)
        } else {
            false
        }
    } else {
        0 <= si < s.len() && p[pi] == s[si] && wc_step(p, s, pi + 1, si + 1, false)
    }
}

/// Whether the wildcard pattern `p` matches the whole of `s`.
pub open spec fn wildcard_matches(p: Seq<char>, s: Seq<char>) -> bool {
    wc_step(p, s, 0, 0, false)
}

/// A pattern in which `*` matches one or more characters up to the next `.`
/// boundary: not zero characters, and never across a `.`.
#[derive(Debug, Clone)]
pub struct WildcardMatcher {
    chars: Vec<char>,
}

impl WildcardMatcher {
    pub closed spec fn view(&self) -> Seq<char> {
        self.chars@
    }

    /// A matcher for the given pattern text.
    pub fn new(s: &str) -> (r: Self)
        ensures
            r@ == s@,
    {
        Self { chars: str_chars(s) }
    }

    /// Whether the pattern matches the whole of `s`.
    pub fn is_match(&self, s: &str) -> (r: bool)
        ensures
            r == wildcard_matches(self@, s@),
    {
        let sub = str_chars(s);
        let n = self.chars.len();
        let sn = sub.len();
        let mut pi: usize = 0;
        let mut si: usize = 0;
        let mut dot: bool = false;
        while pi < n
            invariant
                n == self.chars@.len(),
                sn == sub@.len(),
                sub@ == s@,
                pi <= n,
                si <= sn,
                wildcard_matches(self@, s@) == wc_step(
                    self.chars@,
                    sub@,
                    pi as int,
                    si as int,
                    dot,
                ),
            decreases n - pi,
        {
            let ch = self.chars[pi];
            if ch == '*' {
                if si >= sn || sub[si] == '.' {
                    return false;
                }
                proof {
                    lemma_first_index_from(sub@, si + 1, '.');
                }
                match crate::util::find_char_from(&sub, '.', si + 1) {
                    Some(d) => {
                        assert(d == first_index_from(sub@, si + 1, '.'));
                        si = d + 1;
                        dot = true;
                    },
                    Option::None => {
                        assert(first_index_from(sub@, si + 1, '.') == sub@.len());
                        si = sn;
                        dot = false;
                    },
                }
            } else if dot {
                if ch != '.' {
                    return false;
                }
                dot = false;
            } else {
                if si >= sn || ch != sub[si] {
                    return false;
                }
                si = si + 1;
            }
            pi = pi + 1;
        }
        if dot {
            return false;
        }
        si == sn
    }
}

} // verus!
