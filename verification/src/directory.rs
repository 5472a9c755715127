use crate::options::Directory;
use crate::util::{concat_chars, spec_decimal, spec_digit, str_chars, chars_string};
use vstd::prelude::*;

verus! {

// ---------------------------------------------------------------------------
// Binary size formatting.
// ---------------------------------------------------------------------------

/// The unit exponent of a size of at least 1024: the largest power of 1024
/// not exceeding it, between 1 (K) and 6 (E).
pub open spec fn size_exp(n: u64) -> int {
    if n < 1048576 {
        1
    } else if n < 1073741824 {
        2
    } else if n < 1099511627776 {
        3
    } else if n < 1125899906842624 {
        4
    } else if n < 1152921504606846976 {
        5
    } else {
        6
    }
}

/// 1024 to the power `e`, for the unit exponents.
pub open spec fn pow1024(e: int) -> int {
    if e <= 1 {
        1024
    } else if e == 2 {
        1048576
    } else if e == 3 {
        1073741824
    } else if e == 4 {
        1099511627776
    } else if e == 5 {
        1125899906842624
    } else {
        1152921504606846976
    }
}

/// The unit letter for a unit exponent.
pub open spec fn unit_char(e: int) -> char {
    if e <= 1 {
        'K'
    } else if e == 2 {
        'M'
    } else if e == 3 {
        'G'
    } else if e == 4 {
        'T'
    } else if e == 5 {
        'P'
    } else {
        'E'
    }
}

/// A size rendered with binary units: below 1024 in bytes; otherwise with
/// two decimals under the largest fitting unit, rounding half up.
pub open spec fn spec_format_size(n: u64) -> Seq<char> {
    if n < 1024 {
        spec_decimal(n as int) + " B"@
    } else {
        let e = size_exp(n);
        let d = pow1024(e);
        let v100 = (200 * n + d) / (2 * d);
        spec_decimal(v100 / 100) + seq!['.', spec_digit((v100 / 10) % 10), spec_digit(v100 % 10)]
            + seq![' ', unit_char(e), 'B']
    }
}

/// Formats a byte count with binary units, two decimals above bytes.
pub fn format_size(n: u64) -> (r: String)
    ensures
        r@ == spec_format_size(n),
{
    if n < 1024 {
        let d = crate::util::decimal_chars(n as u128);
        let suffix = str_chars(" B");
        let all = concat_chars(&d, &suffix);
        return chars_string(&all);
    }
    let e: u32 = if n < 1048576 {
        1
    } else if n < 1073741824 {
        2
    } else if n < 1099511627776 {
        3
    } else if n < 1125899906842624 {
        4
    } else if n < 1152921504606846976 {
        5
    } else {
        6
    };
    let d: u128 = if e == 1 {
        1024
    } else if e == 2 {
        1048576
    } else if e == 3 {
        1073741824
    } else if e == 4 {
        1099511627776
    } else if e == 5 {
        1125899906842624
    } else {
        1152921504606846976
    };
    let v100: u128 = (200 * (n as u128) + d) / (2 * d);
    let whole = crate::util::decimal_chars(v100 / 100);
    let mut out = whole;
    out.push('.');
    let t1 = ((v100 / 10) % 10) as u64;
    let t2 = (v100 % 10) as u64;
    out.push(digit_of(t1));
    out.push(digit_of(t2));
    out.push(' ');
    let u = if e == 1 {
        'K'
    } else if e == 2 {
        'M'
    } else if e == 3 {
        'G'
    } else if e == 4 {
        'T'
    } else if e == 5 {
        'P'
    } else {
        'E'
    };
    out.push(u);
    out.push('B');
    proof {
        assert(out@ =~= spec_format_size(n));
    }
    chars_string(&out)
}

fn digit_of(n: u64) -> (r: char)
    requires
        n < 10,
    ensures
        r == spec_digit(n as int),
{
    match n {
        0 => '0',
        1 => '1',
        2 => '2',
        3 => '3',
        4 => '4',
        5 => '5',
        6 => '6',
        7 => '7',
        8 => '8',
        _ => '9',
    }
}

// ---------------------------------------------------------------------------
// Autoindex HTML.
// ---------------------------------------------------------------------------

/// One directory entry to list: its name, whether it is a directory, its
/// formatted modification time if the listing shows times, and its size in
/// bytes for regular files.
#[derive(Debug, Clone)]
pub struct DirRow {
    pub name: String,
    pub is_dir: bool,
    pub time: Option<String>,
    pub size: Option<u64>,
}

/// The mathematical shape of one listing entry.
pub struct DirRowV {
    pub name: Seq<char>,
    pub is_dir: bool,
    pub time: Option<Seq<char>>,
    pub size: Option<u64>,
}

impl View for DirRow {
    type V = DirRowV;

    open spec fn view(&self) -> DirRowV {
        DirRowV {
            name: self.name@,
            is_dir: self.is_dir,
            time: match self.time {
                Some(ref t) => Some(t@),
                None => None,
            },
            size: self.size,
        }
    }
}

/// The link cell of one row: directories carry a trailing slash.
pub open spec fn spec_row_link(r: DirRowV) -> Seq<char> {
    if r.is_dir {
        "<a href=\""@ + r.name + "/\">"@ + r.name + "/</a>"@
    } else {
        "<a href=\""@ + r.name + "\">"@ + r.name + "</a>"@
    }
}

/// The optional time cell of one row.
pub open spec fn spec_row_time(r: DirRowV, show: bool) -> Seq<char> {
    if show {
        "<time>"@ + (match r.time {
            Some(t) => t,
            None => Seq::empty(),
        }) + "</time>"@
    } else {
        Seq::empty()
    }
}

/// The optional size cell of one row; only regular files show a size.
pub open spec fn spec_row_size(r: DirRowV, show: bool) -> Seq<char> {
    if show {
        "<span>"@ + (match r.size {
            Some(n) => if r.is_dir {
                Seq::empty()
            } else {
                spec_format_size(n)
            },
            None => Seq::empty(),
        }) + "</span>"@
    } else {
        Seq::empty()
    }
}

/// One full row of the listing.
pub open spec fn spec_row(r: DirRowV, show_time: bool, show_size: bool) -> Seq<char> {
    spec_row_link(r) + spec_row_time(r, show_time) + spec_row_size(r, show_size)
}

/// All rows, in order.
pub open spec fn spec_rows(rows: Seq<DirRowV>, show_time: bool, show_size: bool) -> Seq<char>
    decreases rows.len(),
{
    if rows.len() == 0 {
        Seq::empty()
    } else {
        spec_row(rows[0], show_time, show_size) + spec_rows(rows.drop_first(), show_time, show_size)
    }
}

/// The grid column template for the enabled cells.
pub open spec fn spec_columns(show_time: bool, show_size: bool) -> Seq<char> {
    if !show_time && !show_size {
        "auto"@
    } else if show_time && show_size {
        "auto auto 1fr"@
    } else {
        "auto 1fr"@
    }
}

/// The parent-link grid placement for the enabled cells.
pub open spec fn spec_column(show_time: bool, show_size: bool) -> Seq<char> {
    if !show_time && !show_size {
        "1 / 2"@
    } else if show_time && show_size {
        "1 / 4"@
    } else {
        "1 / 3"@
    }
}

/// The whole listing page: the fixed page around the title, the grid
/// settings, the parent-directory link, and one row per entry.
pub open spec fn spec_render(
    rows: Seq<DirRowV>,
    title: Seq<char>,
    show_time: bool,
    show_size: bool,
) -> Seq<char> {
    page_head_1() + title + page_head_2() + spec_columns(show_time, show_size) + page_head_3()
        + spec_column(show_time, show_size) + page_head_4() + title + page_head_5() + spec_rows(
        rows,
        show_time,
        show_size,
    ) + page_tail()
}

/// The page text before the title.
pub open spec fn page_head_1() -> Seq<char> {
    "<!DOCTYPE html>\n<html>\n<head>\n<meta charset=\"UTF-8\">\n<meta name=\"viewport\" content=\"width=device-width, initial-scale=1\">\n<title>Index of "@
}

/// The page text between the title and the column template.
pub open spec fn page_head_2() -> Seq<char> {
    "</title>\n<style>\nbody { font-family: \"Segoe UI\", Segoe, Tahoma, Arial, Verdana, sans-serif; padding: 0 16px 0; margin: 0; }\nh1 { font-weight: normal; word-wrap: break-word; }\nmain { display: grid; grid-template-columns: "@
}

/// The page text between the column template and the parent placement.
pub open spec fn page_head_3() -> Seq<char> {
    "; }\na:first-child { grid-column: "@
}

/// The page text between the parent placement and the second title.
pub open spec fn page_head_4() -> Seq<char> {
    "; }\na, time, span { height: 28px; line-height: 28px; text-overflow: ellipsis; overflow: hidden; white-space: nowrap; }\na { color: #2a7ae2; text-decoration: none; }\na:hover { text-decoration: underline; }\ntime, span { padding-left: 16px; }\n</style>\n</head>\n<body>\n<h1>Index of "@
}

/// The page text between the second title and the rows.
pub open spec fn page_head_5() -> Seq<char> {
    "</h1>\n<main>\n<a href=\"../\">../</a>\n"@
}

/// The page text after the rows.
pub open spec fn page_tail() -> Seq<char> {
    "\n</main>\n</body>\n</html>\n"@
}

impl Directory {
    /// The autoindex page for the listed entries under `title`.
    pub fn render(&self, rows: &Vec<DirRow>, title: &str) -> (r: String)
        ensures
            r@ == spec_render(
                Seq::new(rows@.len(), |i: int| rows@[i]@),
                title@,
                self.time is Some,
                self.size,
            ),
    {
        let show_time = self.time.is_some();
        let show_size = self.size;
        let ghost rv = Seq::new(rows@.len(), |i: int| rows@[i]@);
        let mut out = str_chars(
            "<!DOCTYPE html>\n<html>\n<head>\n<meta charset=\"UTF-8\">\n<meta name=\"viewport\" content=\"width=device-width, initial-scale=1\">\n<title>Index of ",
        );
        let t = str_chars(title);
        out = concat_chars(&out, &t);
        let h2 = str_chars(
            "</title>\n<style>\nbody { font-family: \"Segoe UI\", Segoe, Tahoma, Arial, Verdana, sans-serif; padding: 0 16px 0; margin: 0; }\nh1 { font-weight: normal; word-wrap: break-word; }\nmain { display: grid; grid-template-columns: ",
        );
        out = concat_chars(&out, &h2);
        let cols = if !show_time && !show_size {
            str_chars("auto")
        } else if show_time && show_size {
            str_chars("auto auto 1fr")
        } else {
            str_chars("auto 1fr")
        };
        out = concat_chars(&out, &cols);
        let h3 = str_chars("; }\na:first-child { grid-column: ");
        out = concat_chars(&out, &h3);
        let col = if !show_time && !show_size {
            str_chars("1 / 2")
        } else if show_time && show_size {
            str_chars("1 / 4")
        } else {
            str_chars("1 / 3")
        };
        out = concat_chars(&out, &col);
        let h4 = str_chars(
            "; }\na, time, span { height: 28px; line-height: 28px; text-overflow: ellipsis; overflow: hidden; white-space: nowrap; }\na { color: #2a7ae2; text-decoration: none; }\na:hover { text-decoration: underline; }\ntime, span { padding-left: 16px; }\n</style>\n</head>\n<body>\n<h1>Index of ",
        );
        out = concat_chars(&out, &h4);
        out = concat_chars(&out, &t);
        let h5 = str_chars("</h1>\n<main>\n<a href=\"../\">../</a>\n");
        out = concat_chars(&out, &h5);
        let n = rows.len();
        let mut i: usize = 0;
        let ghost fixed = page_head_1() + title@ + page_head_2() + spec_columns(
            show_time,
            show_size,
        ) + page_head_3() + spec_column(show_time, show_size) + page_head_4() + title@
            + page_head_5();
        proof {
            assert(out@ =~= fixed);
            assert(rv.skip(0) =~= rv);
        }
        while i < n
            invariant
                n == rows@.len(),
                n == rv.len(),
                i <= n,
                forall|k: int| 0 <= k < n ==> rv[k] == #[trigger] rows@[k]@,
                out@ == fixed + spec_rows(rv.subrange(0, i as int), show_time, show_size),
            decreases n - i,
        {
            let ghost prev = out@;
            out = append_row(out, &rows[i], show_time, show_size);
            i = i + 1;
            proof {
                lemma_rows_snoc(rv.subrange(0, i as int), show_time, show_size);
                assert(rv.subrange(0, i as int).drop_last() =~= rv.subrange(0, i - 1));
                assert(rv.subrange(0, i as int).last() == rv[i - 1]);
                assert(out@ =~= fixed + spec_rows(rv.subrange(0, i as int), show_time, show_size));
            }
        }
        let tail = str_chars("\n</main>\n</body>\n</html>\n");
        let all = concat_chars(&out, &tail);
        proof {
            assert(rv.subrange(0, n as int) =~= rv);
            assert(all@ =~= spec_render(rv, title@, show_time, show_size));
        }
        chars_string(&all)
    }
}

/// Splitting the last row off a non-empty row list.
proof fn lemma_rows_snoc(rows: Seq<DirRowV>, show_time: bool, show_size: bool)
    requires
        rows.len() > 0,
    ensures
        spec_rows(rows, show_time, show_size) == spec_rows(
            rows.drop_last(),
            show_time,
            show_size,
        ) + spec_row(rows.last(), show_time, show_size),
    decreases rows.len(),
{
    if rows.len() == 1 {
        assert(rows.drop_last() =~= Seq::<DirRowV>::empty());
        assert(rows.drop_first() =~= Seq::<DirRowV>::empty());
        assert(spec_rows(rows, show_time, show_size) =~= spec_row(rows[0], show_time, show_size));
        assert(spec_rows(rows.drop_last(), show_time, show_size) + spec_row(
            rows.last(),
            show_time,
            show_size,
        ) =~= spec_row(rows[0], show_time, show_size));
    } else {
        lemma_rows_snoc(rows.drop_first(), show_time, show_size);
        assert(rows.drop_first().drop_last() =~= rows.drop_last().drop_first());
        assert(rows.drop_first().last() == rows.last());
        assert(rows.drop_last()[0] == rows[0]);
        assert(spec_rows(rows.drop_last(), show_time, show_size) == spec_row(
            rows[0],
            show_time,
            show_size,
        ) + spec_rows(rows.drop_last().drop_first(), show_time, show_size));
        assert(spec_rows(rows, show_time, show_size) =~= spec_rows(
            rows.drop_last(),
            show_time,
            show_size,
        ) + spec_row(rows.last(), show_time, show_size));
    }
}

fn append_row(out: Vec<char>, row: &DirRow, show_time: bool, show_size: bool) -> (r: Vec<char>)
    ensures
        r@ == out@ + spec_row(row@, show_time, show_size),
{
    let name = str_chars(row.name.as_str());
    let mut cell: Vec<char> = str_chars("<a href=\"");
    cell = concat_chars(&cell, &name);
    if row.is_dir {
        let m = str_chars("/\">");
        cell = concat_chars(&cell, &m);
        cell = concat_chars(&cell, &name);
        let e = str_chars("/</a>");
        cell = concat_chars(&cell, &e);
    } else {
        let m = str_chars("\">");
        cell = concat_chars(&cell, &m);
        cell = concat_chars(&cell, &name);
        let e = str_chars("</a>");
        cell = concat_chars(&cell, &e);
    }
    proof {
        assert(cell@ =~= spec_row_link(row@));
    }
    if show_time {
        let t1 = str_chars("<time>");
        cell = concat_chars(&cell, &t1);
        match &row.time {
            Some(t) => {
                let tc = str_chars(t.as_str());
                cell = concat_chars(&cell, &tc);
            },
            Option::None => {},
        }
        let t2 = str_chars("</time>");
        cell = concat_chars(&cell, &t2);
    }
    proof {
        assert(cell@ =~= spec_row_link(row@) + spec_row_time(row@, show_time));
    }
    if show_size {
        let s1 = str_chars("<span>");
        cell = concat_chars(&cell, &s1);
        match row.size {
            Some(sz) => {
                if !row.is_dir {
                    let f = format_size(sz);
                    let fc = str_chars(f.as_str());
                    cell = concat_chars(&cell, &fc);
                }
            },
            Option::None => {},
        }
        let s2 = str_chars("</span>");
        cell = concat_chars(&cell, &s2);
    }
    proof {
        assert(cell@ =~= spec_row(row@, show_time, show_size));
    }
    let r = concat_chars(&out, &cell);
    r
}

} // verus!
