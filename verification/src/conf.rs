use crate::matcher::{is_space, spec_trim, trim_chars};
use crate::util::{
    eq_chars, find_char_from, slice_chars, str_chars, chars_string, seq_has_char,
};
use vstd::prelude::*;

verus! {

// ---------------------------------------------------------------------------
// The block language: lines of `name`, `name value`, `name on|off`,
// `name { ... }`, `name value { ... }`, with `#` comments.
// ---------------------------------------------------------------------------

/// A parse failure: the offending line and what went wrong.
#[derive(Debug, Clone, Copy, PartialEq, Eq, Structural)]
pub enum ParseFault {
    BlockStart,
    BlockEnd,
    ValueLength,
    Lack,
    Redundant,
}

/// A parse error with its line number.
#[derive(Debug, Clone, Copy, PartialEq, Eq, Structural)]
pub struct ParseError {
    pub line: u64,
    pub fault: ParseFault,
}

impl ParseError {
    /// The error as one line of text.
    pub fn to_text(&self) -> (r: String)
        ensures
            r@ == "[line: "@ + crate::util::spec_decimal(self.line as int) + "] "@ + spec_fault_text(
                self.fault,
            ),
    {
        let mut out = str_chars("[line: ");
        let d = crate::util::decimal_chars(self.line as u128);
        out = crate::util::concat_chars(&out, &d);
        let mid = str_chars("] ");
        out = crate::util::concat_chars(&out, &mid);
        let msg = match self.fault {
            ParseFault::BlockStart => "'{' can only appear at the end of a line",
            ParseFault::BlockEnd => "'}' Must be on a separate line",
            ParseFault::ValueLength => "The length of the value is wrong\nTry: 'name {' or 'name value {'",
            ParseFault::Lack => "Missing '}'",
            ParseFault::Redundant => "Redundant '}'",
        };
        let mc = str_chars(msg);
        out = crate::util::concat_chars(&out, &mc);
        chars_string(&out)
    }
}

/// The message text of each parse fault.
pub open spec fn spec_fault_text(f: ParseFault) -> Seq<char> {
    match f {
        ParseFault::BlockStart => "'{' can only appear at the end of a line"@,
        ParseFault::BlockEnd => "'}' Must be on a separate line"@,
        ParseFault::ValueLength => "The length of the value is wrong\nTry: 'name {' or 'name value {'"@,
        ParseFault::Lack => "Missing '}'"@,
        ParseFault::Redundant => "Redundant '}'"@,
    }
}

/// The value of one directive.
#[derive(Debug)]
pub enum Value {
    Bare,
    Text(String),
    Boolean(bool),
    Block(Block),
    ValueBlock(String, Block),
}

/// One configuration directive: its line, name and value.
#[derive(Debug)]
pub struct Directive {
    pub line: u64,
    pub name: String,
    pub value: Value,
}

/// A block of directives, with the line it started on.
#[derive(Debug)]
pub struct Block {
    pub line: u64,
    pub directives: Vec<Directive>,
}

/// The mathematical shape of a directive value.
pub enum ValueV {
    Bare,
    Text(Seq<char>),
    Boolean(bool),
    Block(BlockV),
    ValueBlock(Seq<char>, BlockV),
}

/// The mathematical shape of a directive.
pub struct DirectiveV {
    pub line: u64,
    pub name: Seq<char>,
    pub value: ValueV,
}

/// The mathematical shape of a block.
pub struct BlockV {
    pub line: u64,
    pub directives: Seq<DirectiveV>,
}

/// The shape of a value.
pub open spec fn value_view(v: Value) -> ValueV
    decreases v,
{
    match v {
        Value::Bare => ValueV::Bare,
        Value::Text(s) => ValueV::Text(s@),
        Value::Boolean(b) => ValueV::Boolean(b),
        Value::Block(b) => ValueV::Block(block_view(b)),
        Value::ValueBlock(s, b) => ValueV::ValueBlock(s@, block_view(b)),
    }
}

/// The shape of a directive.
pub open spec fn directive_view(d: Directive) -> DirectiveV
    decreases d,
{
    DirectiveV { line: d.line, name: d.name@, value: value_view(d.value) }
}

/// The shapes of a list of directives.
pub open spec fn directives_view(ds: Seq<Directive>) -> Seq<DirectiveV>
    decreases ds,
{
    if ds.len() == 0 {
        Seq::empty()
    } else {
        seq![directive_view(ds[0])] + directives_view(ds.drop_first())
    }
}

/// The shape of a block.
pub open spec fn block_view(b: Block) -> BlockV
    decreases b,
{
    BlockV { line: b.line, directives: directives_view(b.directives@) }
}

impl View for Block {
    type V = BlockV;

    open spec fn view(&self) -> BlockV {
        block_view(*self)
    }
}

impl View for Directive {
    type V = DirectiveV;

    open spec fn view(&self) -> DirectiveV {
        directive_view(*self)
    }
}


// ---------------------------------------------------------------------------
// Line classification.
// ---------------------------------------------------------------------------

/// One classified input line.
#[derive(Debug)]
pub enum Line {
    Invalid,
    Bad(ParseFault),
    Name(String),
    NameValue(String, String),
    NameBlock(String),
    NameValueBlock(String, String),
    BlockEnd,
}

/// The mathematical shape of a classified line.
pub enum LineV {
    Invalid,
    Bad(ParseFault),
    Name(Seq<char>),
    NameValue(Seq<char>, Seq<char>),
    NameBlock(Seq<char>),
    NameValueBlock(Seq<char>, Seq<char>),
    BlockEnd,
}

impl View for Line {
    type V = LineV;

    open spec fn view(&self) -> LineV {
        match self {
            Line::Invalid => LineV::Invalid,
            Line::Bad(f) => LineV::Bad(*f),
            Line::Name(n) => LineV::Name(n@),
            Line::NameValue(n, v) => LineV::NameValue(n@, v@),
            Line::NameBlock(n) => LineV::NameBlock(n@),
            Line::NameValueBlock(n, v) => LineV::NameValueBlock(n@, v@),
            Line::BlockEnd => LineV::BlockEnd,
        }
    }
}

/// The whitespace-separated tokens of `s`.
pub open spec fn ws_tokens(s: Seq<char>) -> Seq<Seq<char>>
    decreases s.len(),
{
    if s.len() == 0 {
        Seq::empty()
    } else if is_space(s[0]) {
        ws_tokens(s.drop_first())
    } else {
        let e0 = first_nonspace_end(s, 1);
        let e = if 1 <= e0 <= s.len() {
            e0
        } else {
            1
        };
        seq![s.subrange(0, e)] + ws_tokens(s.subrange(e, s.len() as int))
    }
}

/// The end of the run of non-space characters starting at `i`.
pub open spec fn first_nonspace_end(s: Seq<char>, i: int) -> int
    decreases s.len() - i,
{
    if i < 0 || i >= s.len() || is_space(s[i]) {
        i
    } else {
        first_nonspace_end(s, i + 1)
    }
}

proof fn lemma_first_nonspace_end(s: Seq<char>, i: int)
    requires
        0 <= i <= s.len(),
    ensures
        i <= first_nonspace_end(s, i) <= s.len(),
        first_nonspace_end(s, i) < s.len() ==> is_space(s[first_nonspace_end(s, i)]),
        forall|j: int| i <= j < first_nonspace_end(s, i) ==> !is_space(s[j]),
    decreases s.len() - i,
{
    if i < s.len() && !is_space(s[i]) {
        lemma_first_nonspace_end(s, i + 1);
    }
}

/// The whitespace-separated tokens of `s`, computed directly.
pub fn ws_split(s: &Vec<char>) -> (r: Vec<Vec<char>>)
    ensures
        crate::util::views(r@) == ws_tokens(s@),
    decreases s@.len(),
{
    if s.len() == 0 {
        let out: Vec<Vec<char>> = Vec::new();
        proof {
            crate::util::lemma_views_index(out@);
            assert(crate::util::views(out@) =~= ws_tokens(s@));
        }
        return out;
    }
    let c = s[0];
    if c == ' ' || c == '\t' || c == '\r' || c == '\n' {
        let rest = slice_chars(s, 1, s.len());
        proof {
            assert(rest@ =~= s@.drop_first());
        }
        return ws_split(&rest);
    }
    proof {
        lemma_first_nonspace_end(s@, 0);
    }
    let n = s.len();
    let mut e: usize = 0;
    while e < n && !(s[e] == ' ' || s[e] == '\t' || s[e] == '\r' || s[e] == '\n')
        invariant
            n == s@.len(),
            e <= n,
            forall|j: int| 0 <= j < e ==> !is_space(s@[j]),
        decreases n - e,
    {
        e = e + 1;
    }
    proof {
        assert(e as int == first_nonspace_end(s@, 0)) by {
            lemma_first_nonspace_end(s@, 0);
            let f = first_nonspace_end(s@, 0);
            if f < e {
                assert(!is_space(s@[f]));
            }
            if e < f {
                assert(is_space(s@[e as int]));
            }
        }
        assert(first_nonspace_end(s@, 0) == first_nonspace_end(s@, 1));
        lemma_first_nonspace_end(s@, 1);
    }
    let tok = slice_chars(s, 0, e);
    let rest = slice_chars(s, e, n);
    proof {
        assert(rest@ =~= s@.subrange(e as int, s@.len() as int));
    }
    let tail = ws_split(&rest);
    let mut out: Vec<Vec<char>> = Vec::new();
    out.push(tok);
    let ghost tail_view = crate::util::views(tail@);
    let mut t = tail;
    out.append(&mut t);
    proof {
        crate::util::lemma_views_index(out@);
        assert(crate::util::views(out@) =~= seq![s@.subrange(0, e as int)] + tail_view);
    }
    out
}

/// How one raw input line is classified: the comment is cut at the first
/// `#`, the rest trimmed; a line ending in `{` opens a block and must hold
/// one or two tokens before it; `}` must stand alone; one token is a bare
/// name; more are a name and its value text.
pub open spec fn spec_parse_line(raw: Seq<char>) -> LineV {
    let uncommented = raw.subrange(0, crate::wildcard::first_index_from(raw, 0, '#'));
    let t = spec_trim(uncommented);
    if t.len() == 0 {
        LineV::Invalid
    } else if t.last() == '{' {
        let toks = ws_tokens(t.drop_last());
        if toks.len() == 1 {
            LineV::NameBlock(toks[0])
        } else if toks.len() == 2 {
            LineV::NameValueBlock(toks[0], toks[1])
        } else if toks.len() == 0 {
            LineV::Bad(ParseFault::BlockStart)
        } else {
            LineV::Bad(ParseFault::ValueLength)
        }
    } else if t[0] == '}' {
        if t.len() == 1 {
            LineV::BlockEnd
        } else {
            LineV::Bad(ParseFault::BlockEnd)
        }
    } else {
        let toks = ws_tokens(t);
        if toks.len() == 1 {
            LineV::Name(t)
        } else {
            let e = first_nonspace_end(t, 0);
            let vstart = first_nonspace_after(t, e);
            LineV::NameValue(t.subrange(0, e), t.subrange(vstart, t.len() as int))
        }
    }
}

/// The first non-space position at or after `i`.
pub open spec fn first_nonspace_after(s: Seq<char>, i: int) -> int
    decreases s.len() - i,
{
    if i < 0 || i >= s.len() || !is_space(s[i]) {
        i
    } else {
        first_nonspace_after(s, i + 1)
    }
}

proof fn lemma_first_nonspace_after(s: Seq<char>, i: int)
    requires
        0 <= i <= s.len(),
    ensures
        i <= first_nonspace_after(s, i) <= s.len(),
        first_nonspace_after(s, i) < s.len() ==> !is_space(s[first_nonspace_after(s, i)]),
        forall|j: int| i <= j < first_nonspace_after(s, i) ==> is_space(s[j]),
    decreases s.len() - i,
{
    if i < s.len() && is_space(s[i]) {
        lemma_first_nonspace_after(s, i + 1);
    }
}

/// Classifies one raw input line.
pub fn parse_line(raw: &Vec<char>) -> (r: Line)
    ensures
        r@ == spec_parse_line(raw@),
{
    proof {
        crate::wildcard::lemma_first_index_from(raw@, 0, '#');
    }
    let rl = raw.len();
    let cut = match find_char_from(raw, '#', 0) {
        Some(i) => {
            assert(i == crate::wildcard::first_index_from(raw@, 0, '#'));
            i
        },
        Option::None => {
            assert(crate::wildcard::first_index_from(raw@, 0, '#') == raw@.len());
            rl
        },
    };
    let uncommented = slice_chars(raw, 0, cut);
    let t = trim_chars(&uncommented);
    let tl = t.len();
    if tl == 0 {
        return Line::Invalid;
    }
    if t[tl - 1] == '{' {
        let body = slice_chars(&t, 0, tl - 1);
        proof {
            assert(body@ =~= t@.drop_last());
        }
        let toks = ws_split(&body);
        proof {
            crate::util::lemma_views_index(toks@);
        }
        if toks.len() == 1 {
            assert(toks@[0]@ == ws_tokens(t@.drop_last())[0]);
            return Line::NameBlock(chars_string(&toks[0]));
        } else if toks.len() == 2 {
            return Line::NameValueBlock(chars_string(&toks[0]), chars_string(&toks[1]));
        } else if toks.len() == 0 {
            return Line::Bad(ParseFault::BlockStart);
        } else {
            return Line::Bad(ParseFault::ValueLength);
        }
    }
    if t[0] == '}' {
        if tl == 1 {
            return Line::BlockEnd;
        }
        return Line::Bad(ParseFault::BlockEnd);
    }
    let toks = ws_split(&t);
    proof {
        crate::util::lemma_views_index(toks@);
    }
    if toks.len() == 1 {
        return Line::Name(chars_string(&t));
    }
    proof {
        lemma_first_nonspace_end(t@, 0);
    }
    let mut e: usize = 0;
    while e < tl && !(t[e] == ' ' || t[e] == '\t' || t[e] == '\r' || t[e] == '\n')
        invariant
            tl == t@.len(),
            e <= tl,
            forall|j: int| 0 <= j < e ==> !is_space(t@[j]),
        decreases tl - e,
    {
        e = e + 1;
    }
    proof {
        assert(e as int == first_nonspace_end(t@, 0)) by {
            let f = first_nonspace_end(t@, 0);
            if f < e {
                assert(!is_space(t@[f]));
            }
            if e < f {
                assert(is_space(t@[e as int]));
            }
        }
        lemma_first_nonspace_after(t@, e as int);
    }
    let mut v: usize = e;
    while v < tl && (t[v] == ' ' || t[v] == '\t' || t[v] == '\r' || t[v] == '\n')
        invariant
            tl == t@.len(),
            e <= v <= tl,
            forall|j: int| e <= j < v ==> is_space(t@[j]),
        decreases tl - v,
    {
        v = v + 1;
    }
    proof {
        assert(v as int == first_nonspace_after(t@, e as int)) by {
            let f = first_nonspace_after(t@, e as int);
            if f < v {
                assert(!is_space(t@[f]));
            }
            if v < f {
                assert(is_space(t@[v as int]));
            }
        }
    }
    let name = slice_chars(&t, 0, e);
    let value = slice_chars(&t, v, tl);
    Line::NameValue(chars_string(&name), chars_string(&value))
}


// ---------------------------------------------------------------------------
// The parser: a fold over classified lines with a stack of open blocks.
// ---------------------------------------------------------------------------

/// One open block while parsing: the directive name (and optional value)
/// that opened it, and the directives gathered so far. The root frame has no
/// name.
#[derive(Debug)]
pub struct Frame {
    pub name: Option<String>,
    pub value: Option<String>,
    pub block: Block,
}

/// The mathematical shape of an open block.
pub struct FrameV {
    pub name: Option<Seq<char>>,
    pub value: Option<Seq<char>>,
    pub block: BlockV,
}

/// The shape of one frame.
pub open spec fn frame_view(f: Frame) -> FrameV {
    FrameV {
        name: match f.name {
            Some(n) => Some(n@),
            None => None,
        },
        value: match f.value {
            Some(v) => Some(v@),
            None => None,
        },
        block: block_view(f.block),
    }
}

/// The shapes of a stack of frames.
pub open spec fn frames_view(fs: Seq<Frame>) -> Seq<FrameV>
    decreases fs,
{
    if fs.len() == 0 {
        Seq::empty()
    } else {
        seq![frame_view(fs[0])] + frames_view(fs.drop_first())
    }
}

/// A block with one more directive.
pub open spec fn block_push(b: BlockV, d: DirectiveV) -> BlockV {
    BlockV { line: b.line, directives: b.directives.push(d) }
}

/// One parsing step: how a classified line changes the stack of open
/// blocks, or fails.
pub open spec fn spec_step(stack: Seq<FrameV>, ln: LineV, lineno: u64) -> Result<
    Seq<FrameV>,
    ParseError,
> {
    match ln {
        LineV::Invalid => Ok(stack),
        LineV::Bad(f) => Err(ParseError { line: lineno, fault: f }),
        LineV::Name(n) => {
            let top = stack.last();
            Ok(
                stack.update(
                    stack.len() - 1,
                    FrameV {
                        block: block_push(
                            top.block,
                            DirectiveV { line: lineno, name: n, value: ValueV::Bare },
                        ),
                        ..top
                    },
                ),
            )
        },
        LineV::NameValue(n, v) => {
            let top = stack.last();
            let value = if v == "on"@ {
                ValueV::Boolean(true)
            } else if v == "off"@ {
                ValueV::Boolean(false)
            } else {
                ValueV::Text(v)
            };
            Ok(
                stack.update(
                    stack.len() - 1,
                    FrameV {
                        block: block_push(top.block, DirectiveV { line: lineno, name: n, value }),
                        ..top
                    },
                ),
            )
        },
        LineV::NameBlock(n) => Ok(
            stack.push(
                FrameV {
                    name: Some(n),
                    value: None,
                    block: BlockV { line: lineno, directives: Seq::empty() },
                },
            ),
        ),
        LineV::NameValueBlock(n, v) => Ok(
            stack.push(
                FrameV {
                    name: Some(n),
                    value: Some(v),
                    block: BlockV { line: lineno, directives: Seq::empty() },
                },
            ),
        ),
        LineV::BlockEnd => {
            if stack.len() > 1 {
                let top = stack.last();
                let parent = stack[stack.len() - 2];
                let value = match top.value {
                    Some(v) => ValueV::ValueBlock(v, top.block),
                    None => ValueV::Block(top.block),
                };
                let d = DirectiveV {
                    line: top.block.line,
                    name: match top.name {
                        Some(n) => n,
                        None => Seq::empty(),
                    },
                    value,
                };
                Ok(
                    stack.take(stack.len() - 2).push(
                        FrameV { block: block_push(parent.block, d), ..parent },
                    ),
                )
            } else {
                Err(ParseError { line: lineno, fault: ParseFault::Redundant })
            }
        },
    }
}

/// Folding the parsing step over the remaining lines.
pub open spec fn spec_fold(stack: Seq<FrameV>, lines: Seq<LineV>, lineno: u64) -> Result<
    Seq<FrameV>,
    ParseError,
>
    decreases lines.len(),
{
    if lines.len() == 0 {
        Ok(stack)
    } else {
        match spec_step(stack, lines[0], lineno) {
            Ok(st) => spec_fold(st, lines.drop_first(), (lineno + 1) as u64),
            Err(e) => Err(e),
        }
    }
}

/// A raw line with any trailing carriage return removed.
pub open spec fn strip_cr(s: Seq<char>) -> Seq<char> {
    if s.len() > 0 && s.last() == '\r' {
        s.drop_last()
    } else {
        s
    }
}

/// The classified lines of a whole input text, split on newlines.
pub open spec fn spec_text_lines(text: Seq<char>) -> Seq<LineV> {
    let pieces = crate::compress::spec_split(text, "\n"@);
    Seq::new(pieces.len(), |i: int| spec_parse_line(strip_cr(pieces[i])))
}

/// The root frame before any line is read.
pub open spec fn root_stack() -> Seq<FrameV> {
    seq![
        FrameV { name: None, value: None, block: BlockV { line: 0, directives: Seq::empty() } },
    ]
}

/// The parse of a whole text: folding the step over its lines from the root
/// frame; an open block left at the end is a missing `}` reported at the
/// line that opened it.
pub open spec fn spec_parse_text(text: Seq<char>) -> Result<BlockV, ParseError> {
    match spec_fold(root_stack(), spec_text_lines(text), 1) {
        Ok(stack) => {
            if stack.len() == 1 {
                Ok(stack[0].block)
            } else {
                Err(ParseError { line: stack.last().block.line, fault: ParseFault::Lack })
            }
        },
        Err(e) => Err(e),
    }
}

impl Block {
    /// The empty block, opened at `line`.
    pub fn new(line: u64) -> (r: Block)
        ensures
            r@ == (BlockV { line, directives: Seq::empty() }),
    {
        let b = Block { line, directives: Vec::new() };
        proof {
            assert(b@.directives =~= Seq::<DirectiveV>::empty());
        }
        b
    }

    /// Parses a whole configuration text into its root block.
    pub fn from_str(text: &str) -> (r: Result<Block, ParseError>)
        ensures
            match r {
                Ok(b) => spec_parse_text(text@) == Ok::<BlockV, ParseError>(b@),
                Err(e) => spec_parse_text(text@) == Err::<BlockV, ParseError>(e),
            },
    {
        let chars = str_chars(text);
        let nl = str_chars("\n");
        proof {
            reveal_strlit("\n");
        }
        let pieces = crate::compress::split_chars(&chars, &nl);
        let ghost lines_v = spec_text_lines(text@);
        proof {
            crate::util::lemma_views_index(pieces@);
            assert(lines_v.len() == pieces@.len());
        }
        let mut stack: Vec<Frame> = Vec::new();
        stack.push(Frame { name: Option::None, value: Option::None, block: Block::new(0) });
        proof {
            lemma_frames_view_index(stack@);
            assert(frames_view(stack@) =~= root_stack());
            assert(lines_v.skip(0) =~= lines_v);
        }
        let n = pieces.len();
        let mut i: usize = 0;
        while i < n
            invariant
                n == pieces@.len(),
                n == lines_v.len(),
                i <= n,
                lines_v == spec_text_lines(text@),
                forall|k: int|
                    0 <= k < n ==> lines_v[k] == spec_parse_line(strip_cr(#[trigger] pieces@[k]@)),
                stack@.len() >= 1,
                spec_fold(root_stack(), lines_v, 1) == spec_fold(
                    frames_view(stack@),
                    lines_v.skip(i as int),
                    (i + 1) as u64,
                ),
            decreases n - i,
        {
            proof {
                assert(lines_v.skip(i as int)[0] == lines_v[i as int]);
                assert(lines_v.skip(i as int).drop_first() =~= lines_v.skip(i + 1));
                lemma_frames_view_index(stack@);
            }
            let piece = str_chars(chars_string(&pieces[i]).as_str());
            let pl = piece.len();
            let stripped = if pl > 0 && piece[pl - 1] == '\r' {
                slice_chars(&piece, 0, pl - 1)
            } else {
                piece
            };
            proof {
                assert(stripped@ =~= strip_cr(pieces@[i as int]@));
            }
            let line = parse_line(&stripped);
            let lineno: u64 = (i as u64) + 1;
            let ghost prev_stack = frames_view(stack@);
            let ghost cur_line = lines_v[i as int];
            match line {
                Line::Invalid => {
                    assert(spec_step(prev_stack, cur_line, lineno) == Ok::<
                        Seq<FrameV>,
                        ParseError,
                    >(prev_stack));
                },
                Line::Bad(f) => {
                    proof {
                        lemma_fold_err(frames_view(stack@), lines_v, i as int);
                    }
                    return Err(ParseError { line: lineno, fault: f });
                },
                Line::Name(nm) => {
                    let d = Directive { line: lineno, name: nm, value: Value::Bare };
                    let ghost dv = directive_view(d);
                    push_directive(&mut stack, d);
                    proof {
                        assert(frames_view(stack@) =~= (match spec_step(
                            prev_stack,
                            cur_line,
                            lineno,
                        ) {
                            Ok(st) => st,
                            Err(_) => prev_stack,
                        }));
                    }
                },
                Line::NameValue(nm, v) => {
                    let vc = str_chars(v.as_str());
                    let value = if eq_chars(&vc, &str_chars("on")) {
                        Value::Boolean(true)
                    } else if eq_chars(&vc, &str_chars("off")) {
                        Value::Boolean(false)
                    } else {
                        Value::Text(v)
                    };
                    let d = Directive { line: lineno, name: nm, value };
                    let ghost dv = directive_view(d);
                    push_directive(&mut stack, d);
                    proof {
                        assert(frames_view(stack@) =~= (match spec_step(
                            prev_stack,
                            cur_line,
                            lineno,
                        ) {
                            Ok(st) => st,
                            Err(_) => prev_stack,
                        }));
                    }
                },
                Line::NameBlock(nm) => {
                    let ghost prev_vec = stack@;
                    let frame = Frame {
                        name: Some(nm),
                        value: Option::None,
                        block: Block::new(lineno),
                    };
                    let ghost fv = frame_view(frame);
                    stack.push(frame);
                    proof {
                        lemma_frames_view_push(prev_vec, stack@.last());
                        assert(stack@.drop_last() =~= prev_vec);
                        assert(frames_view(stack@) =~= (match spec_step(
                            prev_stack,
                            cur_line,
                            lineno,
                        ) {
                            Ok(st) => st,
                            Err(_) => prev_stack,
                        }));
                    }
                },
                Line::NameValueBlock(nm, v) => {
                    let ghost prev_vec = stack@;
                    let frame = Frame { name: Some(nm), value: Some(v), block: Block::new(lineno) };
                    let ghost fv = frame_view(frame);
                    stack.push(frame);
                    proof {
                        lemma_frames_view_push(prev_vec, stack@.last());
                        assert(stack@.drop_last() =~= prev_vec);
                        assert(frames_view(stack@) =~= (match spec_step(
                            prev_stack,
                            cur_line,
                            lineno,
                        ) {
                            Ok(st) => st,
                            Err(_) => prev_stack,
                        }));
                    }
                },
                Line::BlockEnd => {
                    if stack.len() > 1 {
                        let top = pop_frame(&mut stack);
                        let ghost topv = frame_view(top);
                        let ghost mid_vec = stack@;
                        let dline = top.block.line;
                        let nm = match top.name {
                            Some(x) => x,
                            Option::None => String::new(),
                        };
                        let value = match top.value {
                            Some(v) => Value::ValueBlock(v, top.block),
                            Option::None => Value::Block(top.block),
                        };
                        let d = Directive { line: dline, name: nm, value };
                        let ghost dv = directive_view(d);
                        push_directive(&mut stack, d);
                        proof {
                            lemma_frames_view_index(mid_vec);
                            assert forall|k: int|
                                0 <= k < frames_view(mid_vec).len() implies frames_view(
                                mid_vec,
                            )[k] == prev_stack.take(prev_stack.len() - 1)[k] by {
                                assert(frames_view(mid_vec)[k] == frame_view(mid_vec[k]));
                            }
                            assert(frames_view(mid_vec) =~= prev_stack.take(
                                prev_stack.len() - 1,
                            ));
                            assert(frames_view(mid_vec).take(frames_view(mid_vec).len() - 1)
                                =~= prev_stack.take(prev_stack.len() - 2));
                            assert(frames_view(stack@) =~= (match spec_step(
                                prev_stack,
                                cur_line,
                                lineno,
                            ) {
                                Ok(st) => st,
                                Err(_) => prev_stack,
                            }));
                        }
                    } else {
                        proof {
                            lemma_fold_err(frames_view(stack@), lines_v, i as int);
                        }
                        return Err(ParseError { line: lineno, fault: ParseFault::Redundant });
                    }
                },
            }
            i = i + 1;
        }
        proof {
            assert(lines_v.skip(n as int) =~= Seq::<LineV>::empty());
            lemma_frames_view_index(stack@);
        }
        if stack.len() == 1 {
            let frame = pop_frame(&mut stack);
            return Ok(frame.block);
        }
        let li = stack.len() - 1;
        let line = stack[li].block.line;
        proof {
            assert(frames_view(stack@).last() == frame_view(stack@.last()));
        }
        Err(ParseError { line, fault: ParseFault::Lack })
    }
}

/// When a step fails, the whole fold fails with the same error.
proof fn lemma_fold_err(stack: Seq<FrameV>, lines: Seq<LineV>, i: int)
    requires
        0 <= i < lines.len(),
        spec_step(stack, lines[i], (i + 1) as u64) is Err,
    ensures
        spec_fold(stack, lines.skip(i), (i + 1) as u64) == Result::<Seq<FrameV>, ParseError>::Err(
            spec_step(stack, lines[i], (i + 1) as u64)->Err_0,
        ),
{
    assert(lines.skip(i)[0] == lines[i]);
}

fn push_directive(stack: &mut Vec<Frame>, d: Directive)
    requires
        old(stack)@.len() >= 1,
    ensures
        final(stack)@.len() == old(stack)@.len(),
        frames_view(final(stack)@) == frames_view(old(stack)@).update(
            old(stack)@.len() - 1,
            (FrameV {
                block: block_push(
                    frame_view(old(stack)@.last()).block,
                    directive_view(d),
                ),
                ..frame_view(old(stack)@.last())
            }),
        ),
{
    let ghost orig = stack@;
    let ghost dcopy = d;
    let mut top = pop_frame(stack);
    let ghost topv = frame_view(top);
    let ghost oldds = top.block.directives@;
    top.block.directives.push(d);
    proof {
        lemma_directives_view_push(oldds, dcopy);
    }
    let ghost newtopv = frame_view(top);
    let ghost mid = stack@;
    stack.push(top);
    proof {
        lemma_frames_view_push(mid, stack@.last());
        lemma_frames_view_index(orig);
        lemma_frames_view_index(mid);
        assert(newtopv == (FrameV {
            block: block_push(topv.block, directive_view(dcopy)),
            ..topv
        }));
        assert forall|i: int|
            0 <= i < frames_view(mid).len() implies frames_view(mid)[i] == frames_view(
            orig,
        ).take(orig.len() - 1)[i] by {
            assert(frames_view(mid)[i] == frame_view(mid[i]));
            assert(mid[i] == orig[i]);
            assert(frames_view(orig)[i] == frame_view(orig[i]));
        }
        assert(frames_view(mid) =~= frames_view(orig).take(orig.len() - 1));
        assert(frames_view(stack@) =~= frames_view(orig).update(orig.len() - 1, newtopv));
    }
}

proof fn lemma_frames_view_index(fs: Seq<Frame>)
    ensures
        frames_view(fs).len() == fs.len(),
        forall|i: int| 0 <= i < fs.len() ==> frames_view(fs)[i] == frame_view(#[trigger] fs[i]),
    decreases fs,
{
    if fs.len() > 0 {
        let rest = fs.drop_first();
        lemma_frames_view_index(rest);
        assert forall|i: int|
            0 <= i < fs.len() implies frames_view(fs)[i] == frame_view(#[trigger] fs[i]) by {
            if i > 0 {
                assert(frames_view(fs)[i] == frames_view(rest)[i - 1]);
                assert(rest[i - 1] == fs[i]);
            }
        }
    }
}

proof fn lemma_directives_view_index(ds: Seq<Directive>)
    ensures
        directives_view(ds).len() == ds.len(),
        forall|i: int|
            0 <= i < ds.len() ==> directives_view(ds)[i] == directive_view(#[trigger] ds[i]),
    decreases ds,
{
    if ds.len() > 0 {
        let rest = ds.drop_first();
        lemma_directives_view_index(rest);
        assert forall|i: int|
            0 <= i < ds.len() implies directives_view(ds)[i] == directive_view(
            #[trigger] ds[i],
        ) by {
            if i > 0 {
                assert(directives_view(ds)[i] == directives_view(rest)[i - 1]);
                assert(rest[i - 1] == ds[i]);
            }
        }
    }
}

proof fn lemma_directives_view_push(ds: Seq<Directive>, d: Directive)
    ensures
        directives_view(ds.push(d)) == directives_view(ds).push(directive_view(d)),
{
    lemma_directives_view_index(ds);
    lemma_directives_view_index(ds.push(d));
    let l = directives_view(ds.push(d));
    let r = directives_view(ds).push(directive_view(d));
    assert forall|i: int| 0 <= i < l.len() implies l[i] == r[i] by {
        assert(l[i] == directive_view(ds.push(d)[i]));
        if i < ds.len() {
            assert(ds.push(d)[i] == ds[i]);
            assert(r[i] == directives_view(ds)[i]);
        } else {
            assert(ds.push(d)[i] == d);
        }
    }
    assert(l =~= r);
}

proof fn lemma_frames_view_push(fs: Seq<Frame>, f: Frame)
    ensures
        frames_view(fs.push(f)) == frames_view(fs).push(frame_view(f)),
{
    lemma_frames_view_index(fs);
    lemma_frames_view_index(fs.push(f));
    let l = frames_view(fs.push(f));
    let r = frames_view(fs).push(frame_view(f));
    assert forall|i: int| 0 <= i < l.len() implies l[i] == r[i] by {
        assert(l[i] == frame_view(fs.push(f)[i]));
        if i < fs.len() {
            assert(fs.push(f)[i] == fs[i]);
            assert(r[i] == frames_view(fs)[i]);
        } else {
            assert(fs.push(f)[i] == f);
        }
    }
    assert(l =~= r);
}

fn pop_frame(stack: &mut Vec<Frame>) -> (r: Frame)
    requires
        old(stack)@.len() >= 1,
    ensures
        final(stack)@ == old(stack)@.drop_last(),
        r == old(stack)@.last(),
{
    match stack.pop() {
        Some(f) => f,
        Option::None => vstd::pervasive::unreached(),
    }
}

fn push_frame(stack: &mut Vec<Frame>, f: Frame, Ghost(base): Ghost<Seq<FrameV>>, Ghost(lineno): Ghost<u64>)
    ensures
        final(stack)@ == old(stack)@.push(f),
{
    stack.push(f);
}


// ---------------------------------------------------------------------------
// Reading blocks and directives.
// ---------------------------------------------------------------------------

/// A configuration error with the offending line.
#[derive(Debug, Clone)]
pub struct ConfError {
    pub line: u64,
    pub message: String,
}

/// The first directive of `ds` with the given name.
pub open spec fn spec_block_get(ds: Seq<DirectiveV>, name: Seq<char>) -> Option<DirectiveV>
    decreases ds.len(),
{
    if ds.len() == 0 {
        None
    } else if ds[0].name == name {
        Some(ds[0])
    } else {
        spec_block_get(ds.drop_first(), name)
    }
}

/// All directives of `ds` with the given name, in order.
pub open spec fn spec_filter_name(ds: Seq<DirectiveV>, name: Seq<char>) -> Seq<DirectiveV>
    decreases ds.len(),
{
    if ds.len() == 0 {
        Seq::empty()
    } else if ds[0].name == name {
        seq![ds[0]] + spec_filter_name(ds.drop_first(), name)
    } else {
        spec_filter_name(ds.drop_first(), name)
    }
}

/// Whether `names` holds `name`.
pub open spec fn name_list_has(names: Seq<Seq<char>>, name: Seq<char>) -> bool {
    exists|i: int| 0 <= i < names.len() && names[i] == name
}

impl Block {
    /// The line this block started on.
    pub fn line(&self) -> (r: u64)
        ensures
            r == self@.line,
    {
        self.line
    }

    /// All directives, in declaration order.
    pub fn directives(&self) -> (r: &Vec<Directive>)
        ensures
            directives_view(r@) == self@.directives,
    {
        &self.directives
    }

    /// The first directive with the given name, if any.
    pub fn get(&self, name: &str) -> (r: Option<&Directive>)
        ensures
            match r {
                Some(d) => spec_block_get(self@.directives, name@) == Some(d@),
                None => spec_block_get(self@.directives, name@) is None,
            },
    {
        let nc = str_chars(name);
        let n = self.directives.len();
        let mut i: usize = 0;
        proof {
            lemma_directives_view_index(self.directives@);
            assert(self@.directives.skip(0) =~= self@.directives);
        }
        while i < n
            invariant
                n == self.directives@.len(),
                nc@ == name@,
                i <= n,
                directives_view(self.directives@) == self@.directives,
                self@.directives.len() == n,
                forall|k: int|
                    0 <= k < n ==> self@.directives[k] == directive_view(
                        #[trigger] self.directives@[k],
                    ),
                spec_block_get(self@.directives, name@) == spec_block_get(
                    self@.directives.skip(i as int),
                    name@,
                ),
            decreases n - i,
        {
            proof {
                assert(self@.directives.skip(i as int)[0] == self@.directives[i as int]);
                assert(self@.directives.skip(i as int).drop_first() =~= self@.directives.skip(
                    i + 1,
                ));
            }
            let dn = str_chars(self.directives[i].name.as_str());
            if eq_chars(&dn, &nc) {
                return Some(&self.directives[i]);
            }
            i = i + 1;
        }
        proof {
            assert(self@.directives.skip(n as int) =~= Seq::<DirectiveV>::empty());
        }
        Option::None
    }

    /// All directives with the given name, in order.
    pub fn get_all_by_name(&self, name: &str) -> (r: Vec<&Directive>)
        ensures
            Seq::new(r@.len(), |i: int| r@[i]@) == spec_filter_name(self@.directives, name@),
    {
        let nc = str_chars(name);
        let n = self.directives.len();
        let mut out: Vec<&Directive> = Vec::new();
        let mut i: usize = 0;
        proof {
            lemma_directives_view_index(self.directives@);
            assert(self@.directives.skip(0) =~= self@.directives);
            assert(Seq::new(out@.len(), |k: int| out@[k]@) =~= Seq::<DirectiveV>::empty());
        }
        while i < n
            invariant
                n == self.directives@.len(),
                nc@ == name@,
                i <= n,
                self@.directives.len() == n,
                forall|k: int|
                    0 <= k < n ==> self@.directives[k] == directive_view(
                        #[trigger] self.directives@[k],
                    ),
                spec_filter_name(self@.directives, name@) == Seq::new(
                    out@.len(),
                    |k: int| out@[k]@,
                ) + spec_filter_name(self@.directives.skip(i as int), name@),
            decreases n - i,
        {
            proof {
                assert(self@.directives.skip(i as int)[0] == self@.directives[i as int]);
                assert(self@.directives.skip(i as int).drop_first() =~= self@.directives.skip(
                    i + 1,
                ));
            }
            let dn = str_chars(self.directives[i].name.as_str());
            let ghost prev = Seq::new(out@.len(), |k: int| out@[k]@);
            if eq_chars(&dn, &nc) {
                out.push(&self.directives[i]);
                proof {
                    assert(Seq::new(out@.len(), |k: int| out@[k]@) =~= prev + seq![
                        self@.directives[i as int],
                    ]);
                    assert(prev + (seq![self@.directives[i as int]] + spec_filter_name(
                        self@.directives.skip(i + 1),
                        name@,
                    )) =~= (prev + seq![self@.directives[i as int]]) + spec_filter_name(
                        self@.directives.skip(i + 1),
                        name@,
                    ));
                }
            }
            i = i + 1;
        }
        proof {
            assert(self@.directives.skip(n as int) =~= Seq::<DirectiveV>::empty());
        }
        out
    }

    /// All directives whose name is one of `names`, in order.
    pub fn get_all_by_names(&self, names: &Vec<&str>) -> (r: Vec<&Directive>)
        ensures
            Seq::new(r@.len(), |i: int| r@[i]@) == spec_filter_names(
                self@.directives,
                Seq::new(names@.len(), |i: int| names@[i]@),
            ),
    {
        let ghost nsv = Seq::new(names@.len(), |i: int| names@[i]@);
        let n = self.directives.len();
        let mut out: Vec<&Directive> = Vec::new();
        let mut i: usize = 0;
        proof {
            lemma_directives_view_index(self.directives@);
            assert(self@.directives.skip(0) =~= self@.directives);
            assert(Seq::new(out@.len(), |k: int| out@[k]@) =~= Seq::<DirectiveV>::empty());
        }
        while i < n
            invariant
                n == self.directives@.len(),
                i <= n,
                self@.directives.len() == n,
                nsv == Seq::new(names@.len(), |k: int| names@[k]@),
                forall|k: int|
                    0 <= k < n ==> self@.directives[k] == directive_view(
                        #[trigger] self.directives@[k],
                    ),
                spec_filter_names(self@.directives, nsv) == Seq::new(
                    out@.len(),
                    |k: int| out@[k]@,
                ) + spec_filter_names(self@.directives.skip(i as int), nsv),
            decreases n - i,
        {
            proof {
                assert(self@.directives.skip(i as int)[0] == self@.directives[i as int]);
                assert(self@.directives.skip(i as int).drop_first() =~= self@.directives.skip(
                    i + 1,
                ));
            }
            let dn = str_chars(self.directives[i].name.as_str());
            let hit = contains_name(names, &dn);
            let ghost prev = Seq::new(out@.len(), |k: int| out@[k]@);
            if hit {
                out.push(&self.directives[i]);
                proof {
                    assert(Seq::new(out@.len(), |k: int| out@[k]@) =~= prev + seq![
                        self@.directives[i as int],
                    ]);
                    assert(prev + (seq![self@.directives[i as int]] + spec_filter_names(
                        self@.directives.skip(i + 1),
                        nsv,
                    )) =~= (prev + seq![self@.directives[i as int]]) + spec_filter_names(
                        self@.directives.skip(i + 1),
                        nsv,
                    ));
                }
            }
            i = i + 1;
        }
        proof {
            assert(self@.directives.skip(n as int) =~= Seq::<DirectiveV>::empty());
        }
        out
    }
}

/// All directives whose name is in `names`, in order.
pub open spec fn spec_filter_names(ds: Seq<DirectiveV>, names: Seq<Seq<char>>) -> Seq<DirectiveV>
    decreases ds.len(),
{
    if ds.len() == 0 {
        Seq::empty()
    } else if name_list_has(names, ds[0].name) {
        seq![ds[0]] + spec_filter_names(ds.drop_first(), names)
    } else {
        spec_filter_names(ds.drop_first(), names)
    }
}

fn contains_name(names: &Vec<&str>, x: &Vec<char>) -> (r: bool)
    ensures
        r == name_list_has(Seq::new(names@.len(), |i: int| names@[i]@), x@),
{
    let ghost nsv = Seq::new(names@.len(), |i: int| names@[i]@);
    let n = names.len();
    let mut i: usize = 0;
    while i < n
        invariant
            n == names@.len(),
            nsv == Seq::new(names@.len(), |k: int| names@[k]@),
            nsv.len() == n,
            i <= n,
            forall|k: int| 0 <= k < i ==> #[trigger] nsv[k] != x@,
            forall|k: int| 0 <= k < n ==> #[trigger] nsv[k] == names@[k]@,
        decreases n - i,
    {
        let c = str_chars(names[i]);
        if eq_chars(&c, x) {
            assert(nsv[i as int] == x@);
            return true;
        }
        i = i + 1;
    }
    false
}

impl Directive {
    /// The directive's name.
    pub fn name(&self) -> (r: &str)
        ensures
            r@ == self@.name,
    {
        self.name.as_str()
    }

    /// The directive's line number.
    pub fn line(&self) -> (r: u64)
        ensures
            r == self@.line,
    {
        self.line
    }

    /// Whether the value is plain text.
    pub fn is_string(&self) -> (r: bool)
        ensures
            r == (self@.value is Text),
    {
        matches!(self.value, Value::Text(_))
    }

    /// Whether the value is the boolean `on`.
    pub fn is_on(&self) -> (r: bool)
        ensures
            r == (self@.value == ValueV::Boolean(true)),
    {
        match self.value {
            Value::Boolean(b) => b,
            _ => false,
        }
    }

    /// Whether the value is the boolean `off`.
    pub fn is_off(&self) -> (r: bool)
        ensures
            r == (self@.value == ValueV::Boolean(false)),
    {
        match self.value {
            Value::Boolean(b) => !b,
            _ => false,
        }
    }

    /// Whether the value is a block.
    pub fn is_block(&self) -> (r: bool)
        ensures
            r == (self@.value is Block),
    {
        matches!(self.value, Value::Block(_))
    }

    /// The text value, if the directive holds one.
    pub fn as_source_str(&self) -> (r: Option<&str>)
        ensures
            match r {
                Some(s) => self@.value == ValueV::Text(s@),
                None => !(self@.value is Text),
            },
    {
        match &self.value {
            Value::Text(s) => Some(s.as_str()),
            _ => Option::None,
        }
    }

    /// The boolean value, if the directive holds one.
    pub fn as_bool(&self) -> (r: Option<bool>)
        ensures
            match r {
                Some(b) => self@.value == ValueV::Boolean(b),
                None => !(self@.value is Boolean),
            },
    {
        match self.value {
            Value::Boolean(b) => Some(b),
            _ => Option::None,
        }
    }

    /// The block value, if the directive holds one.
    pub fn as_block(&self) -> (r: Option<&Block>)
        ensures
            match r {
                Some(b) => self@.value == ValueV::Block(b@),
                None => !(self@.value is Block),
            },
    {
        match &self.value {
            Value::Block(b) => Some(b),
            _ => Option::None,
        }
    }

    /// The value text and block, if the directive holds both.
    pub fn as_value_block(&self) -> (r: Option<(&str, &Block)>)
        ensures
            match r {
                Some(p) => self@.value == ValueV::ValueBlock(p.0@, p.1@),
                None => !(self@.value is ValueBlock),
            },
    {
        match &self.value {
            Value::ValueBlock(v, b) => Some((v.as_str(), b)),
            _ => Option::None,
        }
    }
}

// ---------------------------------------------------------------------------
// Block validation.
// ---------------------------------------------------------------------------

/// Every directive's name is one of `allow`.
pub open spec fn names_allowed(ds: Seq<DirectiveV>, allow: Seq<Seq<char>>) -> bool {
    forall|i: int| 0 <= i < ds.len() ==> name_list_has(allow, #[trigger] ds[i].name)
}

/// Every required name occurs in `ds`.
pub open spec fn names_required(ds: Seq<DirectiveV>, required: Seq<Seq<char>>) -> bool {
    forall|i: int|
        0 <= i < required.len() ==> spec_block_get(ds, #[trigger] required[i]) is Some
}

/// No name repeats unless listed in `repeat`.
pub open spec fn names_unrepeated(ds: Seq<DirectiveV>, repeat: Seq<Seq<char>>) -> bool {
    forall|i: int, j: int|
        0 <= i < j < ds.len() && #[trigger] ds[i].name == #[trigger] ds[j].name ==> name_list_has(
            repeat,
            ds[i].name,
        )
}

impl Block {
    /// Validates this block: every directive's name must be allowed, every
    /// required name present, and no name repeated unless the repeat list
    /// names it.
    pub fn check(&self, allow: &Vec<&str>, required: &Vec<&str>, repeat: &Vec<&str>) -> (r:
        Result<(), ConfError>)
        ensures
            r is Ok <==> (names_allowed(
                self@.directives,
                Seq::new(allow@.len(), |i: int| allow@[i]@),
            ) && names_required(
                self@.directives,
                Seq::new(required@.len(), |i: int| required@[i]@),
            ) && names_unrepeated(
                self@.directives,
                Seq::new(repeat@.len(), |i: int| repeat@[i]@),
            )),
    {
        let ghost av = Seq::new(allow@.len(), |i: int| allow@[i]@);
        let ghost rv = Seq::new(required@.len(), |i: int| required@[i]@);
        let ghost pv = Seq::new(repeat@.len(), |i: int| repeat@[i]@);
        let n = self.directives.len();
        proof {
            lemma_directives_view_index(self.directives@);
        }
        let mut i: usize = 0;
        while i < n
            invariant
                n == self.directives@.len(),
                self@.directives.len() == n,
                av == Seq::new(allow@.len(), |k: int| allow@[k]@),
                i <= n,
                forall|k: int|
                    0 <= k < n ==> self@.directives[k] == directive_view(
                        #[trigger] self.directives@[k],
                    ),
                forall|k: int| 0 <= k < i ==> name_list_has(av, #[trigger] self@.directives[k].name),
            decreases n - i,
        {
            let dn = str_chars(self.directives[i].name.as_str());
            if !contains_name(allow, &dn) {
                assert(!name_list_has(av, self@.directives[i as int].name));
                return Err(ConfError {
                    line: self.directives[i].line,
                    message: crate::matcher::error_message("Unknown directive `", &dn, "`"),
                });
            }
            i = i + 1;
        }
        let rn = required.len();
        let mut j: usize = 0;
        while j < rn
            invariant
                rn == required@.len(),
                rv == Seq::new(required@.len(), |k: int| required@[k]@),
                rv.len() == rn,
                j <= rn,
                forall|k: int| 0 <= k < rn ==> #[trigger] rv[k] == required@[k]@,
                forall|k: int| 0 <= k < j ==> spec_block_get(self@.directives, #[trigger] rv[k]) is Some,
            decreases rn - j,
        {
            match self.get(required[j]) {
                Some(_) => {},
                Option::None => {
                    let rc = str_chars(required[j]);
                    assert(spec_block_get(self@.directives, rv[j as int]) is None);
                    return Err(ConfError {
                        line: self.line,
                        message: crate::matcher::error_message("Missing directive `", &rc, "`"),
                    });
                },
            }
            j = j + 1;
        }
        let mut a: usize = 0;
        while a < n
            invariant
                n == self.directives@.len(),
                self@.directives.len() == n,
                pv == Seq::new(repeat@.len(), |k: int| repeat@[k]@),
                a <= n,
                forall|k: int|
                    0 <= k < n ==> self@.directives[k] == directive_view(
                        #[trigger] self.directives@[k],
                    ),
                forall|x: int, y: int|
                    0 <= x < y < n && x < a && #[trigger] self@.directives[x].name
                        == #[trigger] self@.directives[y].name ==> name_list_has(
                        pv,
                        self@.directives[x].name,
                    ),
            decreases n - a,
        {
            let dn = str_chars(self.directives[a].name.as_str());
            if !contains_name(repeat, &dn) {
                let mut b: usize = a + 1;
                while b < n
                    invariant
                        n == self.directives@.len(),
                        self@.directives.len() == n,
                        a < n,
                        dn@ == self@.directives[a as int].name,
                        pv == Seq::new(repeat@.len(), |k: int| repeat@[k]@),
                        !name_list_has(pv, self@.directives[a as int].name),
                        a < b,
                        b <= n,
                        forall|k: int|
                            0 <= k < n ==> self@.directives[k] == directive_view(
                                #[trigger] self.directives@[k],
                            ),
                        forall|y: int|
                            a < y < b ==> #[trigger] self@.directives[y].name
                                != self@.directives[a as int].name,
                    decreases n - b,
                {
                    let bn = str_chars(self.directives[b].name.as_str());
                    if eq_chars(&bn, &dn) {
                        proof {
                            assert(self@.directives[b as int].name
                                == self@.directives[a as int].name);
                            assert(!name_list_has(pv, self@.directives[a as int].name));
                            assert(!names_unrepeated(self@.directives, pv));
                        }
                        return Err(ConfError {
                            line: self.directives[b].line,
                            message: crate::matcher::error_message("Repeated directive `", &dn, "`"),
                        });
                    }
                    b = b + 1;
                }
            }
            a = a + 1;
        }
        Ok(())
    }
}

/// Every directive a name filter keeps has its name in the list.
pub proof fn lemma_filter_names_member(ds: Seq<DirectiveV>, names: Seq<Seq<char>>)
    ensures
        forall|i: int|
            0 <= i < spec_filter_names(ds, names).len() ==> name_list_has(
                names,
                #[trigger] spec_filter_names(ds, names)[i].name,
            ),
    decreases ds.len(),
{
    if ds.len() > 0 {
        lemma_filter_names_member(ds.drop_first(), names);
        let rest = spec_filter_names(ds.drop_first(), names);
        if name_list_has(names, ds[0].name) {
            assert forall|i: int|
                0 <= i < spec_filter_names(ds, names).len() implies name_list_has(
                names,
                #[trigger] spec_filter_names(ds, names)[i].name,
            ) by {
                if i > 0 {
                    assert(spec_filter_names(ds, names)[i] == rest[i - 1]);
                }
            }
        }
    }
}

/// The directive shapes of a block line up with its directive vector.
pub proof fn lemma_directives_view_index_pub(ds: Seq<Directive>)
    ensures
        directives_view(ds).len() == ds.len(),
        forall|i: int|
            0 <= i < ds.len() ==> directives_view(ds)[i] == directive_view(#[trigger] ds[i]),
{
    lemma_directives_view_index(ds);
}

} // verus!
