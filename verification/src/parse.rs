//! The line parser: one submitted text buffer becomes either a named
//! function call or a literal operand.
//!
//! The grammar is a strict three-way priority: a buffer whose first
//! character is the call marker `.` is a call; otherwise a buffer that
//! is one float literal is a scalar; otherwise a buffer splitting on
//! `;` into rows of float tokens is a matrix.  Ragged or empty rows
//! are rejected at parse time, so every matrix literal satisfies the
//! operand invariant.  Anything else is a parse error.

use crate::errors::ErrorKind;
use crate::operand::{Operand, OperandModel, rows_view};
use crate::literal::{literal_bits_of, parse_literal};
use vstd::prelude::*;

verus! {

/// The characters the parser treats as token separators.
pub open spec fn is_space(c: char) -> bool {
    c == ' ' || c == '\t' || c == '\n' || c == '\r'
}

fn is_space_char(c: char) -> (r: bool)
    ensures
        r == is_space(c),
{
    c == ' ' || c == '\t' || c == '\n' || c == '\r'
}

/// A sequence of token rows, as plain sequences of characters.
pub open spec fn texts_view(ts: Seq<Vec<char>>) -> Seq<Seq<char>> {
    Seq::new(ts.len(), |i: int| ts[i]@)
}

/// The whitespace-separated tokens of a piece of text, in order.
pub open spec fn tokens_of(s: Seq<char>) -> Seq<Seq<char>>
    decreases s.len(),
{
    if s.len() == 0 {
        Seq::empty()
    } else if is_space(s[0]) {
        tokens_of(s.skip(1))
    } else {
        let rest = tokens_of(s.skip(1));
        if s.len() == 1 || is_space(s[1]) {
            seq![seq![s[0]]] + rest
        } else {
            seq![seq![s[0]] + rest[0]] + rest.skip(1)
        }
    }
}

/// A text that starts with a non-separator has at least one token.
pub proof fn lemma_tokens_nonempty(s: Seq<char>)
    requires
        s.len() > 0,
        !is_space(s[0]),
    ensures
        tokens_of(s).len() >= 1,
{
}

/// Peeling the head token: if the first `k` characters are
/// non-separators and the text ends or has a separator there, the
/// token list is that prefix followed by the tokens of the rest.
pub proof fn lemma_tokens_peel(s: Seq<char>, k: int)
    requires
        1 <= k <= s.len(),
        forall|i: int| 0 <= i < k ==> !is_space(#[trigger] s[i]),
        k == s.len() || is_space(s[k]),
    ensures
        tokens_of(s) == seq![s.take(k)] + tokens_of(s.skip(k)),
    decreases k,
{
    if k == 1 {
        assert(seq![s[0]] =~= s.take(1));
        assert(tokens_of(s) =~~= seq![s.take(1)] + tokens_of(s.skip(1)));
    } else {
        assert(forall|i: int| 0 <= i < k - 1 ==> !is_space(#[trigger] s.skip(1)[i]));
        assert(k - 1 == s.skip(1).len() || is_space(s.skip(1)[k - 1]));
        lemma_tokens_peel(s.skip(1), k - 1);
        let rest = tokens_of(s.skip(1));
        assert(rest[0] == s.skip(1).take(k - 1));
        assert(rest.skip(1) =~~= tokens_of(s.skip(1).skip(k - 1)));
        assert(s.skip(1).skip(k - 1) =~= s.skip(k));
        assert(seq![s[0]] + s.skip(1).take(k - 1) =~= s.take(k));
        assert(tokens_of(s) =~~= seq![s.take(k)] + tokens_of(s.skip(k)));
    }
}

/// Splits a buffer into its whitespace-separated tokens.
pub fn tokenize(buf: &Vec<char>) -> (r: Vec<Vec<char>>)
    ensures
        texts_view(r@) == tokens_of(buf@),
{
    let mut toks: Vec<Vec<char>> = Vec::new();
    let mut i: usize = 0;
    proof {
        assert(buf@.skip(0) =~= buf@);
        assert(texts_view(toks@) + tokens_of(buf@) =~~= tokens_of(buf@));
    }
    while i < buf.len()
        invariant
            i <= buf.len(),
            tokens_of(buf@) == texts_view(toks@) + tokens_of(buf@.skip(i as int)),
        decreases buf.len() - i,
    {
        if is_space_char(buf[i]) {
            proof {
                assert(buf@.skip(i as int).skip(1) =~= buf@.skip(i as int + 1));
            }
            i += 1;
        } else {
            let start = i;
            let mut tok: Vec<char> = Vec::new();
            while i < buf.len() && !is_space_char(buf[i])
                invariant
                    start <= i <= buf.len(),
                    tok@ =~= buf@.subrange(start as int, i as int),
                    forall|m: int| start <= m < i ==> !is_space(#[trigger] buf@[m]),
                    !is_space(buf@[start as int]),
                    start < buf@.len(),
                decreases buf.len() - i,
            {
                tok.push(buf[i]);
                i += 1;
            }
            proof {
                let tail = buf@.skip(start as int);
                let k = i - start;
                assert(forall|m: int| 0 <= m < k ==> !is_space(#[trigger] tail[m]));
                assert(k == tail.len() || is_space(tail[k]));
                lemma_tokens_peel(tail, k as int);
                assert(tail.take(k as int) =~= buf@.subrange(start as int, i as int));
                assert(tail.skip(k as int) =~= buf@.skip(i as int));
                assert(texts_view(toks@.push(tok)) =~~= texts_view(toks@) + seq![tok@]);
                assert(texts_view(toks@) + seq![tok@] + tokens_of(buf@.skip(i as int))
                    =~~= texts_view(toks@) + tokens_of(buf@.skip(start as int)));
            }
            toks.push(tok);
        }
    }
    proof {
        assert(buf@.skip(buf@.len() as int) =~= Seq::<char>::empty());
        assert(texts_view(toks@) + tokens_of(buf@.skip(buf@.len() as int)) =~~= texts_view(toks@));
    }
    toks
}

/// The `;`-separated segments of a piece of text, in order, empty
/// segments included: always one more segment than separators.
pub open spec fn rows_of(s: Seq<char>) -> Seq<Seq<char>>
    decreases s.len(),
{
    if s.len() == 0 {
        seq![Seq::<char>::empty()]
    } else if s[0] == ';' {
        seq![Seq::<char>::empty()] + rows_of(s.skip(1))
    } else {
        let rest = rows_of(s.skip(1));
        seq![seq![s[0]] + rest[0]] + rest.skip(1)
    }
}

/// Splitting on `;` yields at least one segment.
pub proof fn lemma_rows_nonempty(s: Seq<char>)
    ensures
        rows_of(s).len() >= 1,
    decreases s.len(),
{
    if s.len() == 0 {
    } else {
        lemma_rows_nonempty(s.skip(1));
    }
}

/// Peeling the head segment: if the first `k` characters are not `;`
/// and the text ends or has a `;` there, the segment list is that
/// prefix followed by the segments after the separator.
pub proof fn lemma_rows_peel(s: Seq<char>, k: int)
    requires
        0 <= k <= s.len(),
        forall|i: int| 0 <= i < k ==> #[trigger] s[i] != ';',
        k == s.len() || s[k] == ';',
    ensures
        rows_of(s) == seq![s.take(k)] + (if k == s.len() {
            Seq::<Seq<char>>::empty()
        } else {
            rows_of(s.skip(k + 1))
        }),
    decreases k,
{
    if k == 0 {
        if s.len() == 0 {
            assert(rows_of(s) =~~= seq![s.take(0)] + Seq::<Seq<char>>::empty());
        } else {
            assert(rows_of(s) =~~= seq![s.take(0)] + rows_of(s.skip(1)));
        }
    } else {
        assert(forall|i: int| 0 <= i < k - 1 ==> #[trigger] s.skip(1)[i] != ';');
        assert(k - 1 == s.skip(1).len() || s.skip(1)[k - 1] == ';');
        lemma_rows_peel(s.skip(1), k - 1);
        lemma_rows_nonempty(s.skip(1));
        let rest = rows_of(s.skip(1));
        assert(rest[0] == s.skip(1).take(k - 1));
        assert(seq![s[0]] + s.skip(1).take(k - 1) =~= s.take(k));
        if k == s.len() {
            assert(rest.skip(1) =~~= Seq::<Seq<char>>::empty());
            assert(rows_of(s) =~~= seq![s.take(k)] + Seq::<Seq<char>>::empty());
        } else {
            assert(rest.skip(1) =~~= rows_of(s.skip(1).skip(k)));
            assert(s.skip(1).skip(k) =~= s.skip(k + 1));
            assert(rows_of(s) =~~= seq![s.take(k)] + rows_of(s.skip(k + 1)));
        }
    }
}

/// Splits a buffer on `;` into segments, keeping empty ones.
pub fn split_rows(buf: &Vec<char>) -> (r: Vec<Vec<char>>)
    ensures
        texts_view(r@) == rows_of(buf@),
{
    let mut rows: Vec<Vec<char>> = Vec::new();
    let mut cur: Vec<char> = Vec::new();
    let mut i: usize = 0;
    let ghost whole = buf@;
    proof {
        assert(whole.skip(0) =~= whole);
        lemma_rows_nonempty(whole);
        assert(cur@ + rows_of(whole)[0] =~= rows_of(whole)[0]);
        assert(texts_view(rows@) + seq![rows_of(whole)[0]] + rows_of(whole).skip(1)
            =~~= rows_of(whole));
    }
    while i < buf.len()
        invariant
            i <= buf.len(),
            whole == buf@,
            rows_of(whole) == texts_view(rows@) + seq![cur@ + rows_of(whole.skip(i as int))[0]]
                + rows_of(whole.skip(i as int)).skip(1),
        decreases buf.len() - i,
    {
        let c = buf[i];
        proof {
            assert(whole.skip(i as int).skip(1) =~= whole.skip(i as int + 1));
            lemma_rows_nonempty(whole.skip(i as int + 1));
        }
        if c == ';' {
            proof {
                let rem1 = rows_of(whole.skip(i as int + 1));
                assert(rows_of(whole.skip(i as int)) =~~= seq![Seq::<char>::empty()] + rem1);
                assert(cur@ + Seq::<char>::empty() =~= cur@);
                assert(texts_view(rows@.push(cur)) =~~= texts_view(rows@) + seq![cur@]);
                assert(texts_view(rows@) + seq![cur@] + seq![Seq::<char>::empty() + rem1[0]]
                    + rem1.skip(1) =~~= texts_view(rows@) + seq![cur@ + rows_of(
                    whole.skip(i as int),
                )[0]] + rows_of(whole.skip(i as int)).skip(1));
            }
            rows.push(cur);
            cur = Vec::new();
        } else {
            proof {
                let rem1 = rows_of(whole.skip(i as int + 1));
                assert(rows_of(whole.skip(i as int)) =~~= seq![seq![c] + rem1[0]] + rem1.skip(1));
                assert(cur@.push(c) + rem1[0] =~= cur@ + (seq![c] + rem1[0]));
            }
            cur.push(c);
        }
        i += 1;
    }
    proof {
        assert(whole.skip(whole.len() as int) =~= Seq::<char>::empty());
        assert(rows_of(Seq::<char>::empty()) =~~= seq![Seq::<char>::empty()]);
        assert(cur@ + Seq::<char>::empty() =~= cur@);
        assert(texts_view(rows@.push(cur)) =~~= texts_view(rows@) + seq![cur@]);
        assert(texts_view(rows@) + seq![cur@] =~~= rows_of(whole));
    }
    rows.push(cur);
    rows
}

/// The text with every leading call marker removed.
pub open spec fn strip_dots(t: Seq<char>) -> Seq<char>
    decreases t.len(),
{
    if t.len() == 0 {
        t
    } else if t[0] == '.' {
        strip_dots(t.skip(1))
    } else {
        t
    }
}

/// Skipping exactly the leading run of markers yields `strip_dots`.
pub proof fn lemma_strip_dots_skip(t: Seq<char>, d: int)
    requires
        0 <= d <= t.len(),
        forall|i: int| 0 <= i < d ==> #[trigger] t[i] == '.',
        d == t.len() || t[d] != '.',
    ensures
        strip_dots(t) == t.skip(d),
    decreases d,
{
    if d == 0 {
        assert(t.skip(0) =~= t);
    } else {
        assert(forall|i: int| 0 <= i < d - 1 ==> #[trigger] t.skip(1)[i] == '.');
        lemma_strip_dots_skip(t.skip(1), d - 1);
        assert(t.skip(1).skip(d - 1) =~= t.skip(d));
    }
}

/// Copies the text with every leading call marker removed.
fn strip_leading_dots(t: &Vec<char>) -> (r: Vec<char>)
    ensures
        r@ == strip_dots(t@),
{
    let mut d: usize = 0;
    while d < t.len() && t[d] == '.'
        invariant
            d <= t.len(),
            forall|i: int| 0 <= i < d ==> #[trigger] t@[i] == '.',
        decreases t.len() - d,
    {
        d += 1;
    }
    proof {
        lemma_strip_dots_skip(t@, d as int);
    }
    let mut r: Vec<char> = Vec::new();
    let mut i: usize = d;
    while i < t.len()
        invariant
            d <= i <= t.len(),
            r@ =~= t@.subrange(d as int, i as int),
        decreases t.len() - i,
    {
        r.push(t[i]);
        i += 1;
    }
    proof {
        assert(r@ =~= t@.skip(d as int));
    }
    r
}

/// An independent copy of a token.
fn copy_chars(v: &Vec<char>) -> (r: Vec<char>)
    ensures
        r@ == v@,
{
    let mut r: Vec<char> = Vec::new();
    let mut i: usize = 0;
    while i < v.len()
        invariant
            i <= v.len(),
            r@ =~= v@.take(i as int),
        decreases v.len() - i,
    {
        r.push(v[i]);
        i += 1;
    }
    proof {
        assert(r@ =~= v@);
    }
    r
}

/// Whether every token of a row is a float literal.
pub open spec fn row_ok(ts: Seq<Seq<char>>) -> bool {
    forall|j: int| 0 <= j < ts.len() ==> (#[trigger] literal_bits_of(ts[j])) is Some
}

/// The bit patterns of a row of float tokens.
pub open spec fn row_bits(ts: Seq<Seq<char>>) -> Seq<u64> {
    Seq::new(ts.len(), |j: int| literal_bits_of(ts[j]).unwrap())
}

/// What the matrix grammar makes of a buffer: split on `;` into rows,
/// every row must tokenize to the same positive number of float
/// tokens; otherwise the buffer is no matrix literal.
pub open spec fn grid_of(s: Seq<char>) -> Option<Seq<Seq<u64>>> {
    let rows = rows_of(s);
    if forall|i: int|
        0 <= i < rows.len() ==> {
            let ts = tokens_of(#[trigger] rows[i]);
            ts.len() >= 1 && ts.len() == tokens_of(rows[0]).len() && row_ok(ts)
        } {
        Some(Seq::new(rows.len(), |i: int| row_bits(tokens_of(rows[i]))))
    } else {
        None
    }
}

/// The mathematical shape of one parsed line: a call with its raw
/// argument tokens, or a literal operand.
#[verifier::ext_equal]
pub enum LineModel {
    Call { name: Seq<char>, args: Seq<Seq<char>> },
    Lit(OperandModel),
}

/// The transient result of parsing one input buffer, consumed by the
/// dispatch step.
#[derive(PartialEq, Eq, Debug)]
pub enum ParsedLine {
    /// A named function call with its raw argument tokens, not yet
    /// interpreted: each function reads its own arguments.
    Call { name: Vec<char>, args: Vec<Vec<char>> },
    /// A directly constructed operand, to be pushed by the caller.
    Literal(Operand),
}

impl View for ParsedLine {
    type V = LineModel;

    open spec fn view(&self) -> LineModel {
        match self {
            ParsedLine::Call { name, args } => LineModel::Call {
                name: name@,
                args: texts_view(args@),
            },
            ParsedLine::Literal(op) => LineModel::Lit(op@),
        }
    }
}

/// What the whole line grammar makes of a buffer, in strict priority
/// order: call marker first, then one float literal, then a matrix
/// grid; `None` is a parse error.  A buffer that is only the bare
/// marker is a parse error; any other marker-led buffer is a call,
/// even one whose stripped name is empty — the dispatcher then
/// reports that name as unknown.
pub open spec fn line_model_of(s: Seq<char>) -> Option<LineModel> {
    if s.len() > 0 && s[0] == '.' {
        let toks = tokens_of(s);
        if toks.len() == 1 && toks[0] == seq!['.'] {
            None
        } else {
            Some(LineModel::Call { name: strip_dots(toks[0]), args: toks.skip(1) })
        }
    } else if literal_bits_of(s) is Some {
        Some(LineModel::Lit(OperandModel::Num(literal_bits_of(s).unwrap())))
    } else if grid_of(s) is Some {
        Some(LineModel::Lit(OperandModel::Mat(grid_of(s).unwrap())))
    } else {
        None
    }
}

/// Parses a buffer as a matrix grid.
fn parse_grid(buf: &Vec<char>) -> (r: Result<ParsedLine, ErrorKind>)
    ensures
        grid_of(buf@) is Some ==> r is Ok && r->Ok_0@ == LineModel::Lit(
            OperandModel::Mat(grid_of(buf@).unwrap()),
        ),
        grid_of(buf@) is None ==> r == Err::<ParsedLine, ErrorKind>(ErrorKind::ParseError),
        r is Ok ==> (match r->Ok_0@ {
            LineModel::Lit(op) => op.wf(),
            LineModel::Call { .. } => true,
        }),
{
    let rows = split_rows(buf);
    let ghost rows_model = rows_of(buf@);
    let mut grid: Vec<Vec<u64>> = Vec::new();
    let mut cols: usize = 0;
    let mut i: usize = 0;
    while i < rows.len()
        invariant
            i <= rows.len(),
            rows_model == rows_of(buf@),
            texts_view(rows@) == rows_model,
            rows@.len() == rows_model.len(),
            grid@.len() == i,
            i > 0 ==> cols == tokens_of(rows_model[0]).len() && cols >= 1,
            forall|k: int|
                0 <= k < i ==> {
                    let ts = tokens_of(#[trigger] rows_model[k]);
                    ts.len() >= 1 && ts.len() == tokens_of(rows_model[0]).len() && row_ok(ts)
                },
            forall|k: int|
                0 <= k < i ==> #[trigger] grid@[k]@ == row_bits(tokens_of(rows_model[k])),
        decreases rows.len() - i,
    {
        proof {
            assert(texts_view(rows@)[i as int] == rows@[i as int]@);
        }
        let toks = tokenize(&rows[i]);
        let ghost ts = tokens_of(rows_model[i as int]);
        proof {
            assert(rows_model[i as int] == rows@[i as int]@);
            assert(texts_view(toks@) == ts);
            assert(texts_view(toks@).len() == toks@.len());
            assert(ts.len() == toks@.len());
        }
        if toks.len() == 0 {
            proof {
                assert(tokens_of(rows_model[i as int]).len() == 0);
                assert((i as int) < rows_of(buf@).len());
                assert(tokens_of(rows_of(buf@)[i as int]).len() == 0);
                assert(grid_of(buf@) is None);
            }
            return Err(ErrorKind::ParseError);
        }
        if i == 0 {
            cols = toks.len();
        } else if toks.len() != cols {
            proof {
                assert(tokens_of(rows_model[i as int]).len() != tokens_of(rows_model[0]).len());
                assert(grid_of(buf@) is None);
            }
            return Err(ErrorKind::ParseError);
        }
        let mut rowbits: Vec<u64> = Vec::new();
        let mut j: usize = 0;
        while j < toks.len()
            invariant
                j <= toks.len(),
                rows_model == rows_of(buf@),
                (i as int) < rows_model.len(),
                ts == tokens_of(rows_model[i as int]),
                texts_view(toks@) == ts,
                toks@.len() == ts.len(),
                rowbits@.len() == j,
                forall|m: int| 0 <= m < j ==> (#[trigger] literal_bits_of(ts[m])) is Some,
                forall|m: int| 0 <= m < j ==> #[trigger] rowbits@[m] == literal_bits_of(ts[m]).unwrap(),
            decreases toks.len() - j,
        {
            proof {
                assert(texts_view(toks@)[j as int] == toks@[j as int]@);
                assert(ts[j as int] == toks@[j as int]@);
            }
            let parsed = parse_literal(&toks[j]);
            match parsed {
                Some(b) => {
                    rowbits.push(b);
                },
                None => {
                    proof {
                        assert(literal_bits_of(ts[j as int]) is None);
                        assert(!row_ok(ts));
                        assert(grid_of(buf@) is None);
                    }
                    return Err(ErrorKind::ParseError);
                },
            }
            j += 1;
        }
        proof {
            assert(rowbits@ =~= row_bits(ts));
        }
        grid.push(rowbits);
        i += 1;
    }
    proof {
        lemma_rows_nonempty(buf@);
        assert(grid_of(buf@) is Some);
        assert(rows_view(grid@) =~~= grid_of(buf@).unwrap());
        assert(grid_of(buf@).unwrap()[0].len() >= 1);
    }
    Ok(ParsedLine::Literal(Operand::Matrix(grid)))
}

/// Parses one submitted buffer, by the strict priority order of the
/// grammar.  A successful literal is always a well-formed operand.
pub fn parse_line(buf: &Vec<char>) -> (r: Result<ParsedLine, ErrorKind>)
    ensures
        line_model_of(buf@) is Some ==> r is Ok && r->Ok_0@ == line_model_of(buf@).unwrap(),
        line_model_of(buf@) is None ==> r == Err::<ParsedLine, ErrorKind>(ErrorKind::ParseError),
        r is Ok ==> (match r->Ok_0@ {
            LineModel::Lit(op) => op.wf(),
            LineModel::Call { .. } => true,
        }),
{
    if buf.len() > 0 && buf[0] == '.' {
        proof {
            lemma_tokens_nonempty(buf@);
        }
        let toks = tokenize(buf);
        proof {
            assert(texts_view(toks@).len() == tokens_of(buf@).len());
            assert(texts_view(toks@)[0] == toks@[0]@);
        }
        if toks.len() == 1 && toks[0].len() == 1 && toks[0][0] == '.' {
            proof {
                assert(toks@[0]@ =~= seq!['.']);
            }
            return Err(ErrorKind::ParseError);
        }
        proof {
            if tokens_of(buf@).len() == 1 && tokens_of(buf@)[0] == seq!['.'] {
                assert(toks@[0]@ == seq!['.']);
                assert(toks@[0]@.len() == 1 && toks@[0]@[0] == '.');
                assert(false);
            }
        }
        let name = strip_leading_dots(&toks[0]);
        let mut args: Vec<Vec<char>> = Vec::new();
        let mut i: usize = 1;
        while i < toks.len()
            invariant
                1 <= i <= toks.len(),
                args@.len() == i - 1,
                forall|k: int| 0 <= k < i - 1 ==> #[trigger] args@[k]@ == toks@[k + 1]@,
            decreases toks.len() - i,
        {
            let arg = copy_chars(&toks[i]);
            args.push(arg);
            i += 1;
        }
        proof {
            assert(texts_view(args@) =~~= tokens_of(buf@).skip(1));
        }
        Ok(ParsedLine::Call { name, args })
    } else {
        match parse_literal(buf) {
            Some(bits) => Ok(ParsedLine::Literal(Operand::Number(bits))),
            None => parse_grid(buf),
        }
    }
}

} // verus!
