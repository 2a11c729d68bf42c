//! Splitting a whole input into located lexemes.
use vstd::prelude::*;

use crate::grammar;
use crate::grammar::LexFailure;
use crate::lexeme::{Lexeme, LexemeView};
use crate::scan::{interlexeme_space, lexeme, Scanned};
use crate::source::{
    byte_column, byte_offset, char_column, lemma_byte_offset_bound, lemma_encode_concat,
    lemma_newlines_prefix, lemma_newlines_step, line_number, line_start, newlines, Source,
};

verus! {

/// Where a lexeme starts: its byte offset, its line, its column counted in bytes and in
/// characters (all from 1 but the offset), and the name of the input.
#[derive(Debug)]
pub struct Span {
    pub offset: usize,
    pub line: u32,
    pub column: usize,
    pub utf8_column: usize,
    pub file_name: String,
}

/// A lexeme and where it starts.
#[derive(Debug)]
pub struct Token<'a> {
    pub lexeme: Lexeme<'a>,
    pub span: Span,
}

/// Why an input cannot be split into lexemes.
#[derive(Debug)]
pub enum LexError {
    /// The input ends in `#\` or inside a string just after `\`: one more character is needed.
    Incomplete,
    /// No lexeme starts at this position.
    Error(Span),
}

/// The name that tokens of an input carry: the given file name, or `<stdin>`.
pub open spec fn input_name(file_name: Option<&str>) -> Seq<char> {
    match file_name {
        Some(f) => f@,
        None => "<stdin>"@,
    }
}

/// `span` is position `j` of the input `s` named `name`.
pub open spec fn located(span: Span, s: Seq<char>, j: int, name: Seq<char>) -> bool {
    &&& span.offset == byte_offset(s, j)
    &&& span.line == line_number(s, j)
    &&& span.column == byte_column(s, j)
    &&& span.utf8_column == char_column(s, j)
    &&& span.file_name@ == name
}

/// The tokens are the lexemes of the grammar, each at its position.
pub open spec fn tokens_agree<'a>(toks: Seq<Token<'a>>, ls: Seq<(int, LexemeView)>, s: Seq<char>, name: Seq<char>) -> bool {
    &&& toks.len() == ls.len()
    &&& forall|k: int|
        0 <= k < ls.len() ==> {
            &&& (#[trigger] toks[k]).lexeme@ == ls[k].1
            &&& located(toks[k].span, s, ls[k].0, name)
        }
}

/// The lexemes found so far, put before what the rest of the input gives.
pub open spec fn prepend_lexemes(done: Seq<(int, LexemeView)>, rest: Result<Seq<(int, LexemeView)>, LexFailure>) -> Result<Seq<(int, LexemeView)>, LexFailure> {
    match rest {
        Ok(ls) => Ok(done + ls),
        Err(f) => Err(f),
    }
}

/// The line start of a position is at or before it.
proof fn lemma_line_start_bounds(s: Seq<char>, j: int)
    requires
        0 <= j <= s.len(),
    ensures
        0 <= line_start(s, j) <= j,
    decreases j,
{
    if j > 0 && s[j - 1] != '\n' {
        lemma_line_start_bounds(s, j - 1);
    }
}

/// Byte offsets grow with the position.
proof fn lemma_byte_offset_mono(s: Seq<char>, a: int, b: int)
    requires
        0 <= a <= b <= s.len(),
    ensures
        byte_offset(s, a) <= byte_offset(s, b),
{
    assert(s.take(b) =~= s.take(a) + s.take(b).skip(a));
    lemma_encode_concat(s.take(a), s.take(b).skip(a));
}

/// The line and line start of position `to`, from those of position `from`.
fn advance(src: &Source, from: usize, to: usize, line: u32, start: usize) -> (r: (u32, usize))
    requires
        src.wf(),
        from <= to <= src.chars@.len(),
        line == line_number(src.chars@, from as int),
        start == line_start(src.chars@, from as int),
        newlines(src.chars@) < u32::MAX,
    ensures
        r.0 == line_number(src.chars@, to as int),
        r.1 == line_start(src.chars@, to as int),
{
    let ghost s = src.chars@;
    let mut k = from;
    let mut line = line;
    let mut start = start;
    while k < to
        invariant
            src.wf(),
            s == src.chars@,
            from <= k <= to <= s.len(),
            line == line_number(s, k as int),
            start == line_start(s, k as int),
            newlines(s) < u32::MAX,
        decreases to - k,
    {
        proof {
            lemma_newlines_step(s, k as int);
            lemma_newlines_prefix(s, k + 1);
        }
        if src.chars[k] == '\n' {
            line = line + 1;
            start = k + 1;
        }
        k = k + 1;
    }
    (line, start)
}

/// The span of position `j`, whose line and line start are given.
fn span_at(src: &Source, j: usize, line: u32, start: usize, name: &String) -> (sp: Span)
    requires
        src.wf(),
        j < src.chars@.len(),
        line == line_number(src.chars@, j as int),
        start == line_start(src.chars@, j as int),
    ensures
        located(sp, src.text@, j as int, name@),
{
    proof {
        lemma_line_start_bounds(src.chars@, j as int);
        lemma_byte_offset_mono(src.text@, start as int, j as int);
        lemma_byte_offset_mono(src.text@, j as int, j + 1);
        crate::source::lemma_byte_offset_step(src.text@, j as int);
        lemma_byte_offset_bound(src.text@, j + 1);
        assert(src.offsets@[j as int] == byte_offset(src.text@, j as int));
        assert(src.offsets@[j + 1] == byte_offset(src.text@, j + 1));
        assert(src.offsets@[start as int] == byte_offset(src.text@, start as int));
    }
    let offset = src.offsets[j];
    Span {
        offset,
        line,
        column: offset - src.offsets[start] + 1,
        utf8_column: j - start + 1,
        file_name: name.clone(),
    }
}

impl<'a> Token<'a> {
    /// Splits the input into its lexemes, each with where it starts, as the grammar states: space
    /// between lexemes is skipped, and the first place where no lexeme starts, or where the input
    /// ends inside one, is the error.
    pub fn tokenize(s: &'a str, file_name: Option<&str>) -> (r: Result<Vec<Token<'a>>, LexError>)
        requires
            newlines(s@) < u32::MAX,
        ensures
            match r {
                Ok(toks) => grammar::lexemes(s@, 0) matches Ok(ls) && tokens_agree(toks@, ls, s@, input_name(file_name)),
                Err(LexError::Incomplete) => grammar::lexemes(s@, 0) == Err::<Seq<(int, LexemeView)>, LexFailure>(LexFailure::Incomplete),
                Err(LexError::Error(sp)) => grammar::lexemes(s@, 0) matches Err(LexFailure::NoLexeme(j)) && located(sp, s@, j, input_name(file_name)),
            },
    {
        let src = Source::new(s);
        let name: String = match file_name {
            Some(f) => f.to_owned(),
            None => "<stdin>".to_owned(),
        };
        let ghost text = s@;
        let ghost label = input_name(file_name);
        let n = src.chars.len();
        let mut out: Vec<Token<'a>> = Vec::new();
        let mut i: usize = 0;
        let mut line: u32 = 1;
        let mut start: usize = 0;
        let ghost mut done: Seq<(int, LexemeView)> = Seq::empty();
        proof {
            assert(text.take(0) =~= Seq::<char>::empty());
            match grammar::lexemes(text, 0) {
                Ok(ls) => {
                    assert(done + ls =~= ls);
                },
                Err(_) => {},
            }
        }
        loop
            invariant
                src.wf(),
                src.text == s,
                text == s@,
                text == src.chars@,
                n == text.len(),
                name@ == label,
                label == input_name(file_name),
                newlines(text) < u32::MAX,
                i <= n,
                line == line_number(text, i as int),
                start == line_start(text, i as int),
                grammar::lexemes(text, 0) == prepend_lexemes(done, grammar::lexemes(text, i as int)),
                tokens_agree(out@, done, text, label),
            decreases n - i,
        {
            let j = interlexeme_space(&src, i);
            let (line_j, start_j) = advance(&src, i, j, line, start);
            if j >= n {
                proof {
                    assert(done + Seq::<(int, LexemeView)>::empty() =~= done);
                }
                return Ok(out);
            }
            let sp = span_at(&src, j, line_j, start_j, &name);
            match lexeme(&src, j) {
                Scanned::Matched(e, l) => {
                    proof {
                        match grammar::lexemes(text, e as int) {
                            Ok(rest) => {
                                assert(done + (seq![(j as int, l@)] + rest) =~= done.push((j as int, l@)) + rest);
                            },
                            Err(_) => {},
                        }
                    }
                    let ghost before = out@;
                    out.push(Token { lexeme: l, span: sp });
                    proof {
                        done = done.push((j as int, l@));
                        assert forall|k: int| 0 <= k < done.len() implies {
                            &&& (#[trigger] out@[k]).lexeme@ == done[k].1
                            &&& located(out@[k].span, text, done[k].0, label)
                        } by {
                            if k < before.len() {
                                assert(out@[k] == before[k]);
                            }
                        }
                    }
                    let (line_e, start_e) = advance(&src, j, e, line_j, start_j);
                    i = e;
                    line = line_e;
                    start = start_e;
                },
                Scanned::Incomplete => {
                    return Err(LexError::Incomplete);
                },
                Scanned::Failed => {
                    return Err(LexError::Error(sp));
                },
            }
        }
    }
}

} // verus!
