use vstd::prelude::*;
use crate::ast::{Arg, Expr, Step, Stmt};
use crate::error::{Error, ErrorKind};

verus! {

/// The kinds of tokens of a query text.
#[derive(Debug, Clone, Copy, PartialEq, Eq, Structural)]
pub enum TokKind {
    /// A run of characters other than blanks, quotes and colons.
    Word,
    /// A double-quoted string; its range excludes the quotes.
    Str,
    Colon,
    Newline,
}

/// A token and the range of characters it covers.
#[derive(Debug, Clone, Copy, PartialEq, Eq, Structural)]
pub struct Tok {
    pub kind: TokKind,
    pub start: usize,
    pub end: usize,
}

pub open spec fn is_blank(c: char) -> bool {
    c == ' ' || c == '\t' || c == '\r'
}

pub open spec fn is_word_char(c: char) -> bool {
    !is_blank(c) && c != '\n' && c != '"' && c != ':'
}

/// Tokens lie in order within the text; words and strings hold the
/// characters their kind allows.
pub open spec fn tokens_ok(text: Seq<char>, toks: Seq<Tok>) -> bool {
    forall|i: int|
        #![trigger toks[i]]
        0 <= i < toks.len() ==> toks[i].start <= toks[i].end <= text.len() && (toks[i].kind is Word
            ==> toks[i].start < toks[i].end && forall|j: int|
            toks[i].start <= j < toks[i].end ==> is_word_char(text[j])) && (toks[i].kind is Str
            ==> forall|j: int| toks[i].start <= j < toks[i].end ==> text[j] != '"')
}

/// Splits a query text into tokens; an unterminated string is a syntax error.
pub fn tokenize(text: &str) -> (r: Result<Vec<Tok>, Error>)
    ensures
        r matches Ok(toks) ==> tokens_ok(text@, toks@),
        r matches Err(e) ==> e.kind == ErrorKind::Syntax,
{
    let n = text.unicode_len();
    let mut toks: Vec<Tok> = Vec::new();
    let mut i: usize = 0;
    while i < n
        invariant
            n == text@.len(),
            i <= n,
            tokens_ok(text@, toks@),
        decreases n - i,
    {
        let c = text.get_char(i);
        if c == ' ' || c == '\t' || c == '\r' {
            i = i + 1;
        } else if c == '\n' {
            toks.push(Tok { kind: TokKind::Newline, start: i, end: i + 1 });
            i = i + 1;
        } else if c == ':' {
            toks.push(Tok { kind: TokKind::Colon, start: i, end: i + 1 });
            i = i + 1;
        } else if c == '"' {
            let start = i + 1;
            let mut j: usize = start;
            while j < n && text.get_char(j) != '"'
                invariant
                    start <= j <= n,
                    n == text@.len(),
                    forall|k: int| start <= k < j ==> text@[k] != '"',
                decreases n - j,
            {
                j = j + 1;
            }
            if j >= n {
                return Err(Error::new(ErrorKind::Syntax));
            }
            toks.push(Tok { kind: TokKind::Str, start, end: j });
            i = j + 1;
        } else {
            let start = i;
            let mut j: usize = i + 1;
            let mut more = true;
            while more && j < n
                invariant
                    start <= j <= n,
                    n == text@.len(),
                    start < j,
                    forall|k: int| start <= k < j ==> is_word_char(text@[k]),
                decreases (n - j) as int + if more { 1int } else { 0int },
            {
                let d = text.get_char(j);
                if d != ' ' && d != '\t' && d != '\r' && d != '\n' && d != '"' && d != ':' {
                    j = j + 1;
                } else {
                    more = false;
                }
            }
            toks.push(Tok { kind: TokKind::Word, start, end: j });
            i = j;
        }
    }
    Ok(toks)
}

/// Value of a run of decimal digits.
pub open spec fn digits_value(s: Seq<char>) -> int
    decreases s.len(),
{
    if s.len() == 0 {
        0
    } else {
        digits_value(s.drop_last()) * 10 + (s.last() as int - '0' as int)
    }
}

pub open spec fn all_digits(s: Seq<char>) -> bool {
    forall|i: int| 0 <= i < s.len() ==> '0' <= #[trigger] s[i] <= '9'
}

/// Reads a non-negative decimal integer that fits in `i64`.
fn parse_int(s: &str) -> (r: Option<i64>)
    ensures
        r matches Some(v) ==> s@.len() > 0 && all_digits(s@) && v == digits_value(s@),
        (s@.len() > 0 && all_digits(s@) && digits_value(s@) <= i64::MAX) ==> r is Some,
{
    let n = s.unicode_len();
    if n == 0 {
        return None;
    }
    let mut v: i64 = 0;
    let mut i: usize = 0;
    while i < n
        invariant
            n == s@.len(),
            i <= n,
            all_digits(s@.subrange(0, i as int)),
            v == digits_value(s@.subrange(0, i as int)),
            0 <= v,
        decreases n - i,
    {
        let c = s.get_char(i);
        proof {
            assert(s@.subrange(0, i + 1).drop_last() == s@.subrange(0, i as int));
        }
        if c < '0' || c > '9' {
            proof {
                assert(!all_digits(s@)) by {
                    assert(s@[i as int] == c);
                }
            }
            return None;
        }
        let d = (c as u32 - '0' as u32) as i64;
        if v > (i64::MAX - d) / 10 {
            proof {
                if all_digits(s@) {
                    lemma_digits_grow(s@, i as int + 1);
                    assert(v * 10 + d > i64::MAX) by (nonlinear_arith)
                        requires
                            v > (i64::MAX - d) / 10,
                            0 <= d <= 9,
                    ;
                    assert(digits_value(s@.subrange(0, i + 1)) == v * 10 + d);
                }
            }
            return None;
        }
        v = v * 10 + d;
        i = i + 1;
    }
    proof {
        assert(s@.subrange(0, i as int) == s@);
    }
    Some(v)
}

/// A longer prefix of digits is worth at least as much.
proof fn lemma_digits_grow(s: Seq<char>, k: int)
    requires
        0 <= k <= s.len(),
        all_digits(s),
    ensures
        digits_value(s.subrange(0, k)) <= digits_value(s),
        0 <= digits_value(s.subrange(0, k)),
    decreases s.len() - k,
{
    lemma_digits_nonneg(s.subrange(0, k));
    if k < s.len() {
        lemma_digits_grow(s, k + 1);
        assert(s.subrange(0, k + 1).drop_last() == s.subrange(0, k));
        assert('0' <= s[k] <= '9');
    } else {
        assert(s.subrange(0, k) == s);
    }
}

proof fn lemma_digits_nonneg(s: Seq<char>)
    requires
        all_digits(s),
    ensures
        0 <= digits_value(s),
    decreases s.len(),
{
    if s.len() > 0 {
        assert(all_digits(s.drop_last())) by {
            assert forall|i: int| 0 <= i < s.drop_last().len() implies '0' <= #[trigger] s.drop_last()[i] <= '9' by {
                assert(s.drop_last()[i] == s[i]);
            }
        }
        lemma_digits_nonneg(s.drop_last());
        assert('0' <= s[s.len() - 1] <= '9');
    }
}

/// The characters a token covers.
fn tok_text(text: &str, t: Tok) -> (r: String)
    requires
        t.start <= t.end <= text@.len(),
    ensures
        r@ == text@.subrange(t.start as int, t.end as int),
{
    text.substring_char(t.start, t.end).to_owned()
}

/// Whether a word token spells `kw`.
fn tok_is(text: &str, t: Tok, kw: &str) -> (r: bool)
    requires
        t.start <= t.end <= text@.len(),
    ensures
        r == (t.kind is Word && text@.subrange(t.start as int, t.end as int) == kw@),
{
    if t.kind != TokKind::Word {
        return false;
    }
    let w = tok_text(text, t);
    w == kw.to_owned()
}

/// An argument value: a string, an integer, or a name.
fn parse_value(text: &str, t: Tok) -> (r: Result<Expr, Error>)
    requires
        t.start <= t.end <= text@.len(),
    ensures
        r matches Err(e) ==> e.kind == ErrorKind::Syntax,
        t.kind is Str ==> (r matches Ok(Expr::Str(s)) && s@ == text@.subrange(t.start as int, t.end as int)),
{
    let w = tok_text(text, t);
    match t.kind {
        TokKind::Str => Ok(Expr::Str(w)),
        TokKind::Word => match parse_int(w.as_str()) {
            Some(v) => Ok(Expr::Int(v)),
            None => Ok(Expr::Ident(w)),
        },
        _ => Err(Error::new(ErrorKind::Syntax)),
    }
}

/// The characters a token covers.
pub open spec fn tok_chars(text: Seq<char>, t: Tok) -> Seq<char> {
    text.subrange(t.start as int, t.end as int)
}

pub open spec fn opt_view(o: Option<String>) -> Option<Seq<char>> {
    match o {
        Some(s) => Some(s@),
        None => None,
    }
}

/// The version and dialect that the `key:value` pairs of tokens `i..e`
/// set, starting from `v` and `d`; `None` when a pair is malformed.
pub open spec fn header_pairs(
    text: Seq<char>,
    toks: Seq<Tok>,
    i: int,
    e: int,
    v: Option<Seq<char>>,
    d: Option<Seq<char>>,
) -> Option<(Option<Seq<char>>, Option<Seq<char>>)>
    decreases e - i,
{
    if i >= e {
        Some((v, d))
    } else if e - i <= 2 || !(toks[i + 1].kind is Colon) {
        None
    } else if toks[i].kind is Word && tok_chars(text, toks[i]) == "version"@ && toks[i + 2].kind is Str {
        header_pairs(text, toks, i + 3, e, Some(tok_chars(text, toks[i + 2])), d)
    } else if toks[i].kind is Word && tok_chars(text, toks[i]) == "dialect"@ && toks[i + 2].kind is Word {
        header_pairs(text, toks, i + 3, e, v, Some(tok_chars(text, toks[i + 2])))
    } else {
        None
    }
}

/// `prql key:value ...`: a `version` string and a `dialect` name.
fn parse_header(text: &str, toks: &Vec<Tok>, a: usize, e: usize) -> (r: Result<Stmt, Error>)
    requires
        tokens_ok(text@, toks@),
        a < e <= toks@.len(),
    ensures
        match header_pairs(text@, toks@, a + 1, e as int, None, None) {
            None => r matches Err(x) && x.kind == ErrorKind::Syntax,
            Some((v, d)) => r matches Ok(Stmt::QueryDef { version, dialect }) && opt_view(version)
                == v && opt_view(dialect) == d,
        },
{
    let mut version: Option<String> = None;
    let mut dialect: Option<String> = None;
    let mut i: usize = a + 1;
    while i < e
        invariant
            tokens_ok(text@, toks@),
            a < i,
            e <= toks@.len(),
            header_pairs(text@, toks@, a + 1, e as int, None, None) == header_pairs(
                text@,
                toks@,
                i as int,
                e as int,
                opt_view(version),
                opt_view(dialect),
            ),
        decreases e - i,
    {
        if e - i <= 2 {
            return Err(Error::new(ErrorKind::Syntax));
        }
        let key = toks[i];
        let colon = toks[i + 1];
        let value = toks[i + 2];
        if colon.kind != TokKind::Colon {
            return Err(Error::new(ErrorKind::Syntax));
        }
        if tok_is(text, key, "version") && value.kind == TokKind::Str {
            version = Some(tok_text(text, value));
        } else if tok_is(text, key, "dialect") && value.kind == TokKind::Word {
            dialect = Some(tok_text(text, value));
        } else {
            return Err(Error::new(ErrorKind::Syntax));
        }
        i = i + 3;
    }
    Ok(Stmt::QueryDef { version, dialect })
}

/// `let name = value`
fn parse_let(text: &str, toks: &Vec<Tok>, a: usize, e: usize) -> (r: Result<Stmt, Error>)
    requires
        tokens_ok(text@, toks@),
        a < e <= toks@.len(),
    ensures
        r matches Ok(s) ==> s is VarDef,
        r matches Err(x) ==> x.kind == ErrorKind::Syntax,
{
    if e - a != 4 || toks[a + 1].kind != TokKind::Word || !tok_is(text, toks[a + 2], "=") {
        return Err(Error::new(ErrorKind::Syntax));
    }
    let name = tok_text(text, toks[a + 1]);
    let value = parse_value(text, toks[a + 3])?;
    Ok(Stmt::VarDef { name, value })
}

/// `table name columns`
fn parse_table(text: &str, toks: &Vec<Tok>, a: usize, e: usize) -> (r: Result<Stmt, Error>)
    requires
        tokens_ok(text@, toks@),
        a < e <= toks@.len(),
    ensures
        r matches Ok(s) ==> s is TableDef,
        r matches Err(x) ==> x.kind == ErrorKind::Syntax,
{
    if e - a < 2 || toks[a + 1].kind != TokKind::Word {
        return Err(Error::new(ErrorKind::Syntax));
    }
    let name = tok_text(text, toks[a + 1]);
    let mut columns: Vec<String> = Vec::new();
    let mut i: usize = a + 2;
    while i < e
        invariant
            tokens_ok(text@, toks@),
            a + 2 <= i,
            e <= toks@.len(),
        decreases e - i,
    {
        if toks[i].kind != TokKind::Word {
            return Err(Error::new(ErrorKind::Syntax));
        }
        columns.push(tok_text(text, toks[i]));
        i = i + 1;
    }
    Ok(Stmt::TableDef { name, columns })
}

/// `func name params -> body`
fn parse_func(text: &str, toks: &Vec<Tok>, a: usize, e: usize) -> (r: Result<Stmt, Error>)
    requires
        tokens_ok(text@, toks@),
        a < e <= toks@.len(),
    ensures
        r matches Ok(s) ==> s is FuncDef,
        r matches Err(x) ==> x.kind == ErrorKind::Syntax,
{
    if e - a < 4 || toks[a + 1].kind != TokKind::Word || !tok_is(text, toks[e - 2], "->") {
        return Err(Error::new(ErrorKind::Syntax));
    }
    let name = tok_text(text, toks[a + 1]);
    let mut params: Vec<String> = Vec::new();
    let mut i: usize = a + 2;
    while i < e - 2
        invariant
            tokens_ok(text@, toks@),
            a + 2 <= i,
            a + 4 <= e,
            e <= toks@.len(),
        decreases e - i,
    {
        if toks[i].kind != TokKind::Word {
            return Err(Error::new(ErrorKind::Syntax));
        }
        params.push(tok_text(text, toks[i]));
        i = i + 1;
    }
    let body = parse_value(text, toks[e - 1])?;
    Ok(Stmt::FuncDef { name, params, body })
}

/// `name arg ...`, each argument optionally `alias:value`.
fn parse_step(text: &str, toks: &Vec<Tok>, a: usize, e: usize) -> (r: Result<Step, Error>)
    requires
        tokens_ok(text@, toks@),
        a < e <= toks@.len(),
    ensures
        r matches Ok(s) ==> s.name@ == text@.subrange(toks@[a as int].start as int, toks@[a as int].end as int),
        r matches Err(x) ==> x.kind == ErrorKind::Syntax,
{
    if toks[a].kind != TokKind::Word {
        return Err(Error::new(ErrorKind::Syntax));
    }
    let name = tok_text(text, toks[a]);
    let mut args: Vec<Arg> = Vec::new();
    let mut i: usize = a + 1;
    while i < e
        invariant
            tokens_ok(text@, toks@),
            a < i,
            e <= toks@.len(),
            name@ == text@.subrange(toks@[a as int].start as int, toks@[a as int].end as int),
        decreases e - i,
    {
        if i + 1 < e && toks[i + 1].kind == TokKind::Colon {
            if i + 2 >= e || toks[i].kind != TokKind::Word {
                return Err(Error::new(ErrorKind::Syntax));
            }
            let alias = tok_text(text, toks[i]);
            let expr = parse_value(text, toks[i + 2])?;
            args.push(Arg { alias: Some(alias), expr });
            i = i + 3;
        } else {
            let expr = parse_value(text, toks[i])?;
            args.push(Arg { alias: None, expr });
            i = i + 1;
        }
    }
    Ok(Step { name, args })
}

/// Parses a query text. A line `prql ...` is the header, `let`, `func` and
/// `table` lines are definitions, and other lines are pipeline steps; consecutive
/// step lines form one pipeline, which a blank line or another statement ends.
pub fn parse(text: &str) -> (r: Result<Vec<Stmt>, Error>)
    ensures
        r matches Err(x) ==> x.kind == ErrorKind::Syntax,
{
    let toks = tokenize(text)?;
    let mut out: Vec<Stmt> = Vec::new();
    let mut pipeline: Vec<Step> = Vec::new();
    let mut a: usize = 0;
    while a < toks.len()
        invariant
            tokens_ok(text@, toks@),
            a <= toks@.len(),
        decreases toks@.len() - a,
    {
        let mut e: usize = a;
        while e < toks.len() && toks[e].kind != TokKind::Newline
            invariant
                a <= e <= toks@.len(),
            decreases toks@.len() - e,
        {
            e = e + 1;
        }
        let is_step = e > a && !tok_is(text, toks[a], "prql") && !tok_is(text, toks[a], "let")
            && !tok_is(text, toks[a], "func") && !tok_is(text, toks[a], "table");
        if !is_step && pipeline.len() > 0 {
            out.push(Stmt::Pipeline(pipeline));
            pipeline = Vec::new();
        }
        if e > a {
            if tok_is(text, toks[a], "prql") {
                out.push(parse_header(text, &toks, a, e)?);
            } else if tok_is(text, toks[a], "let") {
                out.push(parse_let(text, &toks, a, e)?);
            } else if tok_is(text, toks[a], "func") {
                out.push(parse_func(text, &toks, a, e)?);
            } else if tok_is(text, toks[a], "table") {
                out.push(parse_table(text, &toks, a, e)?);
            } else {
                pipeline.push(parse_step(text, &toks, a, e)?);
            }
        }
        a = if e < toks.len() { e + 1 } else { e };
    }
    if pipeline.len() > 0 {
        out.push(Stmt::Pipeline(pipeline));
    }
    Ok(out)
}

} // verus!
