//! Front end of the pysub compiler: indentation normalization.
//!
//! Indentation-sensitive pysub source is rewritten into a brace-delimited form:
//! a deeper line opens a block with a `{` line, a shallower line closes blocks
//! with `}` lines, and the end of the source closes every block still open.

use vstd::prelude::*;
use crate::text::{
    from_chars, lines, spec_lines, spec_trim_end, trim_end,
    contains_char, push_char,
};

verus! {

/// Errors produced while normalizing indentation.
#[derive(Debug, PartialEq, Eq, Structural)]
pub enum IndentationError {
    TabsNotAllowed { line: usize },
    InvalidWidth { line: usize },
    UnexpectedIndent { line: usize, expected: usize, found: usize },
    MismatchedDedent { line: usize, indent: usize },
    ExpectedIndent { line: usize },
}

impl IndentationError {
    /// The message of the error.
    pub open spec fn spec_text(self) -> Seq<char> {
        match self {
            IndentationError::TabsNotAllowed { line } => "line "@ + crate::text::spec_decimal(line as nat) + ": tabs are not permitted in indentation"@,
            IndentationError::InvalidWidth { line } => "line "@ + crate::text::spec_decimal(line as nat) + ": indentation must be a multiple of 4 spaces"@,
            IndentationError::UnexpectedIndent { line, expected, found } => "line "@ + crate::text::spec_decimal(line as nat) + ": indentation increased by more than one level (expected "@ + crate::text::spec_decimal(expected as nat) + ", found "@ + crate::text::spec_decimal(found as nat) + ")"@,
            IndentationError::MismatchedDedent { line, .. } => "line "@ + crate::text::spec_decimal(line as nat) + ": indentation level does not match any previous level"@,
            IndentationError::ExpectedIndent { line } => "line "@ + crate::text::spec_decimal(line as nat) + ": block statement requires an indented body"@,
        }
    }

    /// The message of the error, as its `Display` shows it.
    pub fn text(&self) -> (r: String)
        ensures
            r@ == self.spec_text(),
    {
        match self {
            IndentationError::TabsNotAllowed { line } => {
                let p1s = from_chars(crate::text::decimal(*line).as_slice());
                let p1 = p1s.as_str();
                let parts = ["line ", p1, ": tabs are not permitted in indentation"];
                assert(parts@ == seq!["line ", p1, ": tabs are not permitted in indentation"]);
                proof {
                    reveal_with_fuel(crate::text::spec_concat, 4);
                }
                crate::text::message(&parts)
            },
            IndentationError::InvalidWidth { line } => {
                let p1s = from_chars(crate::text::decimal(*line).as_slice());
                let p1 = p1s.as_str();
                let parts = ["line ", p1, ": indentation must be a multiple of 4 spaces"];
                assert(parts@ == seq!["line ", p1, ": indentation must be a multiple of 4 spaces"]);
                proof {
                    reveal_with_fuel(crate::text::spec_concat, 4);
                }
                crate::text::message(&parts)
            },
            IndentationError::UnexpectedIndent { line, expected, found } => {
                let p1s = from_chars(crate::text::decimal(*line).as_slice());
                let p1 = p1s.as_str();
                let p3s = from_chars(crate::text::decimal(*expected).as_slice());
                let p3 = p3s.as_str();
                let p5s = from_chars(crate::text::decimal(*found).as_slice());
                let p5 = p5s.as_str();
                let parts = ["line ", p1, ": indentation increased by more than one level (expected ", p3, ", found ", p5, ")"];
                assert(parts@ == seq!["line ", p1, ": indentation increased by more than one level (expected ", p3, ", found ", p5, ")"]);
                proof {
                    reveal_with_fuel(crate::text::spec_concat, 8);
                }
                crate::text::message(&parts)
            },
            IndentationError::MismatchedDedent { line, .. } => {
                let p1s = from_chars(crate::text::decimal(*line).as_slice());
                let p1 = p1s.as_str();
                let parts = ["line ", p1, ": indentation level does not match any previous level"];
                assert(parts@ == seq!["line ", p1, ": indentation level does not match any previous level"]);
                proof {
                    reveal_with_fuel(crate::text::spec_concat, 4);
                }
                crate::text::message(&parts)
            },
            IndentationError::ExpectedIndent { line } => {
                let p1s = from_chars(crate::text::decimal(*line).as_slice());
                let p1 = p1s.as_str();
                let parts = ["line ", p1, ": block statement requires an indented body"];
                assert(parts@ == seq!["line ", p1, ": block statement requires an indented body"]);
                proof {
                    reveal_with_fuel(crate::text::spec_concat, 4);
                }
                crate::text::message(&parts)
            },
        }
    }
}

/// Errors of the front end.
#[derive(Debug)]
pub enum ParseError {
    Indentation(IndentationError),
    Syntax(String),
}

impl ParseError {
    /// The message of the error.
    pub open spec fn spec_text(self) -> Seq<char> {
        match self {
            ParseError::Indentation(e) => e.spec_text(),
            ParseError::Syntax(s) => "syntax error: "@ + s@,
        }
    }

    /// The message of the error, as its `Display` shows it.
    pub fn text(&self) -> (r: String)
        ensures
            r@ == self.spec_text(),
    {
        match self {
            ParseError::Indentation(e) => {
                let p0s = e.text();
                let p0 = p0s.as_str();
                let parts = [p0];
                assert(parts@ == seq![p0]);
                proof {
                    reveal_with_fuel(crate::text::spec_concat, 2);
                }
                crate::text::message(&parts)
            },
            ParseError::Syntax(s) => {
                let p1 = s.as_str();
                let parts = ["syntax error: ", p1];
                assert(parts@ == seq!["syntax error: ", p1]);
                proof {
                    reveal_with_fuel(crate::text::spec_concat, 3);
                }
                crate::text::message(&parts)
            },
        }
    }
}

/// A parsed source: its brace-delimited normalized form.
#[derive(Debug)]
pub struct ParsedProgram {
    normalized: String,
}

impl ParsedProgram {
    /// The normalized text.
    pub closed spec fn spec_normalized(&self) -> Seq<char> {
        self.normalized@
    }

    /// Returns the normalized (brace-delimited) source.
    pub fn normalized_source(&self) -> (r: &str)
        ensures
            r@ == self.spec_normalized(),
    {
        self.normalized.as_str()
    }
}

/// The state of normalization between lines: how many blocks are open, whether the last
/// code line opened a block (ended in `:`), and the text produced so far.
pub ghost struct NormState {
    pub depth: nat,
    pub expect: bool,
    pub out: Seq<char>,
}

/// `n` closing lines, `}` and a newline each.
pub open spec fn spec_closes(n: nat) -> Seq<char>
    decreases n,
{
    if n == 0 {
        Seq::empty()
    } else {
        spec_closes((n - 1) as nat) + seq!['}', '\n']
    }
}

/// The number of leading spaces.
pub open spec fn spec_leading_spaces(s: Seq<char>) -> nat
    decreases s.len(),
{
    if s.len() > 0 && s[0] == ' ' {
        1 + spec_leading_spaces(s.drop_first())
    } else {
        0
    }
}

/// One line of normalization; `no` is the line's one-based number.
pub open spec fn spec_norm_line(st: NormState, line: Seq<char>, no: nat) -> Result<NormState, IndentationError> {
    let t = spec_trim_end(line);
    if t.len() == 0 {
        Ok(NormState { out: st.out.push('\n'), ..st })
    } else if t.contains('\t') {
        Err(IndentationError::TabsNotAllowed { line: no as usize })
    } else {
        let lead = spec_leading_spaces(t);
        let content = t.subrange(lead as int, t.len() as int);
        if content.len() > 0 && content[0] == '#' {
            Ok(NormState { out: st.out + content + seq!['\n'], ..st })
        } else if lead % 4 != 0 {
            Err(IndentationError::InvalidWidth { line: no as usize })
        } else {
            let level = lead / 4;
            if st.expect && level <= st.depth {
                Err(IndentationError::ExpectedIndent { line: no as usize })
            } else if level > st.depth && level != st.depth + 1 {
                Err(IndentationError::UnexpectedIndent {
                    line: no as usize,
                    expected: (st.depth + 1) as usize,
                    found: level as usize,
                })
            } else {
                let opened = if level > st.depth {
                    st.out + seq!['{', '\n']
                } else {
                    st.out + spec_closes((st.depth - level) as nat)
                };
                Ok(NormState {
                    depth: level,
                    expect: content.len() > 0 && content.last() == ':',
                    out: opened + content + seq!['\n'],
                })
            }
        }
    }
}

/// Normalization of the lines, one after another, from the empty state.
pub open spec fn spec_norm_lines(ls: Seq<Seq<char>>) -> Result<NormState, IndentationError>
    decreases ls.len(),
{
    if ls.len() == 0 {
        Ok(NormState { depth: 0, expect: false, out: Seq::empty() })
    } else {
        match spec_norm_lines(ls.drop_last()) {
            Ok(st) => spec_norm_line(st, ls.last(), ls.len()),
            Err(e) => Err(e),
        }
    }
}

/// The normalized form of a source, or the first indentation error: after the last line,
/// a block still waiting for its body is an error at the last line (at least line 1), and
/// every open block is closed.
pub open spec fn spec_normalize(source: Seq<char>) -> Result<Seq<char>, IndentationError> {
    let ls = spec_lines(source);
    match spec_norm_lines(ls) {
        Ok(st) => if st.expect {
            Err(IndentationError::ExpectedIndent { line: if ls.len() == 0 { 1 } else { ls.len() as usize } })
        } else {
            Ok(st.out + spec_closes(st.depth))
        },
        Err(e) => Err(e),
    }
}

/// One more line of normalization.
proof fn lemma_norm_step(lv: Seq<Seq<char>>, i: int)
    requires
        0 <= i < lv.len(),
    ensures
        spec_norm_lines(lv.subrange(0, i + 1)) == match spec_norm_lines(lv.subrange(0, i)) {
            Ok(st) => spec_norm_line(st, lv[i], (i + 1) as nat),
            Err(e) => Err(e),
        },
{
    assert(lv.subrange(0, i + 1).drop_last() == lv.subrange(0, i));
    assert(lv.subrange(0, i + 1).last() == lv[i]);
}

/// An error on some prefix of the lines is the error of all of them.
proof fn lemma_norm_err(lv: Seq<Seq<char>>, k: int, e: IndentationError)
    requires
        0 <= k <= lv.len(),
        spec_norm_lines(lv.subrange(0, k)) == Err::<NormState, IndentationError>(e),
    ensures
        spec_norm_lines(lv) == Err::<NormState, IndentationError>(e),
    decreases lv.len() - k,
{
    if k < lv.len() {
        lemma_norm_step(lv, k);
        lemma_norm_err(lv, k + 1, e);
    } else {
        assert(lv.subrange(0, k) == lv);
    }
}

/// Appends characters to a string.
fn push_chars(s: &mut String, cs: &[char])
    ensures
        final(s)@ == old(s)@ + cs@,
{
    let mut i: usize = 0;
    while i < cs.len()
        invariant
            i <= cs@.len(),
            s@ == old(s)@ + cs@.subrange(0, i as int),
        decreases cs@.len() - i,
    {
        push_char(s, cs[i]);
        i = i + 1;
        assert(s@ == old(s)@ + cs@.subrange(0, i as int));
    }
    assert(cs@.subrange(0, cs@.len() as int) == cs@);
}

/// The number of leading spaces of `s`.
fn leading_spaces(s: &[char]) -> (r: usize)
    ensures
        r == spec_leading_spaces(s@),
        r <= s@.len(),
{
    let mut i: usize = 0;
    assert(s@.subrange(0, s@.len() as int) == s@);
    while i < s.len() && s[i] == ' '
        invariant
            i <= s@.len(),
            spec_leading_spaces(s@) == i + spec_leading_spaces(s@.subrange(i as int, s@.len() as int)),
        decreases s@.len() - i,
    {
        assert(s@.subrange(i as int, s@.len() as int).drop_first() == s@.subrange(i + 1, s@.len() as int));
        i = i + 1;
    }
    assert(s@ == s@.subrange(0, s@.len() as int));
    i
}

/// Appends `n` closing lines.
fn push_closes(s: &mut String, n: usize)
    ensures
        final(s)@ == old(s)@ + spec_closes(n as nat),
{
    let mut k: usize = 0;
    while k < n
        invariant
            k <= n,
            s@ == old(s)@ + spec_closes(k as nat),
        decreases n - k,
    {
        push_char(s, '}');
        push_char(s, '\n');
        k = k + 1;
        assert(spec_closes(k as nat) == spec_closes((k - 1) as nat) + seq!['}', '\n']);
    }
}

/// Normalizes indentation-based blocks into explicit brace-delimited blocks so that the
/// grammar can remain context-free.
pub fn normalize_indentation(source: &str) -> (r: Result<String, IndentationError>)
    ensures
        match spec_normalize(source@) {
            Ok(s) => r matches Ok(v) && v@ == s,
            Err(e) => r == Err::<String, IndentationError>(e),
        },
{
    let chars = crate::text::to_chars(source);
    let ls = lines(chars.as_slice());
    let ghost lv = ls@.map_values(|l: Vec<char>| l@);
    assert(lv == spec_lines(source@));
    let mut result = String::new();
    let mut depth: usize = 0;
    let mut expect = false;
    let mut i: usize = 0;
    assert(lv.subrange(0, 0) == Seq::<Seq<char>>::empty());
    while i < ls.len()
        invariant
            i <= ls@.len(),
            lv == ls@.map_values(|l: Vec<char>| l@),
            lv == spec_lines(source@),
            depth <= i,
            spec_norm_lines(lv.subrange(0, i as int)) == Ok::<NormState, IndentationError>(
                NormState { depth: depth as nat, expect, out: result@ },
            ),
        decreases ls@.len() - i,
    {
        let ghost st = NormState { depth: depth as nat, expect, out: result@ };
        let ghost line = lv[i as int];
        proof {
            lemma_norm_step(lv, i as int);
            assert(ls@[i as int]@ == line);
        }
        let no = i + 1;
        let t = trim_end(ls[i].as_slice());
        if t.len() == 0 {
            push_char(&mut result, '\n');
            i = i + 1;
            continue;
        }
        if contains_char(t.as_slice(), '\t') {
            proof {
                lemma_norm_err(lv, i + 1, IndentationError::TabsNotAllowed { line: no });
            }
            return Err(IndentationError::TabsNotAllowed { line: no });
        }
        let lead = leading_spaces(t.as_slice());
        let content = crate::text::copy_range(t.as_slice(), lead, t.len());
        if content.len() > 0 && content[0] == '#' {
            push_chars(&mut result, content.as_slice());
            push_char(&mut result, '\n');
            assert(result@ =~= st.out + content@ + seq!['\n']);
            i = i + 1;
            continue;
        }
        if lead % 4 != 0 {
            proof {
                lemma_norm_err(lv, i + 1, IndentationError::InvalidWidth { line: no });
            }
            return Err(IndentationError::InvalidWidth { line: no });
        }
        let level = lead / 4;
        if expect && level <= depth {
            proof {
                lemma_norm_err(lv, i + 1, IndentationError::ExpectedIndent { line: no });
            }
            return Err(IndentationError::ExpectedIndent { line: no });
        }
        if level > depth {
            if level != depth + 1 {
                proof {
                    lemma_norm_err(lv, i + 1, IndentationError::UnexpectedIndent { line: no, expected: (depth + 1) as usize, found: level });
                }
                return Err(IndentationError::UnexpectedIndent { line: no, expected: depth + 1, found: level });
            }
            push_char(&mut result, '{');
            push_char(&mut result, '\n');
            assert(result@ =~= st.out + seq!['{', '\n']);
        } else {
            push_closes(&mut result, depth - level);
        }
        let ghost opened = result@;
        assert(opened == if level > depth {
            st.out + seq!['{', '\n']
        } else {
            st.out + spec_closes((depth - level) as nat)
        });
        depth = level;
        expect = content.len() > 0 && content[content.len() - 1] == ':';
        push_chars(&mut result, content.as_slice());
        push_char(&mut result, '\n');
        assert(result@ =~= opened + content@ + seq!['\n']);
        i = i + 1;
    }
    assert(lv.subrange(0, ls@.len() as int) == lv);
    if expect {
        let n = if ls.len() == 0 { 1 } else { ls.len() };
        return Err(IndentationError::ExpectedIndent { line: n });
    }
    push_closes(&mut result, depth);
    Ok(result)
}

/// Parses the provided source code: normalizes its indentation, checks that the normalized
/// text reads as a program of contracts and functions, and keeps the normalized text.
pub fn parse_program(source: &str) -> (r: Result<ParsedProgram, ParseError>)
    ensures
        match spec_normalize(source@) {
            Ok(s) => match crate::ast::spec_build_program(s) {
                Some(_) => r matches Ok(p) && p.spec_normalized() == s,
                None => r matches Err(ParseError::Syntax(_)),
            },
            Err(e) => r matches Err(ParseError::Indentation(x)) && x == e,
        },
{
    match normalize_indentation(source) {
        Ok(normalized) => {
            let parsed = ParsedProgram { normalized };
            match crate::ast::build_program(&parsed) {
                Ok(_) => Ok(parsed),
                Err(e) => Err(ParseError::Syntax(e.text())),
            }
        },
        Err(e) => Err(ParseError::Indentation(e)),
    }
}

} // verus!
