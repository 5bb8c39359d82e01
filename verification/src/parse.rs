//! Tokenizer for the configuration language.
//!
//! The input text is split into physical lines; each line yields a short run
//! of grammar-tagged text spans (tokens) that the line classifier consumes.
//! A line is one of: blank; a standalone comment; a `}` closing a category
//! (optionally followed by a trailing comment); a statement `lhs = rhs` with
//! an optional trailing comment; or a category opener `ident {`, again with
//! an optional trailing comment.  Inside a right-hand side, `##` escapes a
//! literal hash, so a comment starts only at a `#` not doubled up.

use vstd::prelude::*;

verus! {

/// The hash byte `#`.
pub const HASH: u8 = 35;
/// The equals byte `=`.
pub const EQUALS: u8 = 61;
/// The opening-brace byte `{`.
pub const OPEN_BRACE: u8 = 123;
/// The closing-brace byte `}`.
pub const CLOSE_BRACE: u8 = 125;
/// The newline byte.
pub const NEWLINE: u8 = 10;
/// The space byte.
pub const SPACE: u8 = 32;
/// The tab byte.
pub const TAB: u8 = 9;

/// The grammar rule a token was produced by.
#[derive(Clone, Copy, Debug, PartialEq, Eq, Structural)]
pub enum Rule {
    /// End of a physical line (also emitted for the last line of the file).
    Newline,
    /// The run of `#` characters opening a comment, with one following space
    /// kept as part of the marker when present.
    CommentHashes,
    /// The body of a comment, after the marker.
    CommentText,
    /// The left-hand identifier of a statement inside a category.
    BindIdent,
    /// The right-hand side of a statement inside a category.
    BindRhs,
    /// The left-hand identifier of a top-level statement.
    VariableIdent,
    /// The right-hand side of a top-level statement.
    VariableExpression,
    /// The name of a category, before its opening brace.
    CategoryIdent,
    /// The closing brace of a category.
    CategoryEnd,
}

/// The mathematical value of a [`Token`]: its rule and the text it spans.
#[verifier::ext_equal]
pub struct TokenV {
    pub rule: Rule,
    pub text: Seq<u8>,
}

/// One grammar-tagged text span.
#[derive(Debug, PartialEq, Eq)]
pub struct Token {
    pub rule: Rule,
    pub text: Vec<u8>,
}

impl View for Token {
    type V = TokenV;

    open spec fn view(&self) -> TokenV {
        TokenV { rule: self.rule, text: self.text@ }
    }
}

/// The values of a sequence of tokens.
pub open spec fn tokens_view(ts: Seq<Token>) -> Seq<TokenV> {
    ts.map_values(|t: Token| t@)
}

/// The values of a sequence of byte vectors.
pub open spec fn vecs_view(vs: Seq<Vec<u8>>) -> Seq<Seq<u8>> {
    vs.map_values(|v: Vec<u8>| v@)
}

/// Why an input text was rejected.  Every variant carries the one-based
/// number of the offending line, or the index of the offending token when
/// the classifier is handed a stream directly.
#[derive(Clone, Copy, Debug, PartialEq, Eq, Structural)]
pub enum ParseError {
    /// A line matches no rule of the grammar, a `}` closes no open category,
    /// or a category is still open at end of input.
    InvalidInput(usize),
    /// A token arrived that its predecessors do not allow, such as a
    /// right-hand side with no statement under construction.
    UnexpectedToken(usize),
    /// A category-end token arrived while no category was open.
    UnbalancedCategoryEnd(usize),
    /// Categories were nested beyond the supported depth.
    NestingTooDeep(usize),
}

/// Whether a byte is horizontal whitespace.
pub open spec fn is_ws(b: u8) -> bool {
    b == SPACE || b == TAB
}

/// First index at or after `i` holding a byte that is not horizontal
/// whitespace, or the length if none.
pub open spec fn first_non_ws_at(s: Seq<u8>, i: int) -> int
    decreases s.len() - i,
{
    if i < 0 || i >= s.len() {
        s.len() as int
    } else if !is_ws(s[i]) {
        i
    } else {
        first_non_ws_at(s, i + 1)
    }
}

/// The sequence with trailing horizontal whitespace removed.
pub open spec fn trim_end_ws_spec(s: Seq<u8>) -> Seq<u8>
    decreases s.len(),
{
    if s.len() > 0 && is_ws(s.last()) {
        trim_end_ws_spec(s.drop_last())
    } else {
        s
    }
}

/// A copy of `s` with trailing horizontal whitespace removed.
pub(crate) fn trim_end_ws_vec(s: &Vec<u8>) -> (r: Vec<u8>)
    ensures
        r@ == trim_end_ws_spec(s@),
{
    let mut j: usize = s.len();
    proof {
        assert(s@.take(j as int) =~= s@);
    }
    while j > 0 && (s[j - 1] == SPACE || s[j - 1] == TAB)
        invariant
            j <= s@.len(),
            trim_end_ws_spec(s@) == trim_end_ws_spec(s@.take(j as int)),
        decreases j,
    {
        proof {
            assert(s@.take(j as int).drop_last() =~= s@.take(j - 1));
        }
        j = j - 1;
    }
    proof {
        assert(trim_end_ws_spec(s@.take(j as int)) == s@.take(j as int));
        assert(s@.subrange(0, j as int) =~= s@.take(j as int));
    }
    copy_range(s, 0, j)
}

/// Trimming trailing whitespace leaves nothing or ends on non-whitespace.
pub proof fn lemma_trim_end_ws_last(s: Seq<u8>)
    ensures
        trim_end_ws_spec(s).len() > 0 ==> !is_ws(trim_end_ws_spec(s).last()),
    decreases s.len(),
{
    if s.len() > 0 && is_ws(s.last()) {
        lemma_trim_end_ws_last(s.drop_last());
    }
}

/// A copy of the whole byte vector.
pub(crate) fn copy_bytes(s: &Vec<u8>) -> (r: Vec<u8>)
    ensures
        r@ == s@,
{
    let r = copy_range(s, 0, s.len());
    proof {
        assert(s@.subrange(0, s@.len() as int) =~= s@);
    }
    r
}

/// First index at or after `i` holding a newline byte, or the length if none.
pub open spec fn first_nl_at(s: Seq<u8>, i: int) -> int
    decreases s.len() - i,
{
    if i < 0 || i >= s.len() {
        s.len() as int
    } else if s[i] == NEWLINE {
        i
    } else {
        first_nl_at(s, i + 1)
    }
}

/// The first newline at or after `i` lies between `i` and the length.
pub proof fn lemma_first_nl_at_bounds(s: Seq<u8>, i: int)
    requires
        0 <= i <= s.len(),
    ensures
        i <= first_nl_at(s, i) <= s.len(),
    decreases s.len() - i,
{
    if i < s.len() && s[i] != NEWLINE {
        lemma_first_nl_at_bounds(s, i + 1);
    }
}

/// First index at or after `i` holding `=`, `{` or `#`, or the length if none.
pub open spec fn first_delim_at(s: Seq<u8>, i: int) -> int
    decreases s.len() - i,
{
    if i < 0 || i >= s.len() {
        s.len() as int
    } else if s[i] == EQUALS || s[i] == OPEN_BRACE || s[i] == HASH {
        i
    } else {
        first_delim_at(s, i + 1)
    }
}

/// First index at or after `i` where a comment starts: a `#` that is not the
/// first of a doubled `##`, which escapes a literal hash.  Returns the length
/// if the rest of the line is plain content.
pub open spec fn comment_start_at(s: Seq<u8>, i: int) -> int
    decreases s.len() - i,
{
    if i < 0 || i >= s.len() {
        s.len() as int
    } else if s[i] == HASH {
        if i + 1 < s.len() && s[i + 1] == HASH {
            comment_start_at(s, i + 2)
        } else {
            i
        }
    } else {
        comment_start_at(s, i + 1)
    }
}

/// First index at or after `i` holding a byte other than `#`, or the length.
pub open spec fn hash_run_end_at(s: Seq<u8>, i: int) -> int
    decreases s.len() - i,
{
    if i < 0 || i >= s.len() {
        s.len() as int
    } else if s[i] != HASH {
        i
    } else {
        hash_run_end_at(s, i + 1)
    }
}

/// The input split at newline bytes, starting from index `i`.  The newline
/// bytes themselves belong to no line; a trailing newline yields a final
/// empty line.
pub open spec fn split_lines_from(s: Seq<u8>, i: int) -> Seq<Seq<u8>>
    recommends
        0 <= i <= s.len(),
    decreases s.len() - i,
{
    let k = first_nl_at(s, i);
    if k >= s.len() {
        seq![s.subrange(i, s.len() as int)]
    } else {
        // Reaching this branch forces `0 <= i < s.len()`: outside those
        // bounds the scan returns the length.
        proof {
            lemma_first_nl_at_bounds(s, i);
        }
        seq![s.subrange(i, k)] + split_lines_from(s, k + 1)
    }
}

/// The input split into physical lines.
pub open spec fn split_lines(s: Seq<u8>) -> Seq<Seq<u8>> {
    split_lines_from(s, 0)
}

/// The comment tokens for the part of `line` from index `c`, which must hold
/// the opening `#`: the marker is the full run of hashes plus one following
/// space when there is one, and the rest of the line is the body, emitted
/// only when non-empty.
pub open spec fn comment_tokens_at(line: Seq<u8>, c: int) -> Seq<TokenV> {
    let h = hash_run_end_at(line, c);
    let hend = if h < line.len() && line[h] == SPACE {
        h + 1
    } else {
        h
    };
    let marker = seq![TokenV { rule: Rule::CommentHashes, text: line.subrange(c, hend) }];
    if hend < line.len() {
        marker + seq![TokenV { rule: Rule::CommentText, text: line.subrange(hend, line.len() as int) }]
    } else {
        marker
    }
}

/// The end-of-line token.
pub open spec fn newline_token() -> TokenV {
    TokenV { rule: Rule::Newline, text: Seq::empty() }
}

/// The tokens of one physical line together with the nesting depth after it,
/// or the error rejecting it.  `depth` is the number of categories open
/// before the line; `lineno` is its one-based number, used in errors.
pub open spec fn line_tokens(line: Seq<u8>, depth: int, lineno: int) -> Result<
    (Seq<TokenV>, int),
    ParseError,
> {
    let b = first_non_ws_at(line, 0);
    if b >= line.len() {
        // Blank line.
        Ok((seq![newline_token()], depth))
    } else if line[b] == HASH {
        // Standalone comment line.
        Ok((comment_tokens_at(line, b) + seq![newline_token()], depth))
    } else if line[b] == CLOSE_BRACE {
        // Category close, with an optional trailing comment.
        if depth <= 0 {
            Err(ParseError::InvalidInput(lineno as usize))
        } else {
            let j = first_non_ws_at(line, b + 1);
            let end = seq![TokenV { rule: Rule::CategoryEnd, text: Seq::empty() }];
            if j >= line.len() {
                Ok((end + seq![newline_token()], depth - 1))
            } else if line[j] == HASH {
                Ok((end + comment_tokens_at(line, j) + seq![newline_token()], depth - 1))
            } else {
                Err(ParseError::InvalidInput(lineno as usize))
            }
        }
    } else {
        let d = first_delim_at(line, b);
        if d >= line.len() || d == b {
            // No `=` or `{` to build a statement or category from, or the
            // line starts with one.
            Err(ParseError::InvalidInput(lineno as usize))
        } else if line[d] == EQUALS {
            statement_tokens(line, depth, b, d)
        } else if line[d] == OPEN_BRACE {
            // Category opener, with an optional trailing comment.
            let ident = seq![TokenV { rule: Rule::CategoryIdent, text: line.subrange(b, d) }];
            let j = first_non_ws_at(line, d + 1);
            if j >= line.len() {
                Ok((ident + seq![newline_token()], depth + 1))
            } else if line[j] == HASH {
                Ok((ident + comment_tokens_at(line, j) + seq![newline_token()], depth + 1))
            } else {
                Err(ParseError::InvalidInput(lineno as usize))
            }
        } else {
            // A `#` before any `=` or `{`: not a statement, not a comment.
            Err(ParseError::InvalidInput(lineno as usize))
        }
    }
}

/// The tokens of a statement line: the identifier before the `=` at index
/// `d`, the right-hand side up to a comment start, and the trailing comment
/// when present.  Top-level statements are variable assignments; statements
/// inside a category are binds.
pub open spec fn statement_tokens(line: Seq<u8>, depth: int, b: int, d: int) -> Result<
    (Seq<TokenV>, int),
    ParseError,
> {
    let ident_rule = if depth == 0 {
        Rule::VariableIdent
    } else {
        Rule::BindIdent
    };
    let rhs_rule = if depth == 0 {
        Rule::VariableExpression
    } else {
        Rule::BindRhs
    };
    let ident = seq![TokenV { rule: ident_rule, text: line.subrange(b, d) }];
    let r0 = first_non_ws_at(line, d + 1);
    let c = comment_start_at(line, r0);
    let rhs = if c > r0 {
        seq![TokenV { rule: rhs_rule, text: line.subrange(r0, c) }]
    } else {
        Seq::<TokenV>::empty()
    };
    let comment = if c < line.len() {
        comment_tokens_at(line, c)
    } else {
        Seq::<TokenV>::empty()
    };
    Ok((ident + rhs + comment + seq![newline_token()], depth))
}

/// The tokens of the first `n` lines, folded left to right with the nesting
/// depth threaded through, or the first error.
pub open spec fn lines_tokens_upto(ls: Seq<Seq<u8>>, n: int) -> Result<
    (Seq<TokenV>, int),
    ParseError,
>
    decreases n,
{
    if n <= 0 {
        Ok((Seq::empty(), 0))
    } else {
        match lines_tokens_upto(ls, n - 1) {
            Err(e) => Err(e),
            Ok((acc, depth)) => match line_tokens(ls[n - 1], depth, n) {
                Err(e) => Err(e),
                Ok((ts, depth2)) => Ok((acc + ts, depth2)),
            },
        }
    }
}

/// The token stream of a whole input text, or the error rejecting it.  A
/// category left open at end of input is rejected with the number of the
/// last line.
pub open spec fn tokenize_spec(input: Seq<u8>) -> Result<Seq<TokenV>, ParseError> {
    let ls = split_lines(input);
    match lines_tokens_upto(ls, ls.len() as int) {
        Err(e) => Err(e),
        Ok((ts, depth)) => if depth == 0 {
            Ok(ts)
        } else {
            Err(ParseError::InvalidInput(ls.len() as usize))
        },
    }
}

/// First index at or after `from` holding a byte that is not horizontal
/// whitespace, or the length if none.
fn first_non_ws_idx(s: &Vec<u8>, from: usize) -> (r: usize)
    requires
        from <= s@.len(),
    ensures
        r == first_non_ws_at(s@, from as int),
        from <= r <= s@.len(),
{
    let mut i: usize = from;
    while i < s.len() && (s[i] == SPACE || s[i] == TAB)
        invariant
            from <= i <= s@.len(),
            first_non_ws_at(s@, from as int) == first_non_ws_at(s@, i as int),
        decreases s@.len() - i,
    {
        i = i + 1;
    }
    i
}

/// First index at or after `from` holding `=`, `{` or `#`, or the length.
fn first_delim_idx(s: &Vec<u8>, from: usize) -> (r: usize)
    requires
        from <= s@.len(),
    ensures
        r == first_delim_at(s@, from as int),
        from <= r <= s@.len(),
{
    let mut i: usize = from;
    while i < s.len() && s[i] != EQUALS && s[i] != OPEN_BRACE && s[i] != HASH
        invariant
            from <= i <= s@.len(),
            first_delim_at(s@, from as int) == first_delim_at(s@, i as int),
        decreases s@.len() - i,
    {
        i = i + 1;
    }
    i
}

/// First index at or after `from` where a comment starts, skipping doubled
/// `##` escapes, or the length.
fn comment_start_idx(s: &Vec<u8>, from: usize) -> (r: usize)
    requires
        from <= s@.len(),
    ensures
        r == comment_start_at(s@, from as int),
        from <= r <= s@.len(),
        r < s@.len() ==> s@[r as int] == HASH,
{
    let mut i: usize = from;
    loop
        invariant
            from <= i <= s@.len(),
            comment_start_at(s@, from as int) == comment_start_at(s@, i as int),
        ensures
            comment_start_at(s@, from as int) == i,
            from <= i <= s@.len(),
            i < s@.len() ==> s@[i as int] == HASH,
        decreases s@.len() - i,
    {
        if i >= s.len() {
            break;
        }
        if s[i] == HASH {
            if i + 1 < s.len() && s[i + 1] == HASH {
                i = i + 2;
            } else {
                break;
            }
        } else {
            i = i + 1;
        }
    }
    i
}

/// First index at or after `from` holding a byte other than `#`, or the
/// length.
fn hash_run_end_idx(s: &Vec<u8>, from: usize) -> (r: usize)
    requires
        from <= s@.len(),
    ensures
        r == hash_run_end_at(s@, from as int),
        from <= r <= s@.len(),
{
    let mut i: usize = from;
    while i < s.len() && s[i] == HASH
        invariant
            from <= i <= s@.len(),
            hash_run_end_at(s@, from as int) == hash_run_end_at(s@, i as int),
        decreases s@.len() - i,
    {
        i = i + 1;
    }
    i
}

/// A copy of the bytes of `s` from `a` (inclusive) to `b` (exclusive).
pub(crate) fn copy_range(s: &Vec<u8>, a: usize, b: usize) -> (r: Vec<u8>)
    requires
        a <= b <= s@.len(),
    ensures
        r@ == s@.subrange(a as int, b as int),
{
    let mut out: Vec<u8> = Vec::new();
    let mut i: usize = a;
    while i < b
        invariant
            a <= i <= b <= s@.len(),
            out@ == s@.subrange(a as int, i as int),
        decreases b - i,
    {
        out.push(s[i]);
        proof {
            assert(out@ =~= s@.subrange(a as int, (i + 1) as int));
        }
        i = i + 1;
    }
    out
}

/// Push the comment tokens for the part of `line` starting at `c`, which
/// must hold the opening `#`.
fn push_comment_tokens(out: &mut Vec<Token>, line: &Vec<u8>, c: usize)
    requires
        c < line@.len(),
        line@[c as int] == HASH,
    ensures
        tokens_view(final(out)@) == tokens_view(old(out)@) + comment_tokens_at(line@, c as int),
{
    let h = hash_run_end_idx(line, c);
    let hend: usize = if h < line.len() && line[h] == SPACE {
        h + 1
    } else {
        h
    };
    let marker = copy_range(line, c, hend);
    out.push(Token { rule: Rule::CommentHashes, text: marker });
    if hend < line.len() {
        let body = copy_range(line, hend, line.len());
        out.push(Token { rule: Rule::CommentText, text: body });
    }
    proof {
        assert(tokens_view(out@) =~~= tokens_view(old(out)@) + comment_tokens_at(
            line@,
            c as int,
        ));
    }
}

/// Tokenize one physical line, given the nesting depth before it and its
/// one-based number; returns the line's tokens and the depth after it.
fn tokenize_line(line: &Vec<u8>, depth: usize, lineno: usize) -> (r: Result<
    (Vec<Token>, usize),
    ParseError,
>)
    requires
        depth < usize::MAX,
    ensures
        match r {
            Ok(p) => line_tokens(line@, depth as int, lineno as int) == Ok::<_, ParseError>(
                (tokens_view(p.0@), p.1 as int),
            ) && p.1 <= depth + 1,
            Err(e) => line_tokens(line@, depth as int, lineno as int) == Err::<
                (Seq<TokenV>, int),
                ParseError,
            >(e),
        },
{
    let mut out: Vec<Token> = Vec::new();
    let b = first_non_ws_idx(line, 0);
    if b >= line.len() {
        out.push(Token { rule: Rule::Newline, text: Vec::new() });
        proof {
            assert(tokens_view(out@) =~~= seq![newline_token()]);
        }
        return Ok((out, depth));
    }
    if line[b] == HASH {
        push_comment_tokens(&mut out, line, b);
        out.push(Token { rule: Rule::Newline, text: Vec::new() });
        proof {
            assert(tokens_view(out@) =~~= comment_tokens_at(line@, b as int) + seq![
                newline_token(),
            ]);
        }
        return Ok((out, depth));
    }
    if line[b] == CLOSE_BRACE {
        if depth == 0 {
            return Err(ParseError::InvalidInput(lineno));
        }
        out.push(Token { rule: Rule::CategoryEnd, text: Vec::new() });
        let ghost out1 = out@;
        let j = first_non_ws_idx(line, b + 1);
        if j >= line.len() {
            out.push(Token { rule: Rule::Newline, text: Vec::new() });
            proof {
                assert(tokens_view(out@) =~~= seq![
                    TokenV { rule: Rule::CategoryEnd, text: Seq::empty() },
                ] + seq![newline_token()]);
            }
            return Ok((out, depth - 1));
        }
        if line[j] == HASH {
            push_comment_tokens(&mut out, line, j);
            let ghost out2 = out@;
            out.push(Token { rule: Rule::Newline, text: Vec::new() });
            proof {
                assert(tokens_view(out1) =~~= seq![
                    TokenV { rule: Rule::CategoryEnd, text: Seq::empty() },
                ]);
                assert(tokens_view(out@) =~~= tokens_view(out2).push(newline_token()));
                assert(tokens_view(out@) =~~= seq![
                    TokenV { rule: Rule::CategoryEnd, text: Seq::empty() },
                ] + comment_tokens_at(line@, j as int) + seq![newline_token()]);
            }
            return Ok((out, depth - 1));
        }
        return Err(ParseError::InvalidInput(lineno));
    }
    let d = first_delim_idx(line, b);
    if d >= line.len() || d == b {
        return Err(ParseError::InvalidInput(lineno));
    }
    if line[d] == EQUALS {
        let ident_rule = if depth == 0 {
            Rule::VariableIdent
        } else {
            Rule::BindIdent
        };
        let rhs_rule = if depth == 0 {
            Rule::VariableExpression
        } else {
            Rule::BindRhs
        };
        let ident = copy_range(line, b, d);
        out.push(Token { rule: ident_rule, text: ident });
        let ghost identv = seq![
            TokenV { rule: ident_rule, text: line@.subrange(b as int, d as int) },
        ];
        let r0 = first_non_ws_idx(line, d + 1);
        let c = comment_start_idx(line, r0);
        let ghost rhsv = if c > r0 {
            seq![TokenV { rule: rhs_rule, text: line@.subrange(r0 as int, c as int) }]
        } else {
            Seq::<TokenV>::empty()
        };
        if c > r0 {
            let rhs = copy_range(line, r0, c);
            out.push(Token { rule: rhs_rule, text: rhs });
        }
        proof {
            assert(tokens_view(out@) =~~= identv + rhsv);
        }
        let ghost out2 = out@;
        let ghost commentv = if c < line@.len() {
            comment_tokens_at(line@, c as int)
        } else {
            Seq::<TokenV>::empty()
        };
        if c < line.len() {
            push_comment_tokens(&mut out, line, c);
        }
        proof {
            assert(tokens_view(out@) =~~= identv + rhsv + commentv);
        }
        let ghost out3 = out@;
        out.push(Token { rule: Rule::Newline, text: Vec::new() });
        proof {
            assert(tokens_view(out@) =~~= tokens_view(out3).push(newline_token()));
            assert(tokens_view(out@) =~~= identv + rhsv + commentv + seq![newline_token()]);
        }
        return Ok((out, depth));
    }
    if line[d] == OPEN_BRACE {
        let ident = copy_range(line, b, d);
        out.push(Token { rule: Rule::CategoryIdent, text: ident });
        let j = first_non_ws_idx(line, d + 1);
        if j >= line.len() {
            out.push(Token { rule: Rule::Newline, text: Vec::new() });
            proof {
                assert(tokens_view(out@) =~~= seq![
                    TokenV { rule: Rule::CategoryIdent, text: line@.subrange(b as int, d as int) },
                ] + seq![newline_token()]);
            }
            return Ok((out, depth + 1));
        }
        if line[j] == HASH {
            let ghost out1 = out@;
            push_comment_tokens(&mut out, line, j);
            let ghost out2 = out@;
            out.push(Token { rule: Rule::Newline, text: Vec::new() });
            proof {
                assert(tokens_view(out1) =~~= seq![
                    TokenV { rule: Rule::CategoryIdent, text: line@.subrange(b as int, d as int) },
                ]);
                assert(tokens_view(out@) =~~= tokens_view(out2).push(newline_token()));
                assert(tokens_view(out@) =~~= seq![
                    TokenV { rule: Rule::CategoryIdent, text: line@.subrange(b as int, d as int) },
                ] + comment_tokens_at(line@, j as int) + seq![newline_token()]);
            }
            return Ok((out, depth + 1));
        }
        return Err(ParseError::InvalidInput(lineno));
    }
    Err(ParseError::InvalidInput(lineno))
}

/// Split the input into its physical lines.
fn split_input_lines(file: &Vec<u8>) -> (r: Vec<Vec<u8>>)
    ensures
        vecs_view(r@) == split_lines(file@),
        r@.len() >= 1,
{
    let mut out: Vec<Vec<u8>> = Vec::new();
    let mut pos: usize = 0;
    loop
        invariant_except_break
            vecs_view(out@) + split_lines_from(file@, pos as int) =~= split_lines(file@),
        invariant
            pos <= file@.len(),
        ensures
            vecs_view(out@) =~= split_lines(file@),
            out@.len() >= 1,
        decreases file@.len() - pos + 1,
    {
        let mut k: usize = pos;
        while k < file.len() && file[k] != NEWLINE
            invariant
                pos <= k <= file@.len(),
                first_nl_at(file@, pos as int) == first_nl_at(file@, k as int),
            decreases file@.len() - k,
        {
            k = k + 1;
        }
        let ghost prev = out@;
        let segment = copy_range(file, pos, k);
        out.push(segment);
        proof {
            assert(vecs_view(out@) =~= vecs_view(prev).push(file@.subrange(
                pos as int,
                k as int,
            )));
        }
        if k >= file.len() {
            proof {
                assert(first_nl_at(file@, pos as int) == file@.len());
                assert(vecs_view(out@) =~= split_lines(file@));
            }
            break;
        }
        proof {
            assert(first_nl_at(file@, pos as int) == k);
            assert(split_lines_from(file@, pos as int) == seq![
                file@.subrange(pos as int, k as int),
            ] + split_lines_from(file@, k + 1));
            assert(vecs_view(out@) + split_lines_from(file@, k + 1) =~= split_lines(file@));
        }
        pos = k + 1;
    }
    out
}

/// Once the fold over the lines has failed, taking more lines leaves the
/// same error in place.
proof fn lemma_lines_tokens_upto_err(ls: Seq<Seq<u8>>, m: int, n: int)
    requires
        0 <= m <= n,
        lines_tokens_upto(ls, m) is Err,
    ensures
        lines_tokens_upto(ls, n) == lines_tokens_upto(ls, m),
    decreases n - m,
{
    if n > m {
        lemma_lines_tokens_upto_err(ls, m, n - 1);
    }
}

/// Tokenize a whole input text.
///
/// On success the stream is exactly [`tokenize_spec`] of the input; on
/// failure the error is the one that specification gives.
pub fn get_file_tokens(file: &Vec<u8>) -> (r: Result<Vec<Token>, ParseError>)
    ensures
        match r {
            Ok(ts) => tokenize_spec(file@) == Ok::<_, ParseError>(tokens_view(ts@)),
            Err(e) => tokenize_spec(file@) == Err::<Seq<TokenV>, ParseError>(e),
        },
{
    let lines = split_input_lines(file);
    let ghost lsv = split_lines(file@);
    let mut out: Vec<Token> = Vec::new();
    let mut depth: usize = 0;
    let mut i: usize = 0;
    proof {
        assert(tokens_view(out@) =~= Seq::<TokenV>::empty());
    }
    while i < lines.len()
        invariant
            i <= lines@.len(),
            depth <= i,
            lsv == split_lines(file@),
            vecs_view(lines@) == lsv,
            lines_tokens_upto(lsv, i as int) == Ok::<_, ParseError>(
                (tokens_view(out@), depth as int),
            ),
        decreases lines@.len() - i,
    {
        proof {
            assert(lines@[i as int]@ == lsv[i as int]);
        }
        match tokenize_line(&lines[i], depth, i + 1) {
            Ok(p) => {
                let (mut ts, depth2) = p;
                let ghost old_out = out@;
                let ghost tsv = tokens_view(ts@);
                out.append(&mut ts);
                proof {
                    assert(tokens_view(out@) =~~= tokens_view(old_out) + tsv);
                    assert(lines_tokens_upto(lsv, i + 1) == Ok::<_, ParseError>(
                        (tokens_view(out@), depth2 as int),
                    ));
                }
                depth = depth2;
            },
            Err(e) => {
                proof {
                    assert(vecs_view(lines@).len() == lines@.len());
                    assert(lines_tokens_upto(lsv, i + 1) == Err::<
                        (Seq<TokenV>, int),
                        ParseError,
                    >(e));
                    lemma_lines_tokens_upto_err(lsv, i + 1, lsv.len() as int);
                    assert(lines_tokens_upto(lsv, lsv.len() as int) == Err::<
                        (Seq<TokenV>, int),
                        ParseError,
                    >(e));
                    assert(tokenize_spec(file@) == Err::<Seq<TokenV>, ParseError>(e));
                }
                return Err(e);
            },
        }
        i = i + 1;
    }
    if depth != 0 {
        return Err(ParseError::InvalidInput(lines.len()));
    }
    Ok(out)
}

} // verus!
