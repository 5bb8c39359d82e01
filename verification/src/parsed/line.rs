//! Line classification: the token stream becomes an ordered sequence of
//! typed line records carrying nesting depth, category and block identifiers
//! and the text fragments of each line.
//!
//! Classification runs in one forward pass.  A pending record is filled as a
//! line's tokens arrive and is committed when the line's newline token
//! arrives, subject to two shaping rules: runs of more than two blank lines
//! collapse, and no blank line survives directly after a category opener.
//! Synthetic blank lines are inserted after a category close and before a
//! category opener that directly follows a statement.  A second pass trims
//! trailing blank lines and assigns block identifiers to contiguous runs of
//! groupable lines.

use vstd::prelude::*;

use crate::parse::trim_end_ws_spec;
use crate::parse::trim_end_ws_vec;
use crate::parse::copy_bytes;
use crate::parse::comment_tokens_at;
use crate::parse::first_delim_at;
use crate::parse::first_non_ws_at;
use crate::parse::line_tokens;
use crate::parse::lines_tokens_upto;
use crate::parse::split_lines;
use crate::parse::tokenize_spec;
use crate::parse::ParseError;
use crate::parse::Rule;
use crate::parse::Token;
use crate::parse::TokenV;
use crate::parse::tokens_view;
use crate::parse::SPACE;
use crate::parse::CLOSE_BRACE;
use crate::parse::HASH;
use crate::parse::EQUALS;
use crate::parse::OPEN_BRACE;

verus! {

/// The mathematical value of a [`LineInfo`].
#[verifier::ext_equal]
pub struct RecV {
    pub category_id: Option<int>,
    pub comment_hashes: Option<Seq<u8>>,
    pub comment_text: Option<Seq<u8>>,
    pub group_id: Option<int>,
    pub indent: int,
    pub lhs: Seq<u8>,
    pub rhs: Option<Seq<u8>>,
}

/// The mathematical value of a [`Line`].
#[verifier::ext_equal]
pub enum LineV {
    Newline,
    Comment(RecV),
    Sectioned(RecV),
    CategoryStart(RecV),
    CategoryEnd(RecV),
}

impl LineV {
    /// The record of a non-blank line.
    pub open spec fn rec(self) -> RecV
        recommends
            !(self is Newline),
    {
        match self {
            LineV::Newline => arbitrary(),
            LineV::Comment(r) => r,
            LineV::Sectioned(r) => r,
            LineV::CategoryStart(r) => r,
            LineV::CategoryEnd(r) => r,
        }
    }
}

/// The metadata and text fragments of one non-blank line.  `None` in the
/// identifier fields means the line belongs to no category or block scope.
#[derive(Debug, PartialEq)]
pub struct LineInfo {
    /// Identifier shared by a top-level category and its descendants.
    pub category_id: Option<usize>,
    /// The comment marker (`#` run, possibly with one trailing space).
    pub comment_hashes: Option<Vec<u8>>,
    /// The comment body after the marker.
    pub comment_text: Option<Vec<u8>>,
    /// Identifier of the contiguous run of groupable lines.
    pub group_id: Option<usize>,
    /// Nesting depth of the line.
    pub indent: u8,
    /// Left-hand text: an identifier, a category name, a `}`, or the marker
    /// of a standalone comment.
    pub lhs: Vec<u8>,
    /// Right-hand expression of a statement, when present.
    pub rhs: Option<Vec<u8>>,
}

impl View for LineInfo {
    type V = RecV;

    open spec fn view(&self) -> RecV {
        RecV {
            category_id: match self.category_id {
                Some(c) => Some(c as int),
                None => None,
            },
            comment_hashes: match self.comment_hashes {
                Some(h) => Some(h@),
                None => None,
            },
            comment_text: match self.comment_text {
                Some(t) => Some(t@),
                None => None,
            },
            group_id: match self.group_id {
                Some(g) => Some(g as int),
                None => None,
            },
            indent: self.indent as int,
            lhs: self.lhs@,
            rhs: match self.rhs {
                Some(r) => Some(r@),
                None => None,
            },
        }
    }
}

/// One classified line: blank, a standalone comment, a statement, or the
/// opening or closing line of a category.
#[derive(Debug, PartialEq)]
pub enum Line {
    Newline,
    Comment(LineInfo),
    Sectioned(LineInfo),
    CategoryStart(LineInfo),
    CategoryEnd(LineInfo),
}

impl View for Line {
    type V = LineV;

    open spec fn view(&self) -> LineV {
        match self {
            Line::Newline => LineV::Newline,
            Line::Comment(info) => LineV::Comment(info@),
            Line::Sectioned(info) => LineV::Sectioned(info@),
            Line::CategoryStart(info) => LineV::CategoryStart(info@),
            Line::CategoryEnd(info) => LineV::CategoryEnd(info@),
        }
    }
}

/// The values of a sequence of lines.
pub open spec fn lines_view(ls: Seq<Line>) -> Seq<LineV> {
    ls.map_values(|l: Line| l@)
}

/// A line that takes part in block grouping: a statement or a standalone
/// comment.
pub open spec fn is_groupable(l: LineV) -> bool {
    l is Sectioned || l is Comment
}

/// The record of a standalone comment: the marker text is its left-hand
/// side, and a top-level comment belongs to no category scope.
pub open spec fn comment_rec(category_id: int, indent: int, text: Seq<u8>) -> RecV {
    RecV {
        category_id: if indent == 0 {
            None
        } else {
            Some(category_id)
        },
        comment_hashes: None,
        comment_text: None,
        group_id: None,
        indent,
        lhs: text,
        rhs: None,
    }
}

/// The record of a top-level assignment statement.
pub open spec fn assignment_rec(lhs: Seq<u8>) -> RecV {
    RecV {
        category_id: None,
        comment_hashes: None,
        comment_text: None,
        group_id: None,
        indent: 0,
        lhs,
        rhs: None,
    }
}

/// The record of a bind statement; at depth zero it belongs to no category
/// scope.
pub open spec fn bind_rec(category_id: int, indent: int, lhs: Seq<u8>) -> RecV {
    RecV {
        category_id: if indent == 0 {
            None
        } else {
            Some(category_id)
        },
        comment_hashes: None,
        comment_text: None,
        group_id: None,
        indent,
        lhs,
        rhs: None,
    }
}

/// The record of a category opener.
pub open spec fn category_start_rec(category_id: int, indent: int, ident: Seq<u8>) -> RecV {
    RecV {
        category_id: Some(category_id),
        comment_hashes: None,
        comment_text: None,
        group_id: None,
        indent,
        lhs: ident,
        rhs: None,
    }
}

/// The record of a category closer; its left-hand text is the brace itself.
pub open spec fn category_end_rec(category_id: int, indent: int) -> RecV {
    RecV {
        category_id: Some(category_id),
        comment_hashes: None,
        comment_text: None,
        group_id: None,
        indent,
        lhs: seq![CLOSE_BRACE],
        rhs: None,
    }
}

/// Whether every byte of `s` is a space.
pub open spec fn all_spaces(s: Seq<u8>) -> bool {
    forall|i: int| 0 <= i < s.len() ==> s[i] == SPACE
}

impl Line {
    /// A standalone comment line; `text` is its comment marker.
    pub fn comment(category_id: usize, indent: u8, text: Vec<u8>) -> (r: Self)
        ensures
            r@ == LineV::Comment(comment_rec(category_id as int, indent as int, text@)),
    {
        Line::Comment(LineInfo {
            group_id: None,
            category_id: if indent == 0 {
                None
            } else {
                Some(category_id)
            },
            indent,
            lhs: text,
            rhs: None,
            comment_hashes: None,
            comment_text: None,
        })
    }

    /// A top-level assignment statement with the given left-hand text.
    pub fn assignment(lhs: Vec<u8>) -> (r: Self)
        ensures
            r@ == LineV::Sectioned(assignment_rec(lhs@)),
    {
        Line::Sectioned(LineInfo {
            group_id: None,
            category_id: None,
            indent: 0,
            lhs,
            rhs: None,
            comment_hashes: None,
            comment_text: None,
        })
    }

    /// A bind statement with the given left-hand text.
    pub fn bind(category_id: usize, indent: u8, lhs: Vec<u8>) -> (r: Self)
        ensures
            r@ == LineV::Sectioned(bind_rec(category_id as int, indent as int, lhs@)),
    {
        Line::Sectioned(LineInfo {
            group_id: None,
            category_id: if indent == 0 {
                None
            } else {
                Some(category_id)
            },
            indent,
            lhs,
            rhs: None,
            comment_hashes: None,
            comment_text: None,
        })
    }

    /// The opening line of a category.
    pub fn category_start(category_id: usize, indent: u8, category_ident: Vec<u8>) -> (r: Self)
        ensures
            r@ == LineV::CategoryStart(category_start_rec(
                category_id as int,
                indent as int,
                category_ident@,
            )),
    {
        Line::CategoryStart(LineInfo {
            group_id: None,
            category_id: Some(category_id),
            indent,
            lhs: category_ident,
            rhs: None,
            comment_hashes: None,
            comment_text: None,
        })
    }

    /// The closing line of a category.
    pub fn category_end(category_id: usize, indent: u8) -> (r: Self)
        ensures
            r@ == LineV::CategoryEnd(category_end_rec(category_id as int, indent as int)),
    {
        let mut brace: Vec<u8> = Vec::new();
        brace.push(CLOSE_BRACE);
        proof {
            assert(brace@ =~= seq![CLOSE_BRACE]);
        }
        Line::CategoryEnd(LineInfo {
            group_id: None,
            category_id: Some(category_id),
            indent,
            lhs: brace,
            rhs: None,
            comment_hashes: None,
            comment_text: None,
        })
    }

    /// Assign the block identifier of a groupable line.
    pub fn set_group_id(&mut self, group_id: usize)
        requires
            is_groupable(old(self)@),
        ensures
            final(self)@ == with_group_id(old(self)@, group_id as int),
    {
        match self {
            Line::Sectioned(info) => {
                info.group_id = Some(group_id);
            },
            Line::Comment(info) => {
                info.group_id = Some(group_id);
            },
            Line::Newline | Line::CategoryStart(_) | Line::CategoryEnd(_) => {
                proof {
                    assert(false);
                }
            },
        }
    }

    /// The record of a statement line, or nothing for any other line.
    pub fn as_sectionable(&self) -> (r: Option<&LineInfo>)
        ensures
            match r {
                Some(info) => self@ is Sectioned && info@ == self@.rec(),
                None => !(self@ is Sectioned),
            },
    {
        match self {
            Line::Sectioned(info) => Some(info),
            _ => None,
        }
    }

    /// The record of a groupable line, or nothing for any other line.
    pub fn as_groupable(&self) -> (r: Option<&LineInfo>)
        ensures
            match r {
                Some(info) => is_groupable(self@) && info@ == self@.rec(),
                None => !is_groupable(self@),
            },
    {
        match self {
            Line::Sectioned(info) | Line::Comment(info) => Some(info),
            Line::Newline | Line::CategoryStart(_) | Line::CategoryEnd(_) => None,
        }
    }

    /// Attach a comment marker to the line under construction; only
    /// statements and category braces carry one.
    pub fn set_comment_hashes(&mut self, text: Vec<u8>)
        requires
            old(self)@ is Sectioned || old(self)@ is CategoryStart || old(self)@ is CategoryEnd,
        ensures
            final(self)@ == with_comment_hashes(old(self)@, text@),
    {
        match self {
            Line::Sectioned(info) => {
                info.comment_hashes = Some(text);
            },
            Line::CategoryStart(info) => {
                info.comment_hashes = Some(text);
            },
            Line::CategoryEnd(info) => {
                info.comment_hashes = Some(text);
            },
            Line::Newline | Line::Comment(_) => {
                proof {
                    assert(false);
                }
            },
        }
    }

    /// Attach a comment body to the line under construction.  A body of
    /// nothing but spaces is discarded rather than stored.
    pub fn set_comment_text(&mut self, text: Vec<u8>)
        requires
            !(old(self)@ is Newline),
        ensures
            all_spaces(text@) ==> final(self)@ == old(self)@,
            !all_spaces(text@) ==> final(self)@ == with_comment_text(old(self)@, text@),
    {
        let mut all: bool = true;
        let mut i: usize = 0;
        while i < text.len()
            invariant
                i <= text@.len(),
                all == (forall|j: int| 0 <= j < i ==> text@[j] == SPACE),
            decreases text@.len() - i,
        {
            if text[i] != SPACE {
                all = false;
            }
            i = i + 1;
        }
        if all {
            return ;
        }
        match self {
            Line::Sectioned(info) => {
                info.comment_text = Some(text);
            },
            Line::CategoryStart(info) => {
                info.comment_text = Some(text);
            },
            Line::CategoryEnd(info) => {
                info.comment_text = Some(text);
            },
            Line::Comment(info) => {
                info.comment_text = Some(text);
            },
            Line::Newline => {
                proof {
                    assert(false);
                }
            },
        }
    }

    /// Attach a right-hand side to the statement under construction.
    pub fn set_rhs(&mut self, part: Vec<u8>)
        requires
            old(self)@ is Sectioned,
        ensures
            final(self)@ == with_rhs(old(self)@, part@),
    {
        match self {
            Line::Sectioned(info) => {
                info.rhs = Some(part);
            },
            _ => {
                proof {
                    assert(false);
                }
            },
        }
    }
}

/// The line with its block identifier set, when it is groupable.
pub open spec fn with_group_id(l: LineV, g: int) -> LineV {
    match l {
        LineV::Sectioned(r) => LineV::Sectioned(RecV { group_id: Some(g), ..r }),
        LineV::Comment(r) => LineV::Comment(RecV { group_id: Some(g), ..r }),
        _ => l,
    }
}

/// The line with a comment marker attached.
pub open spec fn with_comment_hashes(l: LineV, text: Seq<u8>) -> LineV {
    match l {
        LineV::Sectioned(r) => LineV::Sectioned(RecV { comment_hashes: Some(text), ..r }),
        LineV::CategoryStart(r) => LineV::CategoryStart(
            RecV { comment_hashes: Some(text), ..r },
        ),
        LineV::CategoryEnd(r) => LineV::CategoryEnd(RecV { comment_hashes: Some(text), ..r }),
        _ => l,
    }
}

/// The line with a comment body attached.
pub open spec fn with_comment_text(l: LineV, text: Seq<u8>) -> LineV {
    match l {
        LineV::Sectioned(r) => LineV::Sectioned(RecV { comment_text: Some(text), ..r }),
        LineV::CategoryStart(r) => LineV::CategoryStart(RecV { comment_text: Some(text), ..r }),
        LineV::CategoryEnd(r) => LineV::CategoryEnd(RecV { comment_text: Some(text), ..r }),
        LineV::Comment(r) => LineV::Comment(RecV { comment_text: Some(text), ..r }),
        LineV::Newline => l,
    }
}

/// The line with a right-hand side attached.
pub open spec fn with_rhs(l: LineV, part: Seq<u8>) -> LineV {
    match l {
        LineV::Sectioned(r) => LineV::Sectioned(RecV { rhs: Some(part), ..r }),
        _ => l,
    }
}

/// A line that can carry a trailing comment marker.
pub open spec fn takes_trailing_comment(l: LineV) -> bool {
    l is Sectioned || l is CategoryStart || l is CategoryEnd
}

/// The classifier's running state: committed lines, the line under
/// construction, the nesting depth and the category counter.
#[verifier::ext_equal]
pub struct ClassifyState {
    pub lines: Seq<LineV>,
    pub pending: LineV,
    pub indent: int,
    pub category_id: int,
}

/// The classifier's starting state: nothing committed, a blank pending.
pub open spec fn classify_init() -> ClassifyState {
    ClassifyState { lines: Seq::empty(), pending: LineV::Newline, indent: 0, category_id: 0 }
}

/// Whether this token opens the content of a new line.
pub open spec fn contentful_start(st: ClassifyState, rule: Rule) -> bool {
    match rule {
        Rule::BindIdent | Rule::VariableIdent | Rule::CategoryIdent => true,
        Rule::CommentHashes => st.pending is Newline,
        _ => false,
    }
}

/// Whether a synthetic blank line is committed before this token's line: a
/// contentful line directly after a category close gets one, and so does a
/// category opener directly after a statement.  A category opener after a
/// standalone comment gets none, keeping the comment attached to it.
pub open spec fn inserts_blank(st: ClassifyState, rule: Rule) -> bool {
    let after_end = st.lines.len() > 0 && st.lines.last() is CategoryEnd && contentful_start(
        st,
        rule,
    );
    let category_after_statement = st.lines.len() > 0 && st.lines.last() is Sectioned
        && rule is CategoryIdent;
    after_end || category_after_statement
}

/// One classifier transition, for the token at index `idx`.
pub open spec fn classify_step(st: ClassifyState, t: TokenV, idx: int) -> Result<
    ClassifyState,
    ParseError,
> {
    let lines1 = if inserts_blank(st, t.rule) {
        st.lines.push(LineV::Newline)
    } else {
        st.lines
    };
    match t.rule {
        Rule::Newline => {
            let drop_third_blank = st.pending is Newline && lines1.len() >= 2 && lines1[
                lines1.len() - 1
            ] is Newline && lines1[lines1.len() - 2] is Newline;
            let drop_blank_after_open = st.pending is Newline && lines1.len() >= 1 && lines1[
                lines1.len() - 1
            ] is CategoryStart;
            if drop_third_blank || drop_blank_after_open {
                Ok(ClassifyState { lines: lines1, ..st })
            } else {
                Ok(
                    ClassifyState {
                        lines: lines1.push(st.pending),
                        pending: LineV::Newline,
                        ..st
                    },
                )
            }
        },
        Rule::CommentHashes => Ok(
            ClassifyState {
                lines: lines1,
                pending: if takes_trailing_comment(st.pending) {
                    with_comment_hashes(st.pending, t.text)
                } else {
                    LineV::Comment(comment_rec(st.category_id, st.indent, t.text))
                },
                ..st
            },
        ),
        Rule::CommentText => {
            if st.pending is Newline {
                Err(ParseError::UnexpectedToken(idx as usize))
            } else {
                let tr = trim_end_ws_spec(t.text);
                Ok(
                    ClassifyState {
                        lines: lines1,
                        pending: if tr.len() == 0 {
                            st.pending
                        } else {
                            with_comment_text(st.pending, tr)
                        },
                        ..st
                    },
                )
            }
        },
        Rule::BindIdent => Ok(
            ClassifyState {
                lines: lines1,
                pending: LineV::Sectioned(
                    bind_rec(st.category_id, st.indent, trim_end_ws_spec(t.text)),
                ),
                ..st
            },
        ),
        Rule::VariableIdent => Ok(
            ClassifyState {
                lines: lines1,
                pending: LineV::Sectioned(assignment_rec(trim_end_ws_spec(t.text))),
                ..st
            },
        ),
        Rule::BindRhs | Rule::VariableExpression => {
            if st.pending is Sectioned {
                Ok(
                    ClassifyState {
                        lines: lines1,
                        pending: with_rhs(st.pending, trim_end_ws_spec(t.text)),
                        ..st
                    },
                )
            } else {
                Err(ParseError::UnexpectedToken(idx as usize))
            }
        },
        Rule::CategoryIdent => {
            if st.indent >= u8::MAX as int {
                Err(ParseError::NestingTooDeep(idx as usize))
            } else {
                Ok(
                    ClassifyState {
                        lines: lines1,
                        pending: LineV::CategoryStart(
                            category_start_rec(
                                st.category_id,
                                st.indent,
                                trim_end_ws_spec(t.text),
                            ),
                        ),
                        indent: st.indent + 1,
                        ..st
                    },
                )
            }
        },
        Rule::CategoryEnd => {
            if st.indent <= 0 {
                Err(ParseError::UnbalancedCategoryEnd(idx as usize))
            } else {
                Ok(
                    ClassifyState {
                        lines: lines1,
                        pending: LineV::CategoryEnd(
                            category_end_rec(st.category_id, st.indent - 1),
                        ),
                        indent: st.indent - 1,
                        category_id: if st.indent - 1 == 0 {
                            st.category_id + 1
                        } else {
                            st.category_id
                        },
                    },
                )
            }
        },
    }
}

/// The classifier's state after the first `n` tokens, or the first error.
pub open spec fn classify_upto(ts: Seq<TokenV>, n: int) -> Result<ClassifyState, ParseError>
    decreases n,
{
    if n <= 0 {
        Ok(classify_init())
    } else {
        match classify_upto(ts, n - 1) {
            Err(e) => Err(e),
            Ok(st) => classify_step(st, ts[n - 1], n - 1),
        }
    }
}

/// The committed lines after classifying a whole token stream; a pending
/// line not closed by a newline token is discarded.
pub open spec fn classify_spec(ts: Seq<TokenV>) -> Result<Seq<LineV>, ParseError> {
    match classify_upto(ts, ts.len() as int) {
        Err(e) => Err(e),
        Ok(st) => Ok(st.lines),
    }
}

/// Once classification has failed, later tokens leave the error in place.
proof fn lemma_classify_upto_err(ts: Seq<TokenV>, m: int, n: int)
    requires
        0 <= m <= n,
        classify_upto(ts, m) is Err,
    ensures
        classify_upto(ts, n) == classify_upto(ts, m),
    decreases n - m,
{
    if n > m {
        lemma_classify_upto_err(ts, m, n - 1);
    }
}

/// The lines with trailing blanks removed.
pub open spec fn trim_trailing_blanks(ls: Seq<LineV>) -> Seq<LineV>
    decreases ls.len(),
{
    if ls.len() > 0 && ls.last() is Newline {
        trim_trailing_blanks(ls.drop_last())
    } else {
        ls
    }
}

/// The grouping pass's running state.
#[verifier::ext_equal]
pub struct GroupState {
    pub out: Seq<LineV>,
    pub group_id: int,
    pub has_set: bool,
}

/// One grouping transition over the fixed input `base` at index `i`: the
/// counter advances when a groupable line sits right after a blank line or
/// a category opener, once any group has been assigned; every groupable
/// line receives the counter's value.
pub open spec fn group_step(st: GroupState, base: Seq<LineV>, i: int) -> GroupState {
    let l = base[i];
    let groupable = is_groupable(l);
    let boundary = i > 0 && (base[i - 1] is Newline || base[i - 1] is CategoryStart);
    let g = if groupable && st.has_set && boundary {
        st.group_id + 1
    } else {
        st.group_id
    };
    GroupState {
        out: st.out.push(
            if groupable {
                with_group_id(l, g)
            } else {
                l
            },
        ),
        group_id: g,
        has_set: st.has_set || groupable,
    }
}

/// The grouping pass's state after the first `n` lines.
pub open spec fn group_upto(base: Seq<LineV>, n: int) -> GroupState
    decreases n,
{
    if n <= 0 {
        GroupState { out: Seq::empty(), group_id: 0, has_set: false }
    } else {
        group_step(group_upto(base, n - 1), base, n - 1)
    }
}

/// The lines with block identifiers assigned.
pub open spec fn assign_groups(base: Seq<LineV>) -> Seq<LineV> {
    group_upto(base, base.len() as int).out
}

/// The grouping pass emits one line per line taken.
pub proof fn lemma_group_upto_len(base: Seq<LineV>, n: int)
    requires
        n >= 0,
    ensures
        group_upto(base, n).out.len() == n,
    decreases n,
{
    if n > 0 {
        lemma_group_upto_len(base, n - 1);
    }
}

/// The classified, trimmed and grouped lines of a token stream.
pub open spec fn get_lines_spec(ts: Seq<TokenV>) -> Result<Seq<LineV>, ParseError> {
    match classify_spec(ts) {
        Err(e) => Err(e),
        Ok(ls) => Ok(assign_groups(trim_trailing_blanks(ls))),
    }
}

/// No three blank lines in a row survive classification.
pub open spec fn blank_runs_bounded(ls: Seq<LineV>) -> bool {
    forall|i: int|
        0 <= i && i + 2 < ls.len() ==> !(#[trigger] ls[i] is Newline && ls[i + 1] is Newline
            && ls[i + 2] is Newline)
}

/// No blank line survives directly after a category opener.
pub open spec fn no_blank_after_opener(ls: Seq<LineV>) -> bool {
    forall|i: int|
        0 <= i && i + 1 < ls.len() && #[trigger] ls[i] is CategoryStart ==> !(ls[i
            + 1] is Newline)
}

/// Two lines of the same kind, blank or not, with the same nesting depth.
pub open spec fn shape_eq(a: LineV, b: LineV) -> bool {
    &&& (a is Newline <==> b is Newline)
    &&& (a is Comment <==> b is Comment)
    &&& (a is Sectioned <==> b is Sectioned)
    &&& (a is CategoryStart <==> b is CategoryStart)
    &&& (a is CategoryEnd <==> b is CategoryEnd)
    &&& (!(a is Newline) ==> a.rec().indent == b.rec().indent)
}

/// Each classifier transition keeps the blank-line shaping invariants of
/// the committed lines.
proof fn lemma_classify_step_shape(st: ClassifyState, t: TokenV, idx: int)
    requires
        blank_runs_bounded(st.lines),
        no_blank_after_opener(st.lines),
        classify_step(st, t, idx) is Ok,
    ensures
        blank_runs_bounded(classify_step(st, t, idx)->Ok_0.lines),
        no_blank_after_opener(classify_step(st, t, idx)->Ok_0.lines),
{
    let lines1 = if inserts_blank(st, t.rule) {
        st.lines.push(LineV::Newline)
    } else {
        st.lines
    };
    // A synthetic blank is only committed after a category close or a
    // statement, so it neither completes a blank triple nor follows an
    // opener.
    assert(blank_runs_bounded(lines1));
    assert(no_blank_after_opener(lines1));
    let st2 = classify_step(st, t, idx)->Ok_0;
    if t.rule is Newline && st2.lines.len() > lines1.len() {
        // The pending line was committed; the guards refuse a blank after
        // two blanks and a blank right after an opener.
        assert(blank_runs_bounded(st2.lines));
        assert(no_blank_after_opener(st2.lines));
    }
}

/// Classification keeps the blank-line shaping invariants from the start.
proof fn lemma_classify_upto_shape(ts: Seq<TokenV>, n: int)
    requires
        0 <= n,
        classify_upto(ts, n) is Ok,
    ensures
        blank_runs_bounded(classify_upto(ts, n)->Ok_0.lines),
        no_blank_after_opener(classify_upto(ts, n)->Ok_0.lines),
    decreases n,
{
    if n > 0 {
        lemma_classify_upto_shape(ts, n - 1);
        lemma_classify_step_shape(classify_upto(ts, n - 1)->Ok_0, ts[n - 1], n - 1);
    }
}

/// Trimming trailing blanks keeps the blank-line shaping invariants.
proof fn lemma_trim_shape(ls: Seq<LineV>)
    requires
        blank_runs_bounded(ls),
        no_blank_after_opener(ls),
    ensures
        blank_runs_bounded(trim_trailing_blanks(ls)),
        no_blank_after_opener(trim_trailing_blanks(ls)),
    decreases ls.len(),
{
    if ls.len() > 0 && ls.last() is Newline {
        assert(blank_runs_bounded(ls.drop_last()));
        assert(no_blank_after_opener(ls.drop_last()));
        lemma_trim_shape(ls.drop_last());
    }
}

/// Grouping changes block identifiers only: every line keeps its kind and
/// its nesting depth.
pub proof fn lemma_group_upto_shape(base: Seq<LineV>, n: int)
    requires
        0 <= n <= base.len(),
    ensures
        group_upto(base, n).out.len() == n,
        forall|j: int| 0 <= j < n ==> #[trigger] shape_eq(group_upto(base, n).out[j], base[j]),
    decreases n,
{
    if n > 0 {
        lemma_group_upto_shape(base, n - 1);
        assert(forall|j: int|
            0 <= j < n - 1 ==> group_upto(base, n).out[j] == group_upto(base, n - 1).out[j]);
    }
}

/// Blank-run bound: classification, trimming and grouping never leave more
/// than two blank lines in a row, and never a blank line directly inside an
/// opening brace.
pub proof fn lemma_blank_runs(ts: Seq<TokenV>)
    requires
        get_lines_spec(ts) is Ok,
    ensures
        blank_runs_bounded(get_lines_spec(ts)->Ok_0),
        no_blank_after_opener(get_lines_spec(ts)->Ok_0),
{
    lemma_classify_upto_shape(ts, ts.len() as int);
    let committed = classify_upto(ts, ts.len() as int)->Ok_0.lines;
    lemma_trim_shape(committed);
    let base = trim_trailing_blanks(committed);
    lemma_group_upto_shape(base, base.len() as int);
    let out = get_lines_spec(ts)->Ok_0;
    assert forall|i: int|
        0 <= i && i + 2 < out.len() implies !(#[trigger] out[i] is Newline && out[i
        + 1] is Newline && out[i + 2] is Newline) by {
        assert(shape_eq(out[i], base[i]));
        assert(shape_eq(out[i + 1], base[i + 1]));
        assert(shape_eq(out[i + 2], base[i + 2]));
    }
    assert forall|i: int|
        0 <= i && i + 1 < out.len() && #[trigger] out[i] is CategoryStart implies !(out[i
        + 1] is Newline) by {
        assert(shape_eq(out[i], base[i]));
        assert(shape_eq(out[i + 1], base[i + 1]));
    }
}

/// How a line changes the category nesting depth.
pub open spec fn line_depth_delta(l: LineV) -> int {
    if l is CategoryStart {
        1
    } else if l is CategoryEnd {
        -1
    } else {
        0
    }
}

/// The category nesting depth after the first `n` lines.
pub open spec fn depth_after(ls: Seq<LineV>, n: int) -> int
    decreases n,
{
    if n <= 0 {
        0
    } else {
        depth_after(ls, n - 1) + line_depth_delta(ls[n - 1])
    }
}

/// No prefix closes more categories than it opened.
pub open spec fn depths_nonneg(ls: Seq<LineV>) -> bool {
    forall|n: int| 0 <= n <= ls.len() ==> #[trigger] depth_after(ls, n) >= 0
}

/// Every brace line is tagged with the depth of the scope it belongs to: an
/// opener carries the depth outside it, a closer the depth it returns to.
pub open spec fn braces_tagged(ls: Seq<LineV>) -> bool {
    &&& forall|i: int|
        0 <= i < ls.len() && (#[trigger] ls[i]) is CategoryStart ==> ls[i].rec().indent
            == depth_after(ls, i)
    &&& forall|i: int|
        0 <= i < ls.len() && (#[trigger] ls[i]) is CategoryEnd ==> ls[i].rec().indent
            == depth_after(ls, i) - 1
}

/// Every category opener has a matching closer: the depth never dips below
/// zero, returns to zero at the end, and every brace line carries the depth
/// of its own scope.
pub open spec fn categories_balanced(ls: Seq<LineV>) -> bool {
    &&& depths_nonneg(ls)
    &&& depth_after(ls, ls.len() as int) == 0
    &&& braces_tagged(ls)
}

/// The depth invariants carried through classification.
pub open spec fn lines_depth_inv(ls: Seq<LineV>) -> bool {
    depths_nonneg(ls) && braces_tagged(ls)
}

/// The depth of a prefix depends only on the prefix.
proof fn lemma_depth_after_prefix(a: Seq<LineV>, b: Seq<LineV>, n: int)
    requires
        forall|k: int| 0 <= k < n ==> a[k] == b[k],
    ensures
        depth_after(a, n) == depth_after(b, n),
    decreases n,
{
    if n > 0 {
        lemma_depth_after_prefix(a, b, n - 1);
    }
}

/// The depth of a prefix depends only on the kinds of its lines.
proof fn lemma_depth_after_shape(a: Seq<LineV>, b: Seq<LineV>, n: int)
    requires
        forall|k: int| 0 <= k < n ==> #[trigger] shape_eq(a[k], b[k]),
    ensures
        depth_after(a, n) == depth_after(b, n),
    decreases n,
{
    if n > 0 {
        lemma_depth_after_shape(a, b, n - 1);
        assert(shape_eq(a[n - 1], b[n - 1]));
    }
}

/// Committing a line keeps the depth invariants when the new line is blank,
/// a comment or a statement, or a correctly tagged brace.
proof fn lemma_push_line_inv(ls: Seq<LineV>, l: LineV)
    requires
        lines_depth_inv(ls),
        l is CategoryStart ==> l.rec().indent == depth_after(ls, ls.len() as int),
        l is CategoryEnd ==> l.rec().indent == depth_after(ls, ls.len() as int) - 1,
        l is CategoryEnd ==> depth_after(ls, ls.len() as int) >= 1,
    ensures
        lines_depth_inv(ls.push(l)),
        depth_after(ls.push(l), ls.len() as int + 1) == depth_after(ls, ls.len() as int)
            + line_depth_delta(l),
{
    let n = ls.len() as int;
    assert forall|m: int| 0 <= m <= n implies depth_after(ls.push(l), m) == depth_after(
        ls,
        m,
    ) by {
        lemma_depth_after_prefix(ls.push(l), ls, m);
    }
    assert(depth_after(ls.push(l), n + 1) == depth_after(ls, n) + line_depth_delta(l));
    assert forall|m: int| 0 <= m <= n + 1 implies #[trigger] depth_after(ls.push(l), m)
        >= 0 by {
        if m <= n {
            assert(depth_after(ls.push(l), m) == depth_after(ls, m));
        }
    }
}

/// How one token changes the nesting depth.
pub open spec fn rule_delta(r: Rule) -> int {
    match r {
        Rule::CategoryIdent => 1,
        Rule::CategoryEnd => -1,
        _ => 0,
    }
}

/// A token that opens the content of a line.
pub open spec fn starts_content(r: Rule) -> bool {
    r is CommentHashes || r is BindIdent || r is VariableIdent || r is CategoryIdent
        || r is CategoryEnd
}

/// A token that continues a line already opened.
pub open spec fn continues_line(r: Rule) -> bool {
    r is CommentHashes || r is CommentText || r is BindRhs || r is VariableExpression
}

/// The classifier's state at a line boundary: a blank pending line, the
/// depth counter equal to the committed lines' depth, and the invariants.
pub open spec fn state_at_boundary(st: ClassifyState, d: int) -> bool {
    &&& st.pending is Newline
    &&& st.indent == d
    &&& d >= 0
    &&& depth_after(st.lines, st.lines.len() as int) == d
    &&& lines_depth_inv(st.lines)
}

/// The classifier's state inside a line, after its opening token: the
/// pending line carries the depth change the line will commit.
pub open spec fn state_in_line(st: ClassifyState, d2: int) -> bool {
    let dep = depth_after(st.lines, st.lines.len() as int);
    &&& st.indent == d2
    &&& d2 >= 0
    &&& lines_depth_inv(st.lines)
    &&& match st.pending {
        LineV::Newline => dep == d2,
        LineV::Comment(r) => dep == d2,
        LineV::Sectioned(r) => dep == d2,
        LineV::CategoryStart(r) => dep == d2 - 1 && r.indent == dep,
        LineV::CategoryEnd(r) => dep == d2 + 1 && r.indent == d2,
    }
}

/// A line-opening token moves a boundary state into an in-line state.
proof fn lemma_step_first(st: ClassifyState, t: TokenV, idx: int, d: int)
    requires
        state_at_boundary(st, d),
        starts_content(t.rule),
        classify_step(st, t, idx) is Ok,
    ensures
        state_in_line(classify_step(st, t, idx)->Ok_0, d + rule_delta(t.rule)),
        !(classify_step(st, t, idx)->Ok_0.pending is Newline),
{
    let lines1 = if inserts_blank(st, t.rule) {
        st.lines.push(LineV::Newline)
    } else {
        st.lines
    };
    if inserts_blank(st, t.rule) {
        lemma_push_line_inv(st.lines, LineV::Newline);
    }
    assert(lines_depth_inv(lines1));
    assert(depth_after(lines1, lines1.len() as int) == d);
}

/// A line-continuing token keeps the in-line state.
proof fn lemma_step_neutral(st: ClassifyState, t: TokenV, idx: int, d2: int)
    requires
        state_in_line(st, d2),
        !(st.pending is Newline),
        continues_line(t.rule),
        classify_step(st, t, idx) is Ok,
    ensures
        state_in_line(classify_step(st, t, idx)->Ok_0, d2),
        !(classify_step(st, t, idx)->Ok_0.pending is Newline),
{
}

/// The newline token commits the pending line and restores a boundary
/// state.
proof fn lemma_step_newline(st: ClassifyState, t: TokenV, idx: int, d2: int)
    requires
        state_in_line(st, d2),
        t.rule is Newline,
    ensures
        classify_step(st, t, idx) is Ok,
        state_at_boundary(classify_step(st, t, idx)->Ok_0, d2),
{
    let dep = depth_after(st.lines, st.lines.len() as int);
    assert(!inserts_blank(st, t.rule));
    let st2 = classify_step(st, t, idx)->Ok_0;
    if st2.lines.len() > st.lines.len() {
        lemma_push_line_inv(st.lines, st.pending);
    }
}

/// Running the classifier over the line-continuing tokens of one line keeps
/// the in-line state.
proof fn lemma_classify_middle(ts: Seq<TokenV>, j: int, end: int, d2: int)
    requires
        0 <= j <= end <= ts.len(),
        classify_upto(ts, j) is Ok,
        state_in_line(classify_upto(ts, j)->Ok_0, d2),
        !(classify_upto(ts, j)->Ok_0.pending is Newline),
        forall|k: int| j <= k < end ==> continues_line(#[trigger] ts[k].rule),
    ensures
        classify_upto(ts, end) is Err || (state_in_line(classify_upto(ts, end)->Ok_0, d2)
            && !(classify_upto(ts, end)->Ok_0.pending is Newline)),
    decreases end - j,
{
    if j < end {
        let st = classify_upto(ts, j)->Ok_0;
        if classify_step(st, ts[j], j) is Ok {
            lemma_step_neutral(st, ts[j], j, d2);
            lemma_classify_middle(ts, j + 1, end, d2);
        } else {
            lemma_classify_upto_err(ts, j + 1, end);
        }
    }
}

/// Running the classifier over one whole line's tokens takes a boundary
/// state to a boundary state at the line's resulting depth, unless it
/// rejects the stream.
proof fn lemma_classify_line(ts: Seq<TokenV>, a: int, m: int, d: int, d2: int)
    requires
        0 <= a,
        m >= 1,
        a + m <= ts.len(),
        classify_upto(ts, a) is Ok,
        state_at_boundary(classify_upto(ts, a)->Ok_0, d),
        ts[a + m - 1].rule is Newline,
        m >= 2 ==> starts_content(ts[a].rule) && d2 == d + rule_delta(ts[a].rule),
        m == 1 ==> d2 == d,
        forall|k: int| a + 1 <= k < a + m - 1 ==> continues_line(#[trigger] ts[k].rule),
    ensures
        classify_upto(ts, a + m) is Err || state_at_boundary(
            classify_upto(ts, a + m)->Ok_0,
            d2,
        ),
{
    let st = classify_upto(ts, a)->Ok_0;
    if m == 1 {
        lemma_step_newline(st, ts[a], a, d);
    } else {
        if classify_step(st, ts[a], a) is Ok {
            lemma_step_first(st, ts[a], a, d);
            lemma_classify_middle(ts, a + 1, a + m - 1, d2);
            if classify_upto(ts, a + m - 1) is Ok {
                lemma_step_newline(
                    classify_upto(ts, a + m - 1)->Ok_0,
                    ts[a + m - 1],
                    a + m - 1,
                    d2,
                );
            } else {
                lemma_classify_upto_err(ts, a + m - 1, a + m);
            }
        } else {
            lemma_classify_upto_err(ts, a + 1, a + m);
        }
    }
}

/// The comment tokens of a line are a marker, possibly followed by a body.
proof fn lemma_comment_tokens_shape(line: Seq<u8>, c: int)
    ensures
        ({
            let ct = comment_tokens_at(line, c);
            &&& 1 <= ct.len() <= 2
            &&& ct[0].rule is CommentHashes
            &&& (ct.len() == 2 ==> ct[1].rule is CommentText)
        }),
{
}

/// A line's tokens are a line-opening token, line-continuing tokens, and a
/// final newline token, and its depth change is its opening token's.
proof fn lemma_line_tokens_shape(line: Seq<u8>, depth: int, lineno: int)
    requires
        line_tokens(line, depth, lineno) is Ok,
    ensures
        ({
            let lts = line_tokens(line, depth, lineno)->Ok_0.0;
            let d2 = line_tokens(line, depth, lineno)->Ok_0.1;
            &&& lts.len() >= 1
            &&& lts[lts.len() - 1].rule is Newline
            &&& (lts.len() >= 2 ==> starts_content(lts[0].rule) && d2 == depth + rule_delta(
                lts[0].rule,
            ))
            &&& (lts.len() == 1 ==> d2 == depth)
            &&& forall|k: int|
                1 <= k < lts.len() - 1 ==> continues_line(#[trigger] lts[k].rule)
        }),
{
    let b = first_non_ws_at(line, 0);
    if b >= line.len() {
    } else if line[b] == HASH {
        lemma_comment_tokens_shape(line, b);
    } else if line[b] == CLOSE_BRACE {
        let j = first_non_ws_at(line, b + 1);
        if j < line.len() && line[j] == HASH {
            lemma_comment_tokens_shape(line, j);
        }
    } else {
        let d = first_delim_at(line, b);
        if d < line.len() && d != b && line[d] == EQUALS {
            let r0 = first_non_ws_at(line, d + 1);
            let c = crate::parse::comment_start_at(line, r0);
            if c < line.len() {
                lemma_comment_tokens_shape(line, c);
            }
        } else if d < line.len() && d != b && line[d] == OPEN_BRACE {
            let j = first_non_ws_at(line, d + 1);
            if j < line.len() && line[j] == HASH {
                lemma_comment_tokens_shape(line, j);
            }
        }
    }
}

/// Classifying the tokens of the first `k` lines of an input leaves the
/// classifier at a line boundary, at the tokenizer's depth, unless it
/// rejects the stream.
proof fn lemma_classify_lines_upto(lsq: Seq<Seq<u8>>, k: int, ts: Seq<TokenV>)
    requires
        0 <= k,
        lines_tokens_upto(lsq, k) is Ok,
        lines_tokens_upto(lsq, k)->Ok_0.0.len() <= ts.len(),
        ts.subrange(0, lines_tokens_upto(lsq, k)->Ok_0.0.len() as int) == lines_tokens_upto(
            lsq,
            k,
        )->Ok_0.0,
    ensures
        ({
            let a = lines_tokens_upto(lsq, k)->Ok_0.0.len() as int;
            let d = lines_tokens_upto(lsq, k)->Ok_0.1;
            classify_upto(ts, a) is Err || state_at_boundary(classify_upto(ts, a)->Ok_0, d)
        }),
    decreases k,
{
    if k == 0 {
        assert(depth_after(Seq::<LineV>::empty(), 0) == 0);
        assert(state_at_boundary(classify_init(), 0));
    } else {
        let prev = lines_tokens_upto(lsq, k - 1);
        let acc = prev->Ok_0.0;
        let d = prev->Ok_0.1;
        let lt = line_tokens(lsq[k - 1], d, k);
        let lts = lt->Ok_0.0;
        let d2 = lt->Ok_0.1;
        let whole = lines_tokens_upto(lsq, k)->Ok_0.0;
        assert(whole == acc + lts);
        let a0 = acc.len() as int;
        let a1 = whole.len() as int;
        assert(ts.subrange(0, a0) =~= acc) by {
            assert(forall|j: int|
                0 <= j < a1 ==> ts[j] == #[trigger] (acc + lts)[j]) by {
                assert(forall|j: int|
                    0 <= j < a1 ==> ts[j] == #[trigger] ts.subrange(0, a1)[j]);
            }
        }
        lemma_classify_lines_upto(lsq, k - 1, ts);
        if classify_upto(ts, a0) is Ok {
            lemma_line_tokens_shape(lsq[k - 1], d, k);
            assert(forall|j: int|
                0 <= j < lts.len() ==> ts[a0 + j] == #[trigger] lts[j]) by {
                assert(forall|j: int|
                    0 <= j < a1 ==> ts[j] == #[trigger] ts.subrange(0, a1)[j]);
                assert(forall|j: int|
                    0 <= j < lts.len() ==> (acc + lts)[a0 + j] == #[trigger] lts[j]);
            }
            assert forall|j: int|
                a0 + 1 <= j < a0 + lts.len() - 1 implies continues_line(
                #[trigger] ts[j].rule,
            ) by {
                assert(ts[j] == lts[j - a0]);
                assert(continues_line(lts[j - a0].rule));
            }
            assert(ts[a0 + lts.len() - 1] == lts[lts.len() - 1]);
            assert(ts[a0] == lts[0]);
            lemma_classify_line(ts, a0, lts.len() as int, d, d2);
        } else {
            lemma_classify_upto_err(ts, a0, a1);
        }
    }
}

/// Trimming trailing blank lines keeps the balance of categories.
proof fn lemma_trim_balance(ls: Seq<LineV>)
    requires
        categories_balanced(ls),
    ensures
        categories_balanced(trim_trailing_blanks(ls)),
    decreases ls.len(),
{
    if ls.len() > 0 && ls.last() is Newline {
        let dl = ls.drop_last();
        assert forall|n: int| 0 <= n <= dl.len() implies #[trigger] depth_after(dl, n)
            == depth_after(ls, n) by {
            lemma_depth_after_prefix(dl, ls, n);
        }
        assert(depth_after(ls, ls.len() as int) == depth_after(ls, ls.len() - 1));
        assert(categories_balanced(dl));
        lemma_trim_balance(dl);
    }
}

/// Assigning block identifiers keeps the balance of categories.
proof fn lemma_group_balance(base: Seq<LineV>)
    requires
        categories_balanced(base),
    ensures
        categories_balanced(assign_groups(base)),
{
    let out = assign_groups(base);
    lemma_group_upto_shape(base, base.len() as int);
    assert forall|n: int| 0 <= n <= out.len() implies #[trigger] depth_after(out, n)
        == depth_after(base, n) by {
        lemma_depth_after_shape(out, base, n);
    }
    assert forall|i: int|
        0 <= i < out.len() && (#[trigger] out[i]) is CategoryStart implies out[i].rec().indent
        == depth_after(out, i) by {
        assert(shape_eq(out[i], base[i]));
    }
    assert forall|i: int|
        0 <= i < out.len() && (#[trigger] out[i]) is CategoryEnd implies out[i].rec().indent
        == depth_after(out, i) - 1 by {
        assert(shape_eq(out[i], base[i]));
    }
}

/// Brace balance: on any input the tokenizer accepts and the classifier
/// turns into lines, the nesting depth returns to zero at the end of the
/// file, never dips below zero, and every category opener and closer is
/// tagged with the depth of its own scope — so every opener has its
/// matching closer at the same depth.
pub proof fn lemma_brace_balance(file: Seq<u8>)
    requires
        tokenize_spec(file) is Ok,
        get_lines_spec(tokenize_spec(file)->Ok_0) is Ok,
    ensures
        categories_balanced(get_lines_spec(tokenize_spec(file)->Ok_0)->Ok_0),
{
    let ts = tokenize_spec(file)->Ok_0;
    let lsq = split_lines(file);
    assert(lines_tokens_upto(lsq, lsq.len() as int) is Ok);
    assert(lines_tokens_upto(lsq, lsq.len() as int)->Ok_0.0 == ts);
    assert(lines_tokens_upto(lsq, lsq.len() as int)->Ok_0.1 == 0);
    assert(ts.subrange(0, ts.len() as int) =~= ts);
    lemma_classify_lines_upto(lsq, lsq.len() as int, ts);
    let st = classify_upto(ts, ts.len() as int)->Ok_0;
    assert(state_at_boundary(st, 0));
    assert(categories_balanced(st.lines));
    lemma_trim_balance(st.lines);
    lemma_group_balance(trim_trailing_blanks(st.lines));
}

/// Classify a token stream into committed line records, one forward pass.
fn get_lines_inner(tokens: &Vec<Token>) -> (r: Result<Vec<Line>, ParseError>)
    ensures
        match r {
            Ok(ls) => classify_spec(tokens_view(tokens@)) == Ok::<_, ParseError>(
                lines_view(ls@),
            ),
            Err(e) => classify_spec(tokens_view(tokens@)) == Err::<Seq<LineV>, ParseError>(e),
        },
{
    let ghost tv = tokens_view(tokens@);
    let mut lines: Vec<Line> = Vec::new();
    let mut pending: Line = Line::Newline;
    let mut indent: u8 = 0;
    let mut category_id: usize = 0;
    let mut i: usize = 0;
    proof {
        assert(lines_view(lines@) =~= Seq::<LineV>::empty());
    }
    while i < tokens.len()
        invariant
            i <= tokens@.len(),
            tv == tokens_view(tokens@),
            category_id <= i,
            classify_upto(tv, i as int) == Ok::<_, ParseError>(
                ClassifyState {
                    lines: lines_view(lines@),
                    pending: pending@,
                    indent: indent as int,
                    category_id: category_id as int,
                },
            ),
        decreases tokens@.len() - i,
    {
        let ghost st = ClassifyState {
            lines: lines_view(lines@),
            pending: pending@,
            indent: indent as int,
            category_id: category_id as int,
        };
        let t = &tokens[i];
        proof {
            assert(t@ == tv[i as int]);
        }
        let insert: bool = if lines.len() > 0 {
            let is_end = matches!(&lines[lines.len() - 1], Line::CategoryEnd(_));
            let is_statement = matches!(&lines[lines.len() - 1], Line::Sectioned(_));
            let starts_line: bool = match t.rule {
                Rule::BindIdent | Rule::VariableIdent | Rule::CategoryIdent => true,
                Rule::CommentHashes => matches!(pending, Line::Newline),
                _ => false,
            };
            (is_end && starts_line) || (is_statement && matches!(t.rule, Rule::CategoryIdent))
        } else {
            false
        };
        proof {
            assert(insert == inserts_blank(st, tv[i as int].rule));
        }
        if insert {
            lines.push(Line::Newline);
            proof {
                assert(lines_view(lines@) =~= st.lines.push(LineV::Newline));
            }
        }
        let ghost lines1 = lines_view(lines@);
        match t.rule {
            Rule::Newline => {
                let drop_third_blank = matches!(pending, Line::Newline) && lines.len() >= 2
                    && matches!(&lines[lines.len() - 1], Line::Newline) && matches!(
                    &lines[lines.len() - 2],
                    Line::Newline,
                );
                let drop_blank_after_open = matches!(pending, Line::Newline) && lines.len() >= 1
                    && matches!(&lines[lines.len() - 1], Line::CategoryStart(_));
                if !(drop_third_blank || drop_blank_after_open) {
                    let ghost pv = pending@;
                    lines.push(pending);
                    pending = Line::Newline;
                    proof {
                        assert(lines_view(lines@) =~= lines1.push(pv));
                    }
                }
            },
            Rule::CommentHashes => {
                let takes = matches!(
                    pending,
                    Line::Sectioned(_) | Line::CategoryStart(_) | Line::CategoryEnd(_),
                );
                if takes {
                    pending.set_comment_hashes(copy_bytes(&t.text));
                } else {
                    pending = Line::comment(category_id, indent, copy_bytes(&t.text));
                }
            },
            Rule::CommentText => {
                if matches!(pending, Line::Newline) {
                    proof {
                        lemma_classify_upto_err(tv, i + 1, tv.len() as int);
                    }
                    return Err(ParseError::UnexpectedToken(i));
                }
                let trimmed = trim_end_ws_vec(&t.text);
                proof {
                    crate::parse::lemma_trim_end_ws_last(t.text@);
                    if trimmed@.len() > 0 {
                        assert(trimmed@[trimmed@.len() - 1] != SPACE);
                        assert(!all_spaces(trimmed@));
                    } else {
                        assert(all_spaces(trimmed@));
                    }
                }
                pending.set_comment_text(trimmed);
            },
            Rule::BindIdent => {
                pending = Line::bind(category_id, indent, trim_end_ws_vec(&t.text));
            },
            Rule::VariableIdent => {
                pending = Line::assignment(trim_end_ws_vec(&t.text));
            },
            Rule::BindRhs | Rule::VariableExpression => {
                if !matches!(pending, Line::Sectioned(_)) {
                    proof {
                        lemma_classify_upto_err(tv, i + 1, tv.len() as int);
                    }
                    return Err(ParseError::UnexpectedToken(i));
                }
                pending.set_rhs(trim_end_ws_vec(&t.text));
            },
            Rule::CategoryIdent => {
                if indent == u8::MAX {
                    proof {
                        lemma_classify_upto_err(tv, i + 1, tv.len() as int);
                    }
                    return Err(ParseError::NestingTooDeep(i));
                }
                pending = Line::category_start(category_id, indent, trim_end_ws_vec(&t.text));
                indent = indent + 1;
            },
            Rule::CategoryEnd => {
                if indent == 0 {
                    proof {
                        lemma_classify_upto_err(tv, i + 1, tv.len() as int);
                    }
                    return Err(ParseError::UnbalancedCategoryEnd(i));
                }
                indent = indent - 1;
                pending = Line::category_end(category_id, indent);
                if indent == 0 {
                    category_id = category_id + 1;
                }
            },
        }
        proof {
            assert(classify_upto(tv, i + 1) == Ok::<_, ParseError>(
                ClassifyState {
                    lines: lines_view(lines@),
                    pending: pending@,
                    indent: indent as int,
                    category_id: category_id as int,
                },
            ));
        }
        i = i + 1;
    }
    Ok(lines)
}

/// Classify a token stream, trim trailing blank lines, and assign block
/// identifiers to the groupable lines.
///
/// The result is exactly [`get_lines_spec`] of the stream's values, errors
/// included.
pub fn get_lines(tokens: &Vec<Token>) -> (r: Result<Vec<Line>, ParseError>)
    ensures
        match r {
            Ok(ls) => get_lines_spec(tokens_view(tokens@)) == Ok::<_, ParseError>(
                lines_view(ls@),
            ),
            Err(e) => get_lines_spec(tokens_view(tokens@)) == Err::<Seq<LineV>, ParseError>(e),
        },
{
    let mut lines: Vec<Line> = match get_lines_inner(tokens) {
        Ok(ls) => ls,
        Err(e) => {
            return Err(e);
        },
    };
    let ghost untrimmed = lines_view(lines@);
    while lines.len() > 0 && matches!(&lines[lines.len() - 1], Line::Newline)
        invariant
            trim_trailing_blanks(untrimmed) == trim_trailing_blanks(lines_view(lines@)),
        decreases lines@.len(),
    {
        let ghost prev = lines@;
        lines.pop();
        proof {
            assert(lines_view(lines@) =~= lines_view(prev).drop_last());
        }
    }
    proof {
        assert(trim_trailing_blanks(lines_view(lines@)) == lines_view(lines@));
    }
    let ghost base = lines_view(lines@);
    let mut group_id: usize = 0;
    let mut has_set: bool = false;
    let mut i: usize = 0;
    while i < lines.len()
        invariant
            i <= lines@.len(),
            lines@.len() == base.len(),
            group_id <= i,
            group_upto(base, i as int) == (GroupState {
                out: lines_view(lines@).take(i as int),
                group_id: group_id as int,
                has_set,
            }),
            forall|j: int| i <= j < base.len() ==> lines_view(lines@)[j] == base[j],
        decreases lines@.len() - i,
    {
        let ghost before = lines_view(lines@);
        let groupable = matches!(&lines[i], Line::Sectioned(_) | Line::Comment(_));
        let boundary: bool = if i > 0 {
            matches!(&lines[i - 1], Line::Newline | Line::CategoryStart(_))
        } else {
            false
        };
        proof {
            // The classified prefix may already carry group identifiers,
            // but that never changes which variant a line is.
            if i > 0 {
                lemma_group_upto_len(base, i - 1);
                assert(before[i - 1] == group_upto(base, i as int).out[i - 1]);
                assert(boundary == (base[i - 1] is Newline || base[i - 1] is CategoryStart));
            }
            assert(before[i as int] == base[i as int]);
            assert(groupable == is_groupable(base[i as int]));
        }
        if groupable && has_set && boundary {
            group_id = group_id + 1;
        }
        if groupable {
            let elem = &mut lines[i];
            elem.set_group_id(group_id);
        }
        has_set = has_set || groupable;
        proof {
            assert(lines_view(lines@).take(i + 1) =~= group_upto(base, i + 1).out);
            assert(forall|j: int|
                i + 1 <= j < base.len() ==> lines_view(lines@)[j] == base[j]);
        }
        i = i + 1;
    }
    proof {
        assert(lines_view(lines@).take(base.len() as int) =~= lines_view(lines@));
        assert(lines_view(lines@) == assign_groups(base));
    }
    Ok(lines)
}

} // verus!
