//! Rendering: per-scope column widths and the alignment passes that turn
//! classified lines back into text.
//!
//! A [`Table`] holds one row of text per line record.  Rows start as
//! indentation plus left-hand text; three passes then append the operator,
//! the right-hand side and the trailing comment, each pass first recomputing
//! the width tables from the current rows, since earlier passes have grown
//! them.  A width table keyed by block or category identifier holds, per
//! bucket, the longest current row among the statement lines of that bucket;
//! standalone comments are never measured.  Padding a row beyond a width it
//! already exceeds is refused, never truncated.

use vstd::prelude::*;

use crate::config::Config;
use crate::config::SpacingContext;
use crate::parse::EQUALS;
use crate::parse::NEWLINE;
use crate::parse::OPEN_BRACE;
use crate::parse::SPACE;
use crate::parsed::line::Line;
use crate::parsed::line::LineInfo;
use crate::parsed::line::LineV;
use crate::parsed::line::RecV;
use crate::parsed::line::lines_view;

verus! {

/// The width of one alignment bucket: the longest current row among its
/// measured members.
#[derive(Clone, Copy, Debug, PartialEq, Eq, Structural)]
pub struct Sizes {
    pub max_len: usize,
}

/// Which identifier keys a width table.
#[derive(Clone, Copy, Debug, PartialEq, Eq, Structural)]
pub enum WidthScope {
    /// Buckets keyed by block identifier.
    BlockIds,
    /// Buckets keyed by category identifier.
    CategoryIds,
    /// One bucket for the whole file.
    FileWide,
}

/// The bucket a line is measured under, or nothing when the line is not
/// measured: only statement lines contribute to widths.
pub open spec fn measured_id(kind: WidthScope, l: LineV) -> Option<int> {
    if !(l is Sectioned) {
        None
    } else {
        match kind {
            WidthScope::BlockIds => l.rec().group_id,
            WidthScope::CategoryIds => l.rec().category_id,
            WidthScope::FileWide => Some(0),
        }
    }
}

/// The width of bucket `c` over the first `n` rows: the longest row among
/// measured members, or zero with no member.
pub open spec fn width_upto(
    kind: WidthScope,
    rows: Seq<Seq<u8>>,
    ls: Seq<LineV>,
    c: int,
    n: int,
) -> nat
    decreases n,
{
    if n <= 0 {
        0
    } else {
        let prev = width_upto(kind, rows, ls, c, n - 1);
        if measured_id(kind, ls[n - 1]) == Some(c) && rows[n - 1].len() > prev {
            rows[n - 1].len()
        } else {
            prev
        }
    }
}

/// The width of bucket `c` over all rows.
pub open spec fn width_of(kind: WidthScope, rows: Seq<Seq<u8>>, ls: Seq<LineV>, c: int) -> nat {
    width_upto(kind, rows, ls, c, ls.len() as int)
}

/// A bucket's width is at least the length of each of its members' rows.
pub proof fn lemma_width_upto_member(
    kind: WidthScope,
    rows: Seq<Seq<u8>>,
    ls: Seq<LineV>,
    c: int,
    n: int,
    p: int,
)
    requires
        0 <= p < n,
        measured_id(kind, ls[p]) == Some(c),
    ensures
        width_upto(kind, rows, ls, c, n) >= rows[p].len(),
    decreases n,
{
    if p < n - 1 {
        lemma_width_upto_member(kind, rows, ls, c, n - 1, p);
    }
}

/// A bucket's width never exceeds a bound on all row lengths.
pub proof fn lemma_width_upto_bound(
    kind: WidthScope,
    rows: Seq<Seq<u8>>,
    ls: Seq<LineV>,
    c: int,
    n: int,
    bound: int,
)
    requires
        bound >= 0,
        forall|k: int| 0 <= k < n ==> #[trigger] rows[k].len() <= bound,
    ensures
        width_upto(kind, rows, ls, c, n) <= bound,
    decreases n,
{
    if n > 0 {
        lemma_width_upto_bound(kind, rows, ls, c, n - 1, bound);
    }
}

/// The mathematical value of a [`GroupingInfo`].
#[verifier::ext_equal]
pub struct GroupingInfoV {
    pub block: Seq<Sizes>,
    pub category: Seq<Sizes>,
    pub file: Sizes,
}

/// The width tables of one alignment pass.  The block and category tables
/// are indexed by identifier and sized one slot per line, which covers every
/// identifier the classifier can assign.
#[derive(Debug, PartialEq)]
pub struct GroupingInfo {
    block: Vec<Sizes>,
    category: Vec<Sizes>,
    file: Sizes,
}

impl View for GroupingInfo {
    type V = GroupingInfoV;

    closed spec fn view(&self) -> GroupingInfoV {
        GroupingInfoV { block: self.block@, category: self.category@, file: self.file }
    }
}

/// The width table keyed as `kind` says, one slot per line.
pub open spec fn table_for(kind: WidthScope, rows: Seq<Seq<u8>>, ls: Seq<LineV>) -> Seq<Sizes> {
    Seq::new(ls.len(), |c: int| Sizes { max_len: width_of(kind, rows, ls, c) as usize })
}

/// All three width tables, computed from the current rows.
pub open spec fn grouping_info_spec(rows: Seq<Seq<u8>>, ls: Seq<LineV>) -> GroupingInfoV {
    GroupingInfoV {
        block: table_for(WidthScope::BlockIds, rows, ls),
        category: table_for(WidthScope::CategoryIds, rows, ls),
        file: Sizes { max_len: width_of(WidthScope::FileWide, rows, ls, 0) as usize },
    }
}

/// The bucket under an identifier, or nothing when the line carries none or
/// the table has no slot for it.
pub open spec fn bucket(table: Seq<Sizes>, id: Option<int>) -> Option<Sizes> {
    match id {
        Some(c) => if 0 <= c < table.len() {
            Some(table[c])
        } else {
            None
        },
        None => None,
    }
}

/// The bucket a line is padded under for the requested scope.  Category
/// scope applies only inside a category; top-level lines fall back to their
/// block.  A line with no applicable bucket is not padded.
pub open spec fn resolved_sizes(
    gi: GroupingInfoV,
    context: SpacingContext,
    r: RecV,
) -> Option<Sizes> {
    match context {
        SpacingContext::Block => bucket(gi.block, r.group_id),
        SpacingContext::Category => if r.indent != 0 && r.category_id is Some {
            bucket(gi.category, r.category_id)
        } else {
            bucket(gi.block, r.group_id)
        },
        SpacingContext::File => Some(gi.file),
    }
}

/// The width a row is padded to: its bucket's width, or its own length when
/// it has no bucket.
pub open spec fn pad_target(sizes: Option<Sizes>, row: Seq<u8>) -> nat {
    match sizes {
        Some(s) => s.max_len as nat,
        None => row.len(),
    }
}

/// `n` copies of one byte.
pub open spec fn repeat_byte(b: u8, n: nat) -> Seq<u8> {
    Seq::new(n, |i: int| b)
}

/// The row padded with spaces up to its resolved width.
pub open spec fn padded_row(row: Seq<u8>, sizes: Option<Sizes>) -> Seq<u8> {
    row + repeat_byte(SPACE, (pad_target(sizes, row) - row.len()) as nat)
}

/// Why a table operation was refused.
#[derive(Clone, Copy, Debug, PartialEq, Eq, Structural)]
pub enum TableError {
    /// A row index beyond the table.
    InvalidIndex(usize),
    /// A row already longer than the width it was to be padded to; carrying
    /// the row's index.
    WidthUnderflow(usize),
    /// An alignment step was asked for before any width tables were set.
    MissingGroupingInfo,
}

/// The starting text of a row: indentation, the left-hand text, the opening
/// brace of a category, and the body of a standalone comment.
pub open spec fn init_row(config: Config, l: LineV) -> Seq<u8> {
    match l {
        LineV::Newline => Seq::empty(),
        _ => {
            let r = l.rec();
            let base = repeat_byte(
                config.indent_mode.indent_byte_spec(),
                (r.indent * config.indent_width) as nat,
            ) + r.lhs;
            if l is CategoryStart {
                base + seq![SPACE, OPEN_BRACE]
            } else if l is Comment {
                base + (match r.comment_text {
                    Some(t) => t,
                    None => Seq::<u8>::empty(),
                })
            } else {
                base
            }
        },
    }
}

/// The starting rows of a line sequence, one per line.
pub open spec fn init_rows(config: Config, ls: Seq<LineV>) -> Seq<Seq<u8>> {
    Seq::new(ls.len(), |i: int| init_row(config, ls[i]))
}

/// The row with trailing spaces removed, as final assembly does.
pub open spec fn trim_end_spaces(row: Seq<u8>) -> Seq<u8>
    decreases row.len(),
{
    if row.len() > 0 && row.last() == SPACE {
        trim_end_spaces(row.drop_last())
    } else {
        row
    }
}

/// The first `n` rows assembled: each trimmed of trailing spaces and closed
/// with a newline.
pub open spec fn render_upto(rows: Seq<Seq<u8>>, n: int) -> Seq<u8>
    decreases n,
{
    if n <= 0 {
        Seq::empty()
    } else {
        render_upto(rows, n - 1) + trim_end_spaces(rows[n - 1]) + seq![NEWLINE]
    }
}

/// The final text: rows trimmed of trailing spaces, joined by newlines, with
/// one trailing newline.
pub open spec fn render_rows(rows: Seq<Seq<u8>>) -> Seq<u8> {
    if rows.len() == 0 {
        seq![NEWLINE]
    } else {
        render_upto(rows, rows.len() as int)
    }
}

/// The mathematical value of a [`Table`].
#[verifier::ext_equal]
pub struct TableV {
    pub rows: Seq<Seq<u8>>,
    pub lines: Seq<LineV>,
    pub grouping_info: Option<GroupingInfoV>,
}

/// One row of text per classified line, with the width tables of the
/// current alignment pass once they have been computed.
#[derive(Debug)]
pub struct Table {
    rows: Vec<Vec<u8>>,
    lines: Vec<Line>,
    grouping_info: Option<GroupingInfo>,
}

impl View for Table {
    type V = TableV;

    closed spec fn view(&self) -> TableV {
        TableV {
            rows: crate::parse::vecs_view(self.rows@),
            lines: lines_view(self.lines@),
            grouping_info: match self.grouping_info {
                Some(g) => Some(g@),
                None => None,
            },
        }
    }
}

/// The number of indentation characters for a nesting depth.
fn indent_len(indent: u8, width: u8) -> (n: usize)
    ensures
        n as int == (indent as int) * (width as int),
{
    proof {
        assert((indent as int) * (width as int) <= 255 * 255) by (nonlinear_arith)
            requires
                0 <= indent as int <= 255,
                0 <= width as int <= 255,
        ;
        assert((indent as int) * (width as int) >= 0) by (nonlinear_arith)
            requires
                0 <= indent as int,
                0 <= width as int,
        ;
    }
    (indent as usize) * (width as usize)
}

/// Append `n` copies of one byte to a row.
fn push_repeat(row: &mut Vec<u8>, b: u8, n: usize)
    ensures
        final(row)@ == old(row)@ + repeat_byte(b, n as nat),
{
    let mut k: usize = 0;
    while k < n
        invariant
            k <= n,
            row@ == old(row)@ + repeat_byte(b, k as nat),
        decreases n - k,
    {
        let ghost prev = row@;
        row.push(b);
        proof {
            assert(row@ =~= old(row)@ + repeat_byte(b, (k + 1) as nat));
        }
        k = k + 1;
    }
}

/// Append a copy of `s` to a row.
fn push_bytes(row: &mut Vec<u8>, s: &Vec<u8>)
    ensures
        final(row)@ == old(row)@ + s@,
{
    let mut k: usize = 0;
    while k < s.len()
        invariant
            k <= s@.len(),
            row@ == old(row)@ + s@.take(k as int),
        decreases s@.len() - k,
    {
        row.push(s[k]);
        proof {
            assert(row@ =~= old(row)@ + s@.take((k + 1) as int));
        }
        k = k + 1;
    }
    proof {
        assert(s@.take(s@.len() as int) =~= s@);
    }
}

/// The length of a row once trailing spaces are removed.
fn trim_spaces_len(row: &Vec<u8>) -> (j: usize)
    ensures
        j <= row@.len(),
        row@.take(j as int) == trim_end_spaces(row@),
{
    let mut j: usize = row.len();
    proof {
        assert(row@.take(j as int) =~= row@);
    }
    while j > 0 && row[j - 1] == SPACE
        invariant
            j <= row@.len(),
            trim_end_spaces(row@) == trim_end_spaces(row@.take(j as int)),
        decreases j,
    {
        proof {
            assert(row@.take(j as int).drop_last() =~= row@.take(j - 1));
        }
        j = j - 1;
    }
    proof {
        assert(trim_end_spaces(row@.take(j as int)) == row@.take(j as int));
    }
    j
}

impl Table {
    /// Rows and lines correspond one to one.
    pub closed spec fn wf(self) -> bool {
        self.rows@.len() == self.lines@.len()
    }

    /// Build the starting rows for a line sequence; no width tables yet.
    pub fn new(config: Config, lines: Vec<Line>) -> (r: Table)
        ensures
            r.wf(),
            r@.lines == lines_view(lines@),
            r@.rows == init_rows(config, lines_view(lines@)),
            r@.grouping_info is None,
    {
        let ghost lsv = lines_view(lines@);
        let mut rows: Vec<Vec<u8>> = Vec::new();
        let indent_char = config.indent_mode.indent_byte();
        let mut i: usize = 0;
        while i < lines.len()
            invariant
                i <= lines@.len(),
                lsv == lines_view(lines@),
                indent_char == config.indent_mode.indent_byte_spec(),
                rows@.len() == i,
                forall|k: int|
                    0 <= k < i ==> crate::parse::vecs_view(rows@)[k] == init_row(config, lsv[k]),
            decreases lines@.len() - i,
        {
            proof {
                assert(lines@[i as int]@ == lsv[i as int]);
            }
            let mut cell: Vec<u8> = Vec::new();
            match &lines[i] {
                Line::Newline => {
                    proof {
                        assert(cell@ =~= init_row(config, lsv[i as int]));
                    }
                },
                Line::Comment(info) => {
                    push_repeat(&mut cell, indent_char, indent_len(info.indent, config.indent_width));
                    push_bytes(&mut cell, &info.lhs);
                    match &info.comment_text {
                        Some(t) => {
                            push_bytes(&mut cell, t);
                        },
                        None => {},
                    }
                    proof {
                        assert(cell@ =~= init_row(config, lsv[i as int]));
                    }
                },
                Line::Sectioned(info) => {
                    push_repeat(&mut cell, indent_char, indent_len(info.indent, config.indent_width));
                    push_bytes(&mut cell, &info.lhs);
                    proof {
                        assert(cell@ =~= init_row(config, lsv[i as int]));
                    }
                },
                Line::CategoryStart(info) => {
                    push_repeat(&mut cell, indent_char, indent_len(info.indent, config.indent_width));
                    push_bytes(&mut cell, &info.lhs);
                    cell.push(SPACE);
                    cell.push(OPEN_BRACE);
                    proof {
                        assert(cell@ =~= init_row(config, lsv[i as int]));
                    }
                },
                Line::CategoryEnd(info) => {
                    push_repeat(&mut cell, indent_char, indent_len(info.indent, config.indent_width));
                    push_bytes(&mut cell, &info.lhs);
                    proof {
                        assert(cell@ =~= init_row(config, lsv[i as int]));
                    }
                },
            }
            let ghost prev_rows = rows@;
            rows.push(cell);
            proof {
                assert(crate::parse::vecs_view(rows@) =~= crate::parse::vecs_view(
                    prev_rows,
                ).push(cell@));
            }
            i = i + 1;
        }
        let r = Table { rows, lines, grouping_info: None };
        proof {
            assert(r@.rows =~= init_rows(config, lsv));
        }
        r
    }

    /// The width of bucket `c` under `kind`, over the current rows.
    fn bucket_width(&self, kind: WidthScope, c: usize) -> (w: usize)
        requires
            self.wf(),
        ensures
            w as int == width_of(kind, self@.rows, self@.lines, c as int),
    {
        let mut best: usize = 0;
        let mut k: usize = 0;
        while k < self.lines.len()
            invariant
                self.wf(),
                k <= self.lines@.len(),
                best as int == width_upto(kind, self@.rows, self@.lines, c as int, k as int),
            decreases self.lines@.len() - k,
        {
            let matched: bool = match &self.lines[k] {
                Line::Sectioned(info) => match kind {
                    WidthScope::BlockIds => match info.group_id {
                        Some(g) => g == c,
                        None => false,
                    },
                    WidthScope::CategoryIds => match info.category_id {
                        Some(g) => g == c,
                        None => false,
                    },
                    WidthScope::FileWide => c == 0,
                },
                _ => false,
            };
            proof {
                assert(self@.lines[k as int] == self.lines@[k as int]@);
                assert(matched == (measured_id(kind, self@.lines[k as int]) == Some(
                    c as int,
                )));
                assert(self@.rows[k as int] == self.rows@[k as int]@);
            }
            if matched {
                let l = self.rows[k].len();
                if l > best {
                    best = l;
                }
            }
            k = k + 1;
        }
        best
    }

    /// Recompute all width tables from the current rows.
    pub fn set_next_grouping_info(&mut self)
        requires
            old(self).wf(),
        ensures
            final(self).wf(),
            final(self)@.rows == old(self)@.rows,
            final(self)@.lines == old(self)@.lines,
            final(self)@.grouping_info == Some(
                grouping_info_spec(old(self)@.rows, old(self)@.lines),
            ),
    {
        let block = self.build_group_info_group_array(WidthScope::BlockIds);
        let category = self.build_group_info_group_array(WidthScope::CategoryIds);
        let fw = self.bucket_width(WidthScope::FileWide, 0);
        let gi = GroupingInfo { block, category, file: Sizes { max_len: fw } };
        proof {
            assert(gi@ =~= grouping_info_spec(self@.rows, self@.lines));
        }
        self.grouping_info = Some(gi);
    }

    /// Build one width table: identifiers are assigned in increasing order,
    /// one slot per line covers them all, so a table can be a plain vector
    /// indexed by identifier.
    fn build_group_info_group_array(&self, kind: WidthScope) -> (r: Vec<Sizes>)
        requires
            self.wf(),
        ensures
            r@ == table_for(kind, self@.rows, self@.lines),
    {
        let n = self.lines.len();
        let mut table: Vec<Sizes> = Vec::new();
        let mut c: usize = 0;
        while c < n
            invariant
                self.wf(),
                n == self.lines@.len(),
                c <= n,
                table@.len() == c,
                forall|cc: int|
                    0 <= cc < c ==> table@[cc] == (Sizes {
                        max_len: width_of(kind, self@.rows, self@.lines, cc) as usize,
                    }),
            decreases n - c,
        {
            let w = self.bucket_width(kind, c);
            table.push(Sizes { max_len: w });
            c = c + 1;
        }
        proof {
            assert(table@ =~= table_for(kind, self@.rows, self@.lines));
        }
        table
    }

    /// Look one identifier up in a width table.
    fn lookup(table: &Vec<Sizes>, id: &Option<usize>) -> (r: Option<Sizes>)
        ensures
            r == bucket(
                table@,
                match *id {
                    Some(c) => Some(c as int),
                    None => None,
                },
            ),
    {
        match id {
            Some(c) => if *c < table.len() {
                Some(table[*c])
            } else {
                None
            },
            None => None,
        }
    }

    /// The bucket a line resolves to under the requested scope.
    fn get_sizes_for_pos(&self, context: SpacingContext, line: &LineInfo) -> (r: Option<Sizes>)
        requires
            self@.grouping_info is Some,
        ensures
            r == resolved_sizes(self@.grouping_info->Some_0, context, line@),
    {
        let gi = match &self.grouping_info {
            Some(g) => g,
            None => {
                proof {
                    assert(false);
                }
                return None;
            },
        };
        match context {
            SpacingContext::Block => Self::lookup(&gi.block, &line.group_id),
            SpacingContext::Category => {
                let in_category = line.indent != 0 && matches!(line.category_id, Some(_));
                if in_category {
                    Self::lookup(&gi.category, &line.category_id)
                } else {
                    Self::lookup(&gi.block, &line.group_id)
                }
            },
            SpacingContext::File => Some(gi.file),
        }
    }

    /// Pad row `pos` with spaces to the width that `line` resolves to under
    /// `context`.  Refused when no width tables are set, when `pos` is out
    /// of range, and when the row is already longer than the width.
    pub fn append_spaces(&mut self, context: SpacingContext, line: &LineInfo, pos: usize) -> (r:
        Result<(), TableError>)
        ensures
            final(self).wf() == old(self).wf(),
            final(self)@.lines == old(self)@.lines,
            final(self)@.grouping_info == old(self)@.grouping_info,
            match r {
                Ok(_) => {
                    let gi = old(self)@.grouping_info->Some_0;
                    let row = old(self)@.rows[pos as int];
                    &&& old(self)@.grouping_info is Some
                    &&& pos < old(self)@.rows.len()
                    &&& row.len() <= pad_target(resolved_sizes(gi, context, line@), row)
                    &&& final(self)@.rows == old(self)@.rows.update(
                        pos as int,
                        padded_row(row, resolved_sizes(gi, context, line@)),
                    )
                },
                Err(TableError::MissingGroupingInfo) => {
                    &&& old(self)@.grouping_info is None
                    &&& final(self)@ == old(self)@
                },
                Err(TableError::InvalidIndex(p)) => {
                    &&& p == pos
                    &&& old(self)@.grouping_info is Some
                    &&& pos >= old(self)@.rows.len()
                    &&& final(self)@ == old(self)@
                },
                Err(TableError::WidthUnderflow(p)) => {
                    let gi = old(self)@.grouping_info->Some_0;
                    let row = old(self)@.rows[pos as int];
                    &&& p == pos
                    &&& old(self)@.grouping_info is Some
                    &&& pos < old(self)@.rows.len()
                    &&& row.len() > pad_target(resolved_sizes(gi, context, line@), row)
                    &&& final(self)@ == old(self)@
                },
            },
    {
        if matches!(&self.grouping_info, None) {
            return Err(TableError::MissingGroupingInfo);
        }
        if pos >= self.rows.len() {
            return Err(TableError::InvalidIndex(pos));
        }
        let sizes = self.get_sizes_for_pos(context, line);
        let cur = self.rows[pos].len();
        let target: usize = match sizes {
            Some(s) => s.max_len,
            None => cur,
        };
        if cur > target {
            return Err(TableError::WidthUnderflow(pos));
        }
        let ghost oldrows = self@.rows;
        let row = &mut self.rows[pos];
        push_repeat(row, SPACE, target - cur);
        proof {
            assert(self@.rows =~= oldrows.update(
                pos as int,
                padded_row(
                    oldrows[pos as int],
                    resolved_sizes(old(self)@.grouping_info->Some_0, context, line@),
                ),
            ));
        }
        Ok(())
    }

    /// Append text to row `idx`; refused when the index is out of range.
    pub fn append_to_row(&mut self, idx: usize, string: &Vec<u8>) -> (r: Result<
        (),
        TableError,
    >)
        ensures
            final(self).wf() == old(self).wf(),
            final(self)@.lines == old(self)@.lines,
            final(self)@.grouping_info == old(self)@.grouping_info,
            match r {
                Ok(_) => idx < old(self)@.rows.len() && final(self)@.rows == old(
                    self,
                )@.rows.update(idx as int, old(self)@.rows[idx as int] + string@),
                Err(TableError::InvalidIndex(p)) => p == idx && idx >= old(self)@.rows.len()
                    && final(self)@ == old(self)@,
                Err(_) => false,
            },
    {
        if idx >= self.rows.len() {
            return Err(TableError::InvalidIndex(idx));
        }
        let ghost oldrows = self@.rows;
        let row = &mut self.rows[idx];
        push_bytes(row, string);
        proof {
            assert(self@.rows =~= oldrows.update(
                idx as int,
                oldrows[idx as int] + string@,
            ));
        }
        Ok(())
    }

    /// The number of lines (and rows) in the table.
    pub fn len(&self) -> (n: usize)
        ensures
            n == self@.lines.len(),
    {
        self.lines.len()
    }

    /// The line at one position.
    pub fn line(&self, pos: usize) -> (l: &Line)
        requires
            pos < self@.lines.len(),
        ensures
            l@ == self@.lines[pos as int],
    {
        &self.lines[pos]
    }

    /// Assemble the final text: every row trimmed of trailing spaces, rows
    /// joined by newlines, one trailing newline.
    pub fn format(self) -> (r: Vec<u8>)
        ensures
            r@ == render_rows(self@.rows),
    {
        let mut out: Vec<u8> = Vec::new();
        if self.rows.len() == 0 {
            out.push(NEWLINE);
            proof {
                assert(out@ =~= seq![NEWLINE]);
            }
            return out;
        }
        let ghost rowsv = self@.rows;
        let mut i: usize = 0;
        while i < self.rows.len()
            invariant
                i <= self.rows@.len(),
                rowsv == self@.rows,
                rowsv.len() >= 1,
                out@ == render_upto(rowsv, i as int),
            decreases self.rows@.len() - i,

        {
            let row = &self.rows[i];
            proof {
                assert(row@ == rowsv[i as int]);
            }
            let j = trim_spaces_len(row);
            let ghost mid = out@;
            let mut k: usize = 0;
            while k < j
                invariant
                    k <= j <= row@.len(),
                    out@ == mid + row@.take(k as int),
                decreases j - k,
            {
                out.push(row[k]);
                proof {
                    assert(out@ =~= mid + row@.take((k + 1) as int));
                }
                k = k + 1;
            }
            out.push(NEWLINE);
            proof {
                assert(out@ =~= render_upto(rowsv, i as int) + trim_end_spaces(
                    rowsv[i as int],
                ) + seq![NEWLINE]);
            }
            i = i + 1;
        }
        out
    }
}

/// The operator text appended to a statement row: padded rows get ` = `
/// before a right-hand side, and a bare ` =` without one.
pub open spec fn mid_suffix(r: RecV) -> Seq<u8> {
    if r.rhs is Some {
        seq![SPACE, EQUALS, SPACE]
    } else {
        seq![SPACE, EQUALS]
    }
}

/// A row after the operator pass: statement rows are padded to their
/// resolved width and given their operator; other rows are untouched.
pub open spec fn mid_row(
    gi: GroupingInfoV,
    context: SpacingContext,
    l: LineV,
    row: Seq<u8>,
) -> Seq<u8> {
    if l is Sectioned {
        padded_row(row, resolved_sizes(gi, context, l.rec())) + mid_suffix(l.rec())
    } else {
        row
    }
}

/// All rows after the operator pass.
pub open spec fn mid_rows(
    gi: GroupingInfoV,
    context: SpacingContext,
    ls: Seq<LineV>,
    rows: Seq<Seq<u8>>,
) -> Seq<Seq<u8>> {
    Seq::new(rows.len(), |p: int| mid_row(gi, context, ls[p], rows[p]))
}

/// A row after the right-hand-side pass: the expression is appended
/// verbatim, with no padding.
pub open spec fn rhs_row(l: LineV, row: Seq<u8>) -> Seq<u8> {
    if l is Sectioned && l.rec().rhs is Some {
        row + l.rec().rhs->Some_0
    } else {
        row
    }
}

/// All rows after the right-hand-side pass.
pub open spec fn rhs_rows(ls: Seq<LineV>, rows: Seq<Seq<u8>>) -> Seq<Seq<u8>> {
    Seq::new(rows.len(), |p: int| rhs_row(ls[p], rows[p]))
}

/// A line the comment pass touches: a statement or a category brace line
/// carrying a comment marker.  Standalone comments already hold their final
/// text and are never padded.
pub open spec fn takes_comment_pass(l: LineV) -> bool {
    (l is Sectioned || l is CategoryStart || l is CategoryEnd) && l.rec().comment_hashes is Some
}

/// The comment text appended to a padded row: one space, the marker, one
/// more space unless the marker already ends in one, then the body.
pub open spec fn comment_suffix(r: RecV) -> Seq<u8> {
    let h = match r.comment_hashes {
        Some(h) => h,
        None => Seq::<u8>::empty(),
    };
    let gap = if h.len() > 0 && h.last() == SPACE {
        Seq::<u8>::empty()
    } else {
        seq![SPACE]
    };
    seq![SPACE] + h + gap + (match r.comment_text {
        Some(t) => t,
        None => Seq::<u8>::empty(),
    })
}

/// A row after the comment pass.
pub open spec fn comment_row(
    gi: GroupingInfoV,
    context: SpacingContext,
    l: LineV,
    row: Seq<u8>,
) -> Seq<u8> {
    if takes_comment_pass(l) {
        padded_row(row, resolved_sizes(gi, context, l.rec())) + comment_suffix(l.rec())
    } else {
        row
    }
}

/// Whether the comment pass can pad row `p`: rows it touches must not
/// already exceed their resolved width.
pub open spec fn comment_ok_at(
    gi: GroupingInfoV,
    context: SpacingContext,
    ls: Seq<LineV>,
    rows: Seq<Seq<u8>>,
    p: int,
) -> bool {
    takes_comment_pass(ls[p]) ==> rows[p].len() <= pad_target(
        resolved_sizes(gi, context, ls[p].rec()),
        rows[p],
    )
}

/// The first position at or after `i` that the comment pass must refuse, or
/// the number of lines if none.
pub open spec fn first_comment_underflow_at(
    gi: GroupingInfoV,
    context: SpacingContext,
    ls: Seq<LineV>,
    rows: Seq<Seq<u8>>,
    i: int,
) -> int
    decreases ls.len() - i,
{
    if i < 0 || i >= ls.len() {
        ls.len() as int
    } else if !comment_ok_at(gi, context, ls, rows, i) {
        i
    } else {
        first_comment_underflow_at(gi, context, ls, rows, i + 1)
    }
}

/// The rows with the comment pass applied to the first `n` positions.
pub open spec fn comment_rows_upto(
    gi: GroupingInfoV,
    context: SpacingContext,
    ls: Seq<LineV>,
    rows: Seq<Seq<u8>>,
    n: int,
) -> Seq<Seq<u8>> {
    Seq::new(
        rows.len(),
        |p: int|
            if p < n {
                comment_row(gi, context, ls[p], rows[p])
            } else {
                rows[p]
            },
    )
}

/// Every row view of an executable vector fits the machine's length type.
proof fn lemma_rows_bounded(rows: Seq<Vec<u8>>)
    ensures
        forall|k: int|
            0 <= k < rows.len() ==> #[trigger] crate::parse::vecs_view(rows)[k].len()
                <= usize::MAX,
{
    assert forall|k: int|
        0 <= k < rows.len() implies #[trigger] crate::parse::vecs_view(rows)[k].len()
        <= usize::MAX by {
        let v = rows[k];
        assert(v.len() == v@.len());
        assert(crate::parse::vecs_view(rows)[k] == v@);
    }
}

/// A statement row never exceeds the width it resolves to under tables
/// freshly computed from the same rows: it is a member of its own bucket.
proof fn lemma_sectioned_pad_safe(
    gi: GroupingInfoV,
    context: SpacingContext,
    rows: Seq<Seq<u8>>,
    ls: Seq<LineV>,
    p: int,
)
    requires
        gi == grouping_info_spec(rows, ls),
        0 <= p < ls.len(),
        ls[p] is Sectioned,
        forall|k: int| 0 <= k < rows.len() ==> #[trigger] rows[k].len() <= usize::MAX,
        rows.len() == ls.len(),
    ensures
        rows[p].len() <= pad_target(resolved_sizes(gi, context, ls[p].rec()), rows[p]),
{
    let r = ls[p].rec();
    let n = ls.len() as int;
    match resolved_sizes(gi, context, r) {
        None => {},
        Some(s) => {
            match context {
                SpacingContext::Block => {
                    let g = r.group_id->Some_0;
                    lemma_width_upto_member(WidthScope::BlockIds, rows, ls, g, n, p);
                    lemma_width_upto_bound(
                        WidthScope::BlockIds,
                        rows,
                        ls,
                        g,
                        n,
                        usize::MAX as int,
                    );
                },
                SpacingContext::Category => {
                    if r.indent != 0 && r.category_id is Some {
                        let c = r.category_id->Some_0;
                        lemma_width_upto_member(WidthScope::CategoryIds, rows, ls, c, n, p);
                        lemma_width_upto_bound(
                            WidthScope::CategoryIds,
                            rows,
                            ls,
                            c,
                            n,
                            usize::MAX as int,
                        );
                    } else {
                        let g = r.group_id->Some_0;
                        lemma_width_upto_member(WidthScope::BlockIds, rows, ls, g, n, p);
                        lemma_width_upto_bound(
                            WidthScope::BlockIds,
                            rows,
                            ls,
                            g,
                            n,
                            usize::MAX as int,
                        );
                    }
                },
                SpacingContext::File => {
                    lemma_width_upto_member(WidthScope::FileWide, rows, ls, 0, n, p);
                    lemma_width_upto_bound(
                        WidthScope::FileWide,
                        rows,
                        ls,
                        0,
                        n,
                        usize::MAX as int,
                    );
                },
            }
        },
    }
}

/// The operator pass: recompute the width tables, then pad every statement
/// row to its resolved width and append its operator.  Never refused: a
/// statement row is measured in its own bucket, so it never exceeds the
/// resolved width.
pub fn update_mid_column(config: Config, table: &mut Table) -> (r: Result<(), TableError>)
    requires
        old(table).wf(),
    ensures
        final(table).wf(),
        r is Ok,
        final(table)@.lines == old(table)@.lines,
        final(table)@.grouping_info == Some(
            grouping_info_spec(old(table)@.rows, old(table)@.lines),
        ),
        final(table)@.rows == mid_rows(
            grouping_info_spec(old(table)@.rows, old(table)@.lines),
            config.eq_spacing_context,
            old(table)@.lines,
            old(table)@.rows,
        ),
{
    table.set_next_grouping_info();
    let ghost ls = table@.lines;
    let ghost rows0 = table@.rows;
    let ghost gi = grouping_info_spec(rows0, ls);
    proof {
        lemma_rows_bounded(old(table).rows@);
    }
    let n = table.len();
    let mut pos: usize = 0;
    while pos < n
        invariant
            pos <= n,
            n == ls.len(),
            table.wf(),
            ls == table@.lines,
            gi == grouping_info_spec(rows0, ls),
            rows0.len() == ls.len(),
            table@.grouping_info == Some(gi),
            table@.rows.len() == ls.len(),
            forall|k: int| 0 <= k < rows0.len() ==> #[trigger] rows0[k].len() <= usize::MAX,
            forall|q: int|
                0 <= q < pos ==> table@.rows[q] == mid_row(
                    gi,
                    config.eq_spacing_context,
                    ls[q],
                    rows0[q],
                ),
            forall|q: int| pos <= q < ls.len() ==> table@.rows[q] == rows0[q],
        decreases n - pos,
    {
        let mut is_statement: bool = false;
        let mut has_rhs: bool = false;
        let mut probe = LineInfo {
            category_id: None,
            comment_hashes: None,
            comment_text: None,
            group_id: None,
            indent: 0,
            lhs: Vec::new(),
            rhs: None,
        };
        match table.line(pos) {
            Line::Sectioned(info) => {
                is_statement = true;
                has_rhs = matches!(info.rhs, Some(_));
                probe.category_id = info.category_id;
                probe.group_id = info.group_id;
                probe.indent = info.indent;
            },
            _ => {},
        }
        if is_statement {
            proof {
                assert(resolved_sizes(gi, config.eq_spacing_context, probe@) == resolved_sizes(
                    gi,
                    config.eq_spacing_context,
                    ls[pos as int].rec(),
                ));
                lemma_sectioned_pad_safe(
                    gi,
                    config.eq_spacing_context,
                    rows0,
                    ls,
                    pos as int,
                );
            }
            let ghost rows_before = table@.rows;
            let res = table.append_spaces(config.eq_spacing_context, &probe, pos);
            proof {
                assert(res is Ok);
            }
            let mid: Vec<u8> = if has_rhs {
                vec![SPACE, EQUALS, SPACE]
            } else {
                vec![SPACE, EQUALS]
            };
            proof {
                assert(mid@ =~= mid_suffix(ls[pos as int].rec()));
            }
            let res2 = table.append_to_row(pos, &mid);
            proof {
                assert(res2 is Ok);
                assert(table@.rows[pos as int] == mid_row(
                    gi,
                    config.eq_spacing_context,
                    ls[pos as int],
                    rows0[pos as int],
                ));
            }
        }
        pos = pos + 1;
    }
    proof {
        assert(table@.rows =~= mid_rows(gi, config.eq_spacing_context, ls, rows0));
    }
    Ok(())
}

/// The right-hand-side pass: append each statement's expression verbatim.
/// Never refused.
pub fn update_rhs_column(table: &mut Table) -> (r: Result<(), TableError>)
    requires
        old(table).wf(),
    ensures
        final(table).wf(),
        r is Ok,
        final(table)@.lines == old(table)@.lines,
        final(table)@.grouping_info == old(table)@.grouping_info,
        final(table)@.rows == rhs_rows(old(table)@.lines, old(table)@.rows),
{
    let ghost ls = table@.lines;
    let ghost rows0 = table@.rows;
    let n = table.len();
    let mut pos: usize = 0;
    while pos < n
        invariant
            pos <= n,
            n == ls.len(),
            table.wf(),
            ls == table@.lines,
            rows0.len() == ls.len(),
            table@.grouping_info == old(table)@.grouping_info,
            table@.rows.len() == ls.len(),
            forall|q: int|
                0 <= q < pos ==> table@.rows[q] == rhs_row(ls[q], rows0[q]),
            forall|q: int| pos <= q < ls.len() ==> table@.rows[q] == rows0[q],
        decreases n - pos,
    {
        let mut rhs_copy: Option<Vec<u8>> = None;
        match table.line(pos) {
            Line::Sectioned(info) => match &info.rhs {
                Some(rhs) => {
                    rhs_copy = Some(crate::parse::copy_bytes(rhs));
                },
                None => {},
            },
            _ => {},
        }
        match rhs_copy {
            Some(rhs) => {
                let res = table.append_to_row(pos, &rhs);
                proof {
                    assert(res is Ok);
                    assert(table@.rows[pos as int] == rhs_row(
                        ls[pos as int],
                        rows0[pos as int],
                    ));
                }
            },
            None => {},
        }
        pos = pos + 1;
    }
    proof {
        assert(table@.rows =~= rhs_rows(ls, rows0));
    }
    Ok(())
}

/// The comment pass: recompute the width tables, then pad every row that
/// carries a comment marker and append the marker and body.  Refused, with
/// the first offending row, when such a row already exceeds its resolved
/// width, which can happen to a category brace line measured against a
/// bucket it is not a member of.
pub fn update_comment_column(config: Config, table: &mut Table) -> (r: Result<(), TableError>)
    requires
        old(table).wf(),
    ensures
        final(table).wf(),
        final(table)@.lines == old(table)@.lines,
        final(table)@.grouping_info == Some(
            grouping_info_spec(old(table)@.rows, old(table)@.lines),
        ),
        ({
            let ls = old(table)@.lines;
            let rows = old(table)@.rows;
            let gi = grouping_info_spec(rows, ls);
            let ctx = config.comment_spacing_context;
            let fb = first_comment_underflow_at(gi, ctx, ls, rows, 0);
            match r {
                Ok(_) => fb == ls.len() && final(table)@.rows == comment_rows_upto(
                    gi,
                    ctx,
                    ls,
                    rows,
                    ls.len() as int,
                ),
                Err(TableError::WidthUnderflow(p)) => p == fb && fb < ls.len()
                    && final(table)@.rows == comment_rows_upto(gi, ctx, ls, rows, fb),
                Err(_) => false,
            }
        }),
{
    table.set_next_grouping_info();
    let ghost ls = table@.lines;
    let ghost rows0 = table@.rows;
    let ghost gi = grouping_info_spec(rows0, ls);
    let ghost ctx = config.comment_spacing_context;
    let n = table.len();
    let mut pos: usize = 0;
    while pos < n
        invariant
            pos <= n,
            n == ls.len(),
            table.wf(),
            ls == table@.lines,
            ls == old(table)@.lines,
            rows0 == old(table)@.rows,
            gi == grouping_info_spec(rows0, ls),
            ctx == config.comment_spacing_context,
            rows0.len() == ls.len(),
            table@.grouping_info == Some(gi),
            table@.rows.len() == ls.len(),
            first_comment_underflow_at(gi, ctx, ls, rows0, 0) == first_comment_underflow_at(
                gi,
                ctx,
                ls,
                rows0,
                pos as int,
            ),
            table@.rows == comment_rows_upto(gi, ctx, ls, rows0, pos as int),
        decreases n - pos,
    {
        let mut applies: bool = false;
        let mut hashes: Vec<u8> = Vec::new();
        let mut body: Option<Vec<u8>> = None;
        let mut probe = LineInfo {
            category_id: None,
            comment_hashes: None,
            comment_text: None,
            group_id: None,
            indent: 0,
            lhs: Vec::new(),
            rhs: None,
        };
        match table.line(pos) {
            Line::Sectioned(info) => {
                match &info.comment_hashes {
                    Some(h) => {
                        applies = true;
                        hashes = crate::parse::copy_bytes(h);
                        match &info.comment_text {
                            Some(t) => {
                                body = Some(crate::parse::copy_bytes(t));
                            },
                            None => {},
                        }
                        probe.category_id = info.category_id;
                        probe.group_id = info.group_id;
                        probe.indent = info.indent;
                    },
                    None => {},
                }
            },
            Line::CategoryStart(info) => {
                match &info.comment_hashes {
                    Some(h) => {
                        applies = true;
                        hashes = crate::parse::copy_bytes(h);
                        match &info.comment_text {
                            Some(t) => {
                                body = Some(crate::parse::copy_bytes(t));
                            },
                            None => {},
                        }
                        probe.category_id = info.category_id;
                        probe.group_id = info.group_id;
                        probe.indent = info.indent;
                    },
                    None => {},
                }
            },
            Line::CategoryEnd(info) => {
                match &info.comment_hashes {
                    Some(h) => {
                        applies = true;
                        hashes = crate::parse::copy_bytes(h);
                        match &info.comment_text {
                            Some(t) => {
                                body = Some(crate::parse::copy_bytes(t));
                            },
                            None => {},
                        }
                        probe.category_id = info.category_id;
                        probe.group_id = info.group_id;
                        probe.indent = info.indent;
                    },
                    None => {},
                }
            },
            _ => {},
        }
        if applies {
            proof {
                assert(takes_comment_pass(ls[pos as int]));
                assert(resolved_sizes(gi, ctx, probe@) == resolved_sizes(
                    gi,
                    ctx,
                    ls[pos as int].rec(),
                ));
            }
            match table.append_spaces(config.comment_spacing_context, &probe, pos) {
                Ok(_) => {},
                Err(e) => {
                    proof {
                        assert(e == TableError::WidthUnderflow(pos));
                        assert(!comment_ok_at(gi, ctx, ls, rows0, pos as int));
                        assert(first_comment_underflow_at(gi, ctx, ls, rows0, 0)
                            == pos as int);
                        assert(table@.rows =~= comment_rows_upto(
                            gi,
                            ctx,
                            ls,
                            rows0,
                            pos as int,
                        ));
                    }
                    return Err(e);
                },
            }
            let mut suffix: Vec<u8> = Vec::new();
            suffix.push(SPACE);
            push_bytes(&mut suffix, &hashes);
            let ends_in_space = hashes.len() > 0 && hashes[hashes.len() - 1] == SPACE;
            if !ends_in_space {
                suffix.push(SPACE);
            }
            match &body {
                Some(t) => {
                    push_bytes(&mut suffix, t);
                },
                None => {},
            }
            proof {
                assert(suffix@ =~= comment_suffix(ls[pos as int].rec()));
            }
            let res2 = table.append_to_row(pos, &suffix);
            proof {
                assert(res2 is Ok);
                assert(table@.rows[pos as int] == comment_row(
                    gi,
                    ctx,
                    ls[pos as int],
                    rows0[pos as int],
                ));
                assert(table@.rows =~= comment_rows_upto(gi, ctx, ls, rows0, pos + 1));
            }
        } else {
            proof {
                assert(!takes_comment_pass(ls[pos as int]));
                assert(table@.rows =~= comment_rows_upto(gi, ctx, ls, rows0, pos + 1));
            }
        }
        pos = pos + 1;
    }
    proof {
        assert(first_comment_underflow_at(gi, ctx, ls, rows0, 0) == ls.len() as int);
    }
    Ok(())
}

/// Operator alignment: after the operator pass under width tables freshly
/// computed from the same rows, any two statement rows that resolve to the
/// same width bucket carry their operator at the same byte position.  The
/// padded row ends exactly at the bucket's width `w` — the length of the
/// bucket's longest pre-operator row — so the space of the operator sits at
/// index `w` and the `=` itself at index `w + 1`, one past the widest
/// left-hand column, in both rows.
pub proof fn lemma_operator_alignment(
    gi: GroupingInfoV,
    context: SpacingContext,
    ls: Seq<LineV>,
    rows: Seq<Seq<u8>>,
    p: int,
    q: int,
)
    requires
        gi == grouping_info_spec(rows, ls),
        rows.len() == ls.len(),
        forall|k: int| 0 <= k < rows.len() ==> #[trigger] rows[k].len() <= usize::MAX,
        0 <= p < ls.len(),
        0 <= q < ls.len(),
        ls[p] is Sectioned,
        ls[q] is Sectioned,
        resolved_sizes(gi, context, ls[p].rec()) is Some,
        resolved_sizes(gi, context, ls[p].rec()) == resolved_sizes(gi, context, ls[q].rec()),
    ensures
        ({
            let w = resolved_sizes(gi, context, ls[p].rec())->Some_0.max_len as int;
            let out = mid_rows(gi, context, ls, rows);
            &&& out[p][w] == SPACE
            &&& out[p][w + 1] == EQUALS
            &&& out[q][w] == SPACE
            &&& out[q][w + 1] == EQUALS
            &&& forall|j: int| rows[p].len() <= j < w ==> #[trigger] out[p][j] == SPACE
        }),
{
    lemma_sectioned_pad_safe(gi, context, rows, ls, p);
    lemma_sectioned_pad_safe(gi, context, rows, ls, q);
    let w = resolved_sizes(gi, context, ls[p].rec())->Some_0.max_len as int;
    let out = mid_rows(gi, context, ls, rows);
    assert(padded_row(rows[p], resolved_sizes(gi, context, ls[p].rec())).len() == w);
    assert(padded_row(rows[q], resolved_sizes(gi, context, ls[q].rec())).len() == w);
    assert(out[p] == padded_row(rows[p], resolved_sizes(gi, context, ls[p].rec()))
        + mid_suffix(ls[p].rec()));
    assert(out[p][w] == SPACE);
    assert(out[p][w + 1] == EQUALS);
    assert(out[q][w] == SPACE);
    assert(out[q][w + 1] == EQUALS);
}

/// Comment alignment: after the comment pass under width tables freshly
/// computed from the same rows, any two accepted comment-carrying rows that
/// resolve to the same width bucket carry their comment marker at the same
/// byte position: the one-space gap sits at the bucket's width `w` — the
/// length of the bucket's longest pre-comment row — and the marker text
/// starts at index `w + 1` in both rows.
pub proof fn lemma_comment_alignment(
    gi: GroupingInfoV,
    context: SpacingContext,
    ls: Seq<LineV>,
    rows: Seq<Seq<u8>>,
    p: int,
    q: int,
)
    requires
        gi == grouping_info_spec(rows, ls),
        rows.len() == ls.len(),
        0 <= p < ls.len(),
        0 <= q < ls.len(),
        takes_comment_pass(ls[p]),
        takes_comment_pass(ls[q]),
        comment_ok_at(gi, context, ls, rows, p),
        comment_ok_at(gi, context, ls, rows, q),
        resolved_sizes(gi, context, ls[p].rec()) is Some,
        resolved_sizes(gi, context, ls[p].rec()) == resolved_sizes(gi, context, ls[q].rec()),
    ensures
        ({
            let w = resolved_sizes(gi, context, ls[p].rec())->Some_0.max_len as int;
            let hp = ls[p].rec().comment_hashes->Some_0;
            let hq = ls[q].rec().comment_hashes->Some_0;
            let out_p = comment_row(gi, context, ls[p], rows[p]);
            let out_q = comment_row(gi, context, ls[q], rows[q]);
            &&& out_p[w] == SPACE
            &&& out_q[w] == SPACE
            &&& out_p.subrange(w + 1, w + 1 + hp.len()) == hp
            &&& out_q.subrange(w + 1, w + 1 + hq.len()) == hq
        }),
{
    let w = resolved_sizes(gi, context, ls[p].rec())->Some_0.max_len as int;
    let hp = ls[p].rec().comment_hashes->Some_0;
    let hq = ls[q].rec().comment_hashes->Some_0;
    let out_p = comment_row(gi, context, ls[p], rows[p]);
    let out_q = comment_row(gi, context, ls[q], rows[q]);
    assert(padded_row(rows[p], resolved_sizes(gi, context, ls[p].rec())).len() == w);
    assert(padded_row(rows[q], resolved_sizes(gi, context, ls[q].rec())).len() == w);
    assert(out_p[w] == SPACE);
    assert(out_q[w] == SPACE);
    assert(out_p.subrange(w + 1, w + 1 + hp.len()) =~= hp);
    assert(out_q.subrange(w + 1, w + 1 + hq.len()) =~= hq);
}

/// The rendered text of a classified line sequence under a configuration,
/// or the position refused by the comment pass.
pub open spec fn format_lines_spec(ls: Seq<LineV>, config: Config) -> Result<
    Seq<u8>,
    TableError,
> {
    let rows0 = init_rows(config, ls);
    let gi1 = grouping_info_spec(rows0, ls);
    let rows1 = mid_rows(gi1, config.eq_spacing_context, ls, rows0);
    let rows2 = rhs_rows(ls, rows1);
    let gi2 = grouping_info_spec(rows2, ls);
    let ctx = config.comment_spacing_context;
    let fb = first_comment_underflow_at(gi2, ctx, ls, rows2, 0);
    if fb == ls.len() {
        Ok(render_rows(comment_rows_upto(gi2, ctx, ls, rows2, ls.len() as int)))
    } else {
        Err(TableError::WidthUnderflow(fb as usize))
    }
}

/// Render a classified line sequence: build the starting rows, then run the
/// operator, right-hand-side and comment passes, and assemble the text.
pub fn format_lines(lines: Vec<Line>, config: Config) -> (r: Result<Vec<u8>, TableError>)
    ensures
        match r {
            Ok(out) => format_lines_spec(lines_view(lines@), config) == Ok::<_, TableError>(
                out@,
            ),
            Err(e) => format_lines_spec(lines_view(lines@), config) == Err::<Seq<u8>, _>(e),
        },
{
    let ghost ls = lines_view(lines@);
    let mut table = Table::new(config, lines);
    match update_mid_column(config, &mut table) {
        Ok(_) => {},
        Err(e) => {
            proof {
                assert(false);
            }
            return Err(e);
        },
    }
    match update_rhs_column(&mut table) {
        Ok(_) => {},
        Err(e) => {
            proof {
                assert(false);
            }
            return Err(e);
        },
    }
    match update_comment_column(config, &mut table) {
        Ok(_) => {},
        Err(e) => {
            return Err(e);
        },
    }
    Ok(table.format())
}

} // verus!
