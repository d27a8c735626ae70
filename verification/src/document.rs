//! The neutral document model: blocks of styled lines, and what each block
//! contributes to the page.
//!
//! A document says what a span of text means, never how it looks. Two kinds of
//! block need treatment before they can be drawn. A table carries its cells and
//! leaves their alignment to the reader of the document. A quote arrives with a
//! bar character in front of each line, which a drawn rule replaces.
use crate::strings::{find_char, lemma_find, texts, trim_start_of, without_prefix, CharClass};
use crate::text::Align;
use vstd::prelude::*;
use vstd::string::StringExecFns;

verus! {

/// What a span of text means.
#[derive(Clone, Copy, Debug, PartialEq, Eq, Structural)]
pub enum StyleRole {
    Text,
    Dim,
    Strong,
    Code,
    Link,
    Html,
    Reasoning,
    Math,
}

/// What is painted behind a span of text.
#[derive(Clone, Copy, Debug, PartialEq, Eq, Structural)]
pub enum FillRole {
    Bare,
    Code,
}

/// The attributes of a span of text.
#[derive(Clone, Copy, Debug, PartialEq, Eq, Structural)]
pub struct TextAttrs {
    pub bold: bool,
    pub italic: bool,
    pub underline: bool,
    pub strikethrough: bool,
}

/// No attribute set.
pub open spec fn plain_attrs() -> TextAttrs {
    TextAttrs { bold: false, italic: false, underline: false, strikethrough: false }
}

/// Nothing but bold.
pub open spec fn bold_attrs() -> TextAttrs {
    TextAttrs { bold: true, italic: false, underline: false, strikethrough: false }
}

impl TextAttrs {
    /// No attribute set.
    pub fn none() -> (attrs: Self)
        ensures
            attrs == plain_attrs(),
    {
        TextAttrs { bold: false, italic: false, underline: false, strikethrough: false }
    }
}

/// A run of text with one meaning.
#[derive(Clone, Debug, PartialEq, Eq)]
pub struct StyledSpan {
    pub text: String,
    pub role: StyleRole,
    pub fill: FillRole,
    pub attrs: TextAttrs,
}

/// The view of a [`StyledSpan`].
pub struct SpanView {
    pub text: Seq<char>,
    pub role: StyleRole,
    pub fill: FillRole,
    pub attrs: TextAttrs,
}

impl View for StyledSpan {
    type V = SpanView;

    open spec fn view(&self) -> SpanView {
        SpanView { text: self.text@, role: self.role, fill: self.fill, attrs: self.attrs }
    }
}

/// A span of body text with the given attributes.
pub open spec fn body_span(text: Seq<char>, attrs: TextAttrs) -> SpanView {
    SpanView { text, role: StyleRole::Text, fill: FillRole::Bare, attrs }
}

impl StyledSpan {
    /// Body text without attributes.
    pub fn plain(text: String) -> (span: Self)
        ensures
            span@ == body_span(text@, plain_attrs()),
    {
        StyledSpan { text, role: StyleRole::Text, fill: FillRole::Bare, attrs: TextAttrs::none() }
    }

    /// The same span with other attributes.
    pub fn with_attrs(self, attrs: TextAttrs) -> (span: Self)
        ensures
            span@ == (SpanView { attrs, ..self@ }),
    {
        StyledSpan { text: self.text, role: self.role, fill: self.fill, attrs }
    }

    fn copied(&self) -> (copy: Self)
        ensures
            copy@ == self@,
    {
        StyledSpan {
            text: self.text.clone(),
            role: self.role,
            fill: self.fill,
            attrs: self.attrs,
        }
    }
}

/// One line of a block.
#[derive(Clone, Debug, PartialEq, Eq)]
pub struct StyledLine {
    pub spans: Vec<StyledSpan>,
    pub alignment: Align,
}

/// The view of a [`StyledLine`].
pub struct LineView {
    pub spans: Seq<SpanView>,
    pub alignment: Align,
}

/// The views of a sequence of spans.
pub open spec fn span_views(spans: Seq<StyledSpan>) -> Seq<SpanView> {
    Seq::new(spans.len(), |i: int| spans[i]@)
}

impl View for StyledLine {
    type V = LineView;

    open spec fn view(&self) -> LineView {
        LineView { spans: span_views(self.spans@), alignment: self.alignment }
    }
}

/// The text of `spans`, one behind the other.
pub open spec fn spans_text(spans: Seq<SpanView>) -> Seq<char>
    decreases spans.len(),
{
    if spans.len() == 0 {
        Seq::empty()
    } else {
        spans_text(spans.drop_last()) + spans.last().text
    }
}

impl StyledLine {
    /// A line of these spans, aligned as text is by default.
    pub fn from_spans(spans: Vec<StyledSpan>) -> (line: Self)
        ensures
            line@ == (LineView { spans: span_views(spans@), alignment: Align::Start }),
    {
        StyledLine { spans, alignment: Align::Start }
    }

    /// The text of the line without its styling.
    pub fn plain_text(&self) -> (text: String)
        ensures
            text@ == spans_text(self@.spans),
    {
        let mut text = String::new();
        let mut i: usize = 0;
        while i < self.spans.len()
            invariant
                i <= self.spans.len(),
                text@ == spans_text(self@.spans.take(i as int)),
            decreases self.spans.len() - i,
        {
            let ghost done = self@.spans.take(i + 1);
            assert(done.drop_last() =~= self@.spans.take(i as int));
            text.append(self.spans[i].text.as_str());
            i = i + 1;
        }
        assert(self@.spans.take(i as int) =~= self@.spans);
        text
    }
}

/// What a block of a document is.
#[derive(Clone, Debug, PartialEq, Eq)]
pub enum BlockKind {
    Paragraph,
    Heading { level: u8 },
    CodeBlock { language: Option<String> },
    BlockQuote,
    List,
    Table,
    MathDisplay,
    Rule,
    Html,
}

impl BlockKind {
    /// The same kind once more.
    pub fn copied(&self) -> (copy: Self)
        ensures
            copy == *self,
    {
        match self {
            BlockKind::Paragraph => BlockKind::Paragraph,
            BlockKind::Heading { level } => BlockKind::Heading { level: *level },
            BlockKind::CodeBlock { language } => BlockKind::CodeBlock {
                language: match language {
                    Some(name) => Some(name.clone()),
                    None => None,
                },
            },
            BlockKind::BlockQuote => BlockKind::BlockQuote,
            BlockKind::List => BlockKind::List,
            BlockKind::Table => BlockKind::Table,
            BlockKind::MathDisplay => BlockKind::MathDisplay,
            BlockKind::Rule => BlockKind::Rule,
            BlockKind::Html => BlockKind::Html,
        }
    }
}

/// One block of a document. A table holds its cells, row by row; every other
/// kind holds its lines.
#[derive(Clone, Debug, PartialEq, Eq)]
pub struct Block {
    pub kind: BlockKind,
    pub lines: Vec<StyledLine>,
    pub table: Vec<Vec<String>>,
}

/// The view of a [`Block`].
pub struct BlockView {
    pub kind: BlockKind,
    pub lines: Seq<LineView>,
    pub table: Seq<Seq<Seq<char>>>,
}

/// The views of a sequence of lines.
pub open spec fn line_views(lines: Seq<StyledLine>) -> Seq<LineView> {
    Seq::new(lines.len(), |i: int| lines[i]@)
}

/// The cells of a table as texts.
pub open spec fn cells(rows: Seq<Vec<String>>) -> Seq<Seq<Seq<char>>> {
    Seq::new(rows.len(), |r: int| texts(rows[r]@))
}

impl View for Block {
    type V = BlockView;

    open spec fn view(&self) -> BlockView {
        BlockView {
            kind: self.kind,
            lines: line_views(self.lines@),
            table: cells(self.table@),
        }
    }
}

/// A parsed document.
#[derive(Clone, Debug, PartialEq, Eq)]
pub struct Document {
    pub blocks: Vec<Block>,
}

impl View for Document {
    type V = Seq<BlockView>;

    open spec fn view(&self) -> Seq<BlockView> {
        Seq::new(self.blocks@.len(), |i: int| self.blocks@[i]@)
    }
}

/// The bar that marks a quoted line on a terminal.
pub const QUOTE_BAR: char = '\u{2502}';

/// `spans` without a leading quote bar: where the first span holds a bar, it
/// loses the bars and spaces in front, and goes altogether when nothing is left.
pub open spec fn without_bar(spans: Seq<SpanView>) -> Seq<SpanView> {
    if spans.len() > 0 && spans[0].text.contains(QUOTE_BAR) {
        let rest = without_prefix(spans[0].text, CharClass::Either(QUOTE_BAR, ' '));
        if rest.len() == 0 {
            spans.drop_first()
        } else {
            spans.update(0, SpanView { text: rest, ..spans[0] })
        }
    } else {
        spans
    }
}

fn has_char(text: &str, c: char) -> (found: bool)
    ensures
        found == text@.contains(c),
{
    proof {
        lemma_find(text@, c);
    }
    find_char(text, c).is_some()
}

/// Drop the leading terminal quote bar from a quoted line.
pub fn strip_quote_bar(spans: &[StyledSpan]) -> (bare: Vec<StyledSpan>)
    ensures
        span_views(bare@) == without_bar(span_views(spans@)),
{
    let mut bare: Vec<StyledSpan> = Vec::new();
    let mut i: usize = 0;
    let len = spans.len();
    let barred = len > 0 && has_char(spans[0].text.as_str(), QUOTE_BAR);
    if barred {
        let rest = trim_start_of(spans[0].text.as_str(), CharClass::Either(QUOTE_BAR, ' '));
        if rest.unicode_len() > 0 {
            bare.push(
                StyledSpan {
                    text: rest.to_owned(),
                    role: spans[0].role,
                    fill: spans[0].fill,
                    attrs: spans[0].attrs,
                },
            );
        }
        i = 1;
    }
    let ghost whole = without_bar(span_views(spans@));
    let ghost missing = len - whole.len();
    assert(span_views(bare@) =~= whole.take(i - missing));
    while i < len
        invariant
            len == spans@.len(),
            i <= len,
            whole == without_bar(span_views(spans@)),
            missing == len - whole.len(),
            0 <= missing <= i,
            forall|k: int| i <= k < len ==> whole[k - missing] == (#[trigger] spans@[k])@,
            span_views(bare@) == whole.take(i - missing),
        decreases len - i,
    {
        let ghost before = bare@;
        bare.push(spans[i].copied());
        assert(span_views(bare@) =~= span_views(before).push(spans@[i as int]@));
        assert(whole[i - missing] == spans@[i as int]@);
        assert(span_views(bare@) =~= whole.take(i + 1 - missing));
        i = i + 1;
    }
    assert(whole.take(i - missing) =~= whole);
    bare
}

/// Columns that a text takes on a grid of fixed-width cells, as the
/// `unicode_width` crate counts them.
pub uninterp spec fn display_width(text: Seq<char>) -> nat;

/// `unicode_width::UnicodeWidthStr::width`: how many columns `text` takes, which
/// its characters alone decide.
#[verifier::external_body]
fn width_of(text: &str) -> (width: usize)
    ensures
        width == display_width(text@),
{
    unicode_width::UnicodeWidthStr::width(text)
}

/// The number of columns of a table: the length of its longest row.
pub open spec fn column_count<A>(rows: Seq<Seq<A>>) -> nat
    decreases rows.len(),
{
    if rows.len() == 0 {
        0
    } else {
        let before = column_count(rows.drop_last());
        if before < rows.last().len() {
            rows.last().len()
        } else {
            before
        }
    }
}

/// The widths of the cells of a table, as they are displayed.
pub open spec fn displayed(rows: Seq<Seq<Seq<char>>>) -> Seq<Seq<nat>> {
    Seq::new(
        rows.len(),
        |r: int| Seq::new(rows[r].len(), |column: int| display_width(rows[r][column])),
    )
}

/// The width of a column, given the widths of all cells: that of its widest cell.
pub open spec fn column_width(widths: Seq<Seq<nat>>, column: int) -> nat
    decreases widths.len(),
{
    if widths.len() == 0 {
        0
    } else {
        let before = column_width(widths.drop_last(), column);
        if column < widths.last().len() && before < widths.last()[column] {
            widths.last()[column]
        } else {
            before
        }
    }
}

/// The widths of all columns, from left to right.
pub open spec fn column_widths(widths: Seq<Seq<nat>>) -> Seq<nat> {
    Seq::new(column_count(widths), |column: int| column_width(widths, column))
}

/// The cell of a row in a column; a row that is too short has an empty one.
pub open spec fn cell_at(row: Seq<Seq<char>>, column: int) -> Seq<char> {
    if column < row.len() {
        row[column]
    } else {
        Seq::empty()
    }
}

/// How wide that cell is, given the widths of the row's cells; an empty one takes
/// no space.
pub open spec fn cell_width(row_widths: Seq<nat>, column: int) -> nat {
    if column < row_widths.len() {
        row_widths[column]
    } else {
        0
    }
}

/// The spaces behind a cell in a column that others follow: up to the width of
/// the column, and two more.
pub open spec fn padding(taken: nat, width: nat) -> nat {
    if taken < width {
        (width - taken + 2) as nat
    } else {
        2
    }
}

/// The first `upto` cells of a row, each but that of the last column padded.
pub open spec fn row_text(
    row: Seq<Seq<char>>,
    row_widths: Seq<nat>,
    columns: Seq<nat>,
    upto: int,
) -> Seq<char>
    decreases upto,
{
    if upto <= 0 {
        Seq::empty()
    } else {
        let text = row_text(row, row_widths, columns, upto - 1) + cell_at(row, upto - 1);
        if upto < columns.len() {
            text + Seq::new(
                padding(cell_width(row_widths, upto - 1), columns[upto - 1]),
                |i: int| ' ',
            )
        } else {
            text
        }
    }
}

/// The line that row `r` of a table becomes, given the widths of all cells. The
/// first row heads the table.
pub open spec fn table_line_from(
    rows: Seq<Seq<Seq<char>>>,
    widths: Seq<Seq<nat>>,
    r: int,
) -> LineView {
    let columns = column_widths(widths);
    let text = row_text(rows[r], widths[r], columns, columns.len() as int);
    LineView {
        spans: seq![body_span(text, if r == 0 { bold_attrs() } else { plain_attrs() })],
        alignment: Align::Start,
    }
}

/// The line that row `r` of a table becomes.
pub open spec fn table_line(rows: Seq<Seq<Seq<char>>>, r: int) -> LineView {
    table_line_from(rows, displayed(rows), r)
}

/// Measured widths, as numbers.
pub open spec fn numbers(widths: Seq<usize>) -> Seq<nat> {
    Seq::new(widths.len(), |i: int| widths[i] as nat)
}

/// The measured widths of a table's cells, as numbers.
pub open spec fn grid(widths: Seq<Vec<usize>>) -> Seq<Seq<nat>> {
    Seq::new(widths.len(), |r: int| numbers(widths[r]@))
}

fn count_columns(widths: &[Vec<usize>]) -> (columns: usize)
    ensures
        columns == column_count(grid(widths@)),
{
    let mut columns: usize = 0;
    let mut r: usize = 0;
    let len = widths.len();
    while r < len
        invariant
            len == widths@.len(),
            r <= len,
            columns == column_count(grid(widths@).take(r as int)),
        decreases len - r,
    {
        let ghost done = grid(widths@).take(r + 1);
        assert(done.drop_last() =~= grid(widths@).take(r as int));
        if columns < widths[r].len() {
            columns = widths[r].len();
        }
        r = r + 1;
    }
    assert(grid(widths@).take(r as int) =~= grid(widths@));
    columns
}

fn widest_in_column(widths: &[Vec<usize>], column: usize) -> (width: usize)
    ensures
        width == column_width(grid(widths@), column as int),
{
    let mut width: usize = 0;
    let mut r: usize = 0;
    let len = widths.len();
    while r < len
        invariant
            len == widths@.len(),
            r <= len,
            width == column_width(grid(widths@).take(r as int), column as int),
        decreases len - r,
    {
        let ghost done = grid(widths@).take(r + 1);
        assert(done.drop_last() =~= grid(widths@).take(r as int));
        if column < widths[r].len() && width < widths[r][column] {
            width = widths[r][column];
        }
        r = r + 1;
    }
    assert(grid(widths@).take(r as int) =~= grid(widths@));
    width
}

fn push_spaces(text: &mut String, count: usize)
    ensures
        final(text)@ == old(text)@ + Seq::new(count as nat, |i: int| ' '),
{
    let ghost before = text@;
    let mut i: usize = 0;
    assert(text@ =~= before + Seq::new(0, |i: int| ' '));
    while i < count
        invariant
            i <= count,
            text@ == before + Seq::new(i as nat, |i: int| ' '),
        decreases count - i,
    {
        text.push(' ');
        i = i + 1;
        assert(text@ =~= before + Seq::new(i as nat, |i: int| ' '));
    }
}

fn write_row(row: &Vec<String>, row_widths: &Vec<usize>, columns: &Vec<usize>) -> (text: String)
    requires
        row_widths@.len() == row@.len(),
    ensures
        text@ == row_text(
            texts(row@),
            numbers(row_widths@),
            numbers(columns@),
            columns@.len() as int,
        ),
{
    let ghost measured = numbers(columns@);
    let mut text = String::new();
    let mut column: usize = 0;
    let count = columns.len();
    while column < count
        invariant
            row_widths@.len() == row@.len(),
            count == columns@.len(),
            column <= count,
            measured == numbers(columns@),
            text@ == row_text(texts(row@), numbers(row_widths@), measured, column as int),
        decreases count - column,
    {
        let mut taken: usize = 0;
        let ghost before = text@;
        if column < row.len() {
            text.append(row[column].as_str());
            taken = row_widths[column];
        }
        assert(text@ =~= before + cell_at(texts(row@), column as int));
        if column + 1 < count {
            let ghost written = text@;
            let ghost pad = padding(taken as nat, measured[column as int]);
            if taken < columns[column] {
                push_spaces(&mut text, columns[column] - taken);
            }
            push_spaces(&mut text, 2);
            assert(text@ =~= written + Seq::new(pad, |i: int| ' '));
        }
        column = column + 1;
    }
    text
}

/// Lay a table out as aligned columns, given how wide each cell is: each cell is
/// padded to the width of its column, so that every row starts its next cell at
/// the same place.
pub fn table_lines_from(rows: &[Vec<String>], cell_widths: &[Vec<usize>]) -> (lines: Vec<
    StyledLine,
>)
    requires
        cell_widths@.len() == rows@.len(),
        forall|r: int|
            0 <= r < rows@.len() ==> (#[trigger] cell_widths@[r])@.len() == rows@[r]@.len(),
    ensures
        lines@.len() == rows@.len(),
        forall|r: int|
            0 <= r < rows@.len() ==> (#[trigger] lines@[r])@ == table_line_from(
                cells(rows@),
                grid(cell_widths@),
                r,
            ),
{
    let count = count_columns(cell_widths);
    let mut columns: Vec<usize> = Vec::new();
    while columns.len() < count
        invariant
            columns@.len() <= count,
            forall|c: int|
                0 <= c < columns@.len() ==> #[trigger] columns@[c] == column_width(
                    grid(cell_widths@),
                    c,
                ),
        decreases count - columns.len(),
    {
        let width: usize = widest_in_column(cell_widths, columns.len());
        columns.push(width);
    }
    assert(numbers(columns@) =~= column_widths(grid(cell_widths@)));
    let mut lines: Vec<StyledLine> = Vec::new();
    let len = rows.len();
    while lines.len() < len
        invariant
            len == rows@.len(),
            cell_widths@.len() == len,
            forall|r: int|
                0 <= r < len ==> (#[trigger] cell_widths@[r])@.len() == rows@[r]@.len(),
            lines@.len() <= len,
            numbers(columns@) == column_widths(grid(cell_widths@)),
            forall|r: int|
                0 <= r < lines@.len() ==> (#[trigger] lines@[r])@ == table_line_from(
                    cells(rows@),
                    grid(cell_widths@),
                    r,
                ),
        decreases len - lines.len(),
    {
        let r = lines.len();
        assert(cell_widths@[r as int]@.len() == rows@[r as int]@.len());
        let mut span = StyledSpan::plain(write_row(&rows[r], &cell_widths[r], &columns));
        if r == 0 {
            span =
            span.with_attrs(
                TextAttrs { bold: true, italic: false, underline: false, strikethrough: false },
            );
        }
        let line = StyledLine::from_spans(vec![span]);
        assert(numbers(columns@).len() == columns@.len());
        assert(line@.spans =~= table_line_from(
            cells(rows@),
            grid(cell_widths@),
            r as int,
        ).spans);
        lines.push(line);
    }
    lines
}

/// How wide each cell of a row is displayed.
fn measure_row(row: &Vec<String>) -> (widths: Vec<usize>)
    ensures
        widths@.len() == row@.len(),
        forall|c: int|
            0 <= c < row@.len() ==> #[trigger] widths@[c] == display_width(row@[c]@),
{
    let mut widths: Vec<usize> = Vec::new();
    while widths.len() < row.len()
        invariant
            widths@.len() <= row@.len(),
            forall|c: int|
                0 <= c < widths@.len() ==> #[trigger] widths@[c] == display_width(row@[c]@),
        decreases row.len() - widths.len(),
    {
        let width: usize = width_of(row[widths.len()].as_str());
        widths.push(width);
    }
    widths
}

/// Lay a table out as aligned columns: each cell is padded to the width of its
/// column, so that every row starts its next cell at the same place.
pub fn table_lines(rows: &[Vec<String>]) -> (lines: Vec<StyledLine>)
    ensures
        lines@.len() == rows@.len(),
        forall|r: int| 0 <= r < rows@.len() ==> (#[trigger] lines@[r])@ == table_line(
            cells(rows@),
            r,
        ),
{
    let mut widths: Vec<Vec<usize>> = Vec::new();
    let len = rows.len();
    while widths.len() < len
        invariant
            len == rows@.len(),
            widths@.len() <= len,
            forall|r: int|
                0 <= r < widths@.len() ==> numbers((#[trigger] widths@[r])@) == displayed(
                    cells(rows@),
                )[r],
        decreases len - widths.len(),
    {
        let r = widths.len();
        let row = measure_row(&rows[r]);
        assert(numbers(row@) =~= displayed(cells(rows@))[r as int]);
        widths.push(row);
    }
    assert(grid(widths@) =~= displayed(cells(rows@)));
    assert forall|r: int| 0 <= r < len implies (#[trigger] widths@[r])@.len()
        == rows@[r]@.len() by {
        assert(numbers(widths@[r]@).len() == displayed(cells(rows@))[r].len());
    }
    table_lines_from(rows, widths.as_slice())
}

/// The lines that a block contributes to the page.
pub open spec fn drawn_lines(block: BlockView) -> Seq<LineView> {
    if block.kind is Table && block.lines.len() == 0 {
        Seq::new(block.table.len(), |r: int| table_line(block.table, r))
    } else if block.kind is BlockQuote {
        Seq::new(
            block.lines.len(),
            |i: int|
                LineView {
                    spans: without_bar(block.lines[i].spans),
                    alignment: block.lines[i].alignment,
                },
        )
    } else {
        block.lines
    }
}

/// The styled lines a block contributes: the rows of a table, a quote without
/// its bars, and every other block as it stands.
pub fn block_lines(block: &Block) -> (lines: Vec<StyledLine>)
    ensures
        line_views(lines@) == drawn_lines(block@),
{
    if matches!(block.kind, BlockKind::Table) && block.lines.len() == 0 {
        let lines = table_lines(block.table.as_slice());
        assert(line_views(lines@) =~= drawn_lines(block@));
        return lines;
    }
    let quoted = matches!(block.kind, BlockKind::BlockQuote);
    let mut lines: Vec<StyledLine> = Vec::new();
    while lines.len() < block.lines.len()
        invariant
            lines@.len() <= block.lines@.len(),
            quoted == (block.kind is BlockQuote),
            forall|i: int|
                0 <= i < lines@.len() ==> (#[trigger] lines@[i])@ == (if quoted {
                    LineView {
                        spans: without_bar(block.lines@[i]@.spans),
                        alignment: block.lines@[i]@.alignment,
                    }
                } else {
                    block.lines@[i]@
                }),
        decreases block.lines.len() - lines.len(),
    {
        let line = &block.lines[lines.len()];
        let spans = if quoted {
            strip_quote_bar(line.spans.as_slice())
        } else {
            copy_spans(line.spans.as_slice())
        };
        lines.push(StyledLine { spans, alignment: line.alignment });
    }
    assert(line_views(lines@) =~= drawn_lines(block@));
    lines
}

fn copy_spans(spans: &[StyledSpan]) -> (copies: Vec<StyledSpan>)
    ensures
        span_views(copies@) == span_views(spans@),
{
    let mut copies: Vec<StyledSpan> = Vec::new();
    let len = spans.len();
    while copies.len() < len
        invariant
            len == spans@.len(),
            copies@.len() <= len,
            forall|i: int| 0 <= i < copies@.len() ==> (#[trigger] copies@[i])@ == spans@[i]@,
        decreases len - copies.len(),
    {
        copies.push(spans[copies.len()].copied());
    }
    assert(span_views(copies@) =~= span_views(spans@));
    copies
}

/// Where the cell of a row in a column starts: behind the cells before it and
/// their padding.
pub open spec fn cell_start(row_widths: Seq<nat>, columns: Seq<nat>, column: int) -> nat
    decreases column,
{
    if column <= 0 {
        0
    } else {
        cell_start(row_widths, columns, column - 1) + cell_width(row_widths, column - 1) + padding(
            cell_width(row_widths, column - 1),
            columns[column - 1],
        )
    }
}

/// Where a column starts: behind the columns before it, with two spaces behind
/// each.
pub open spec fn column_start(columns: Seq<nat>, column: int) -> nat
    decreases column,
{
    if column <= 0 {
        0
    } else {
        column_start(columns, column - 1) + columns[column - 1] + 2
    }
}

/// The cells of a column all start at the same place, whatever the row: behind
/// the widths of the columns before it and two more for each.
pub proof fn law_columns_are_aligned(widths: Seq<Seq<nat>>, r: int, column: int)
    requires
        0 <= r < widths.len(),
        0 <= column < column_count(widths),
    ensures
        cell_start(widths[r], column_widths(widths), column) == column_start(
            column_widths(widths),
            column,
        ),
        cell_width(widths[r], column) <= column_width(widths, column),
    decreases column,
{
    if column > 0 {
        law_columns_are_aligned(widths, r, column - 1);
    }
    if column < widths[r].len() {
        lemma_cell_fits(widths, r, column);
    }
}

/// No cell is wider than its column.
proof fn lemma_cell_fits(widths: Seq<Seq<nat>>, r: int, column: int)
    requires
        0 <= r < widths.len(),
        0 <= column < widths[r].len(),
    ensures
        widths[r][column] <= column_width(widths, column),
    decreases widths.len(),
{
    if r < widths.len() - 1 {
        lemma_cell_fits(widths.drop_last(), r, column);
    }
}

/// The text of a row holds each cell as it is, behind the cells before it and
/// their padding, and is as long as they are: a padded cell takes its own
/// characters and its padding, and the last one no padding.
pub proof fn law_a_row_is_its_cells_and_padding(
    row: Seq<Seq<char>>,
    row_widths: Seq<nat>,
    columns: Seq<nat>,
    column: int,
)
    requires
        0 <= column < columns.len(),
    ensures
        ({
            let before = row_text(row, row_widths, columns, column);
            let after = row_text(row, row_widths, columns, column + 1);
            let cell = cell_at(row, column);
            let pad = if column + 1 < columns.len() {
                padding(cell_width(row_widths, column), columns[column])
            } else {
                0
            };
            &&& after.len() == before.len() + cell.len() + pad
            &&& after.take(before.len() as int) == before
            &&& after.subrange(before.len() as int, (before.len() + cell.len()) as int) == cell
            &&& forall|i: int|
                before.len() + cell.len() <= i < after.len() ==> #[trigger] after[i] == ' '
        }),
{
    let before = row_text(row, row_widths, columns, column);
    let after = row_text(row, row_widths, columns, column + 1);
    let cell = cell_at(row, column);
    assert(after.take(before.len() as int) =~= before);
    assert(after.subrange(before.len() as int, (before.len() + cell.len()) as int) =~= cell);
}

/// A quoted line whose first span is nothing but bars and spaces loses it, and
/// no first span that held a bar starts with one afterwards.
pub proof fn law_quotes_start_without_a_bar(spans: Seq<SpanView>)
    requires
        spans.len() > 0,
        spans[0].text.contains(QUOTE_BAR),
    ensures
        (forall|i: int|
            0 <= i < spans[0].text.len() ==> spans[0].text[i] == QUOTE_BAR || spans[0].text[i]
                == ' ') ==> without_bar(spans) == spans.drop_first(),
        without_bar(spans).len() == spans.len() ==> without_bar(spans)[0].text.len() > 0
            && without_bar(spans)[0].text[0] != QUOTE_BAR && without_bar(spans)[0].text[0] != ' '
            && without_bar(spans).drop_first() == spans.drop_first(),
{
    lemma_bare_start(spans[0].text);
    assert(spans.update(
        0,
        SpanView {
            text: without_prefix(spans[0].text, CharClass::Either(QUOTE_BAR, ' ')),
            ..spans[0]
        },
    ).drop_first() =~= spans.drop_first());
}

proof fn lemma_bare_start(text: Seq<char>)
    ensures
        ({
            let rest = without_prefix(text, CharClass::Either(QUOTE_BAR, ' '));
            &&& rest.len() > 0 ==> rest[0] != QUOTE_BAR && rest[0] != ' '
            &&& (forall|i: int| 0 <= i < text.len() ==> text[i] == QUOTE_BAR || text[i] == ' ')
                ==> rest.len() == 0
        }),
    decreases text.len(),
{
    if text.len() > 0 && (text[0] == QUOTE_BAR || text[0] == ' ') {
        lemma_bare_start(text.drop_first());
        if forall|i: int| 0 <= i < text.len() ==> text[i] == QUOTE_BAR || text[i] == ' ' {
            assert forall|i: int| 0 <= i < text.len() - 1 implies text.drop_first()[i]
                == QUOTE_BAR || text.drop_first()[i] == ' ' by {
                assert(text.drop_first()[i] == text[i + 1]);
            }
        }
    }
}

/// What each block contributes: a block that is neither a quote nor a table
/// without lines exactly its own lines, in order and unchanged, whatever its kind;
/// a table without lines one line for each row; a quote one line for each of its
/// own, aligned as it was.
pub proof fn law_blocks_contribute_their_lines(block: BlockView, i: int)
    ensures
        !(block.kind is BlockQuote) && !(block.kind is Table && block.lines.len() == 0)
            ==> drawn_lines(block) == block.lines,
        block.kind is Table && block.lines.len() == 0 ==> drawn_lines(block).len()
            == block.table.len(),
        block.kind is Table && block.lines.len() == 0 && 0 <= i < block.table.len() ==> drawn_lines(
            block,
        )[i] == table_line(block.table, i),
        block.kind is BlockQuote ==> drawn_lines(block).len() == block.lines.len(),
        block.kind is BlockQuote && 0 <= i < block.lines.len() ==> drawn_lines(block)[i].alignment
            == block.lines[i].alignment && drawn_lines(block)[i].spans == without_bar(
            block.lines[i].spans,
        ),
{
}

/// A quoted line changes only in front, and only where its first span holds a
/// bar: that span then loses its leading bars and spaces and nothing else, and
/// goes where nothing is left of it. All other spans stay as they are.
pub proof fn law_a_quote_loses_only_its_leading_bar(spans: Seq<SpanView>)
    ensures
        spans.len() == 0 || !spans[0].text.contains('\u{2502}') ==> without_bar(spans) == spans,
        spans.len() > 0 && spans[0].text.contains('\u{2502}') ==> exists|off: int|
            #![trigger spans[0].text.skip(off)]
            {
                let text = spans[0].text;
                &&& 0 <= off <= text.len()
                &&& forall|i: int|
                    0 <= i < off ==> #[trigger] text[i] == '\u{2502}' || text[i] == ' '
                &&& off < text.len() ==> text[off] != '\u{2502}' && text[off] != ' '
                &&& off == text.len() ==> without_bar(spans) == spans.drop_first()
                &&& off < text.len() ==> without_bar(spans) == seq![
                    SpanView {
                        text: text.skip(off),
                        role: spans[0].role,
                        fill: spans[0].fill,
                        attrs: spans[0].attrs,
                    },
                ] + spans.drop_first()
            },
{
    if spans.len() > 0 && spans[0].text.contains('\u{2502}') {
        let text = spans[0].text;
        let class = CharClass::Either('\u{2502}', ' ');
        crate::strings::law_trimming_one_end(text, class);
        let rest = without_prefix(text, class);
        let off = text.len() - rest.len();
        assert(rest == text.skip(off));
        assert forall|i: int| 0 <= i < off implies #[trigger] text[i] == '\u{2502}' || text[i]
            == ' ' by {
            assert(crate::strings::in_class(class, text[i]));
        }
        if off < text.len() {
            assert(rest[0] == text[off]);
            assert(without_bar(spans) =~= seq![
                SpanView {
                    text: text.skip(off),
                    role: spans[0].role,
                    fill: spans[0].fill,
                    attrs: spans[0].attrs,
                },
            ] + spans.drop_first());
        }
    }
}

/// The text of spans is their texts, one behind the other.
pub proof fn law_the_text_of_spans(a: Seq<SpanView>, b: Seq<SpanView>)
    ensures
        spans_text(Seq::empty()) == Seq::<char>::empty(),
        a.len() == 1 ==> spans_text(a) == a[0].text,
        spans_text(a + b) == spans_text(a) + spans_text(b),
    decreases b.len(),
{
    if a.len() == 1 {
        assert(spans_text(a.drop_last()) =~= Seq::<char>::empty());
        assert(spans_text(a) =~= a[0].text);
    }
    if b.len() == 0 {
        assert(a + b =~= a);
        assert(spans_text(a) + spans_text(b) =~= spans_text(a));
    } else {
        law_the_text_of_spans(a, b.drop_last());
        assert((a + b).drop_last() =~= a + b.drop_last());
        assert(spans_text(a + b) =~= spans_text(a) + spans_text(b));
    }
}

/// A table has as many columns as its longest row has cells: no row has more, and
/// some row has as many.
pub proof fn law_the_longest_row_counts_the_columns<A>(rows: Seq<Seq<A>>, r: int)
    ensures
        0 <= r < rows.len() ==> rows[r].len() <= column_count(rows),
        rows.len() == 0 ==> column_count(rows) == 0,
        rows.len() > 0 ==> exists|s: int|
            0 <= s < rows.len() && (#[trigger] rows[s]).len() == column_count(rows),
    decreases rows.len(),
{
    if rows.len() > 0 {
        let head = rows.drop_last();
        law_the_longest_row_counts_the_columns(head, r);
        if column_count(head) < rows.last().len() || head.len() == 0 {
            assert(rows[rows.len() - 1].len() == column_count(rows));
        } else {
            let s = choose|s: int|
                0 <= s < head.len() && (#[trigger] head[s]).len() == column_count(head);
            assert(rows[s].len() == column_count(rows));
        }
        if 0 <= r < head.len() {
            assert(head[r] == rows[r]);
        }
    }
}

/// A column is as wide as its widest cell: no cell of it is wider, and some cell
/// is as wide, unless it has no width at all.
pub proof fn law_the_widest_cell_makes_the_column(widths: Seq<Seq<nat>>, r: int, column: int)
    requires
        0 <= column,
    ensures
        0 <= r < widths.len() && column < widths[r].len() ==> widths[r][column] <= column_width(
            widths,
            column,
        ),
        column_width(widths, column) == 0 || exists|s: int|
            0 <= s < widths.len() && column < (#[trigger] widths[s]).len() && widths[s][column]
                == column_width(widths, column),
        column < column_count(widths) ==> column_widths(widths)[column] == column_width(
            widths,
            column,
        ),
        column_widths(widths).len() == column_count(widths),
    decreases widths.len(),
{
    if widths.len() > 0 {
        let head = widths.drop_last();
        law_the_widest_cell_makes_the_column(head, r, column);
        if column_width(widths, column) == column_width(head, column) {
            if column_width(head, column) != 0 {
                let s = choose|s: int|
                    0 <= s < head.len() && column < (#[trigger] head[s]).len() && head[s][column]
                        == column_width(head, column);
                assert(widths[s][column] == column_width(widths, column));
            }
        } else {
            assert(widths[widths.len() - 1][column] == column_width(widths, column));
        }
        if 0 <= r < head.len() {
            assert(head[r] == widths[r]);
        }
    }
}

/// A cell that is not the widest is padded up to the column's width and two more,
/// one that is by two; a row has nothing in a column that it does not reach.
pub proof fn law_padding_and_missing_cells(
    taken: nat,
    width: nat,
    row: Seq<Seq<char>>,
    row_widths: Seq<nat>,
    columns: Seq<nat>,
    column: int,
)
    ensures
        taken <= width ==> taken + padding(taken, width) == width + 2,
        taken >= width ==> padding(taken, width) == 2,
        0 <= column < row.len() ==> cell_at(row, column) == row[column],
        column >= row.len() ==> cell_at(row, column) == Seq::<char>::empty(),
        0 <= column < row_widths.len() ==> cell_width(row_widths, column) == row_widths[column],
        column >= row_widths.len() ==> cell_width(row_widths, column) == 0,
        row_text(row, row_widths, columns, 0) == Seq::<char>::empty(),
{
}

/// A row of a table becomes one span of body text, with all its cells; only the
/// first row is bold.
pub proof fn law_only_the_head_of_a_table_is_bold(
    rows: Seq<Seq<Seq<char>>>,
    widths: Seq<Seq<nat>>,
    r: int,
    column: int,
)
    ensures
        ({
            let line = table_line_from(rows, widths, r);
            &&& line.alignment == Align::Start
            &&& line.spans.len() == 1
            &&& line.spans[0].role == StyleRole::Text
            &&& line.spans[0].fill == FillRole::Bare
            &&& line.spans[0].attrs.bold <==> r == 0
            &&& !line.spans[0].attrs.italic && !line.spans[0].attrs.underline
            &&& !line.spans[0].attrs.strikethrough
            &&& line.spans[0].text == row_text(
                rows[r],
                widths[r],
                column_widths(widths),
                column_count(widths) as int,
            )
        }),
        table_line(rows, r) == table_line_from(rows, displayed(rows), r),
        displayed(rows).len() == rows.len(),
        0 <= r < rows.len() ==> displayed(rows)[r].len() == rows[r].len(),
        0 <= r < rows.len() && 0 <= column < rows[r].len() ==> displayed(rows)[r][column]
            == display_width(rows[r][column]),
{
}

/// The views of spans, lines and blocks say what they hold, one by one.
pub proof fn law_views_say_what_documents_hold(
    span: StyledSpan,
    line: StyledLine,
    block: Block,
    document: Document,
    widths: Seq<Vec<usize>>,
    r: int,
    i: int,
)
    ensures
        span@ == (SpanView {
            text: span.text@,
            role: span.role,
            fill: span.fill,
            attrs: span.attrs,
        }),
        line@.alignment == line.alignment,
        line@.spans.len() == line.spans@.len(),
        0 <= i < line.spans@.len() ==> line@.spans[i] == line.spans@[i]@,
        block@.kind == block.kind,
        block@.lines.len() == block.lines@.len(),
        0 <= i < block.lines@.len() ==> block@.lines[i] == block.lines@[i]@,
        block@.table.len() == block.table@.len(),
        0 <= r < block.table@.len() ==> block@.table[r].len() == block.table@[r]@.len(),
        0 <= r < block.table@.len() && 0 <= i < block.table@[r]@.len() ==> block@.table[r][i]
            == block.table@[r]@[i]@,
        document@.len() == document.blocks@.len(),
        0 <= i < document.blocks@.len() ==> document@[i] == document.blocks@[i]@,
        grid(widths).len() == widths.len(),
        0 <= r < widths.len() ==> grid(widths)[r].len() == widths[r]@.len(),
        0 <= r < widths.len() && 0 <= i < widths[r]@.len() ==> grid(widths)[r][i] == widths[r]@[i],
{
}

} // verus!
