//! Rich text: styled lines flattened into one text with byte ranges, and the
//! properties that each range is drawn with.
//!
//! A paragraph has to be laid out in one piece, or it would break at every
//! change of style. So the spans of a block become one text, and each span
//! keeps the range of bytes that it takes up there.
use crate::document::{line_views, spans_text, FillRole, LineView, SpanView, StyleRole, StyledLine};
use crate::strings::joined;
use crate::text::Align;
use std::ops::Range;
use vstd::prelude::*;
use vstd::string::StringExecFns;
use vstd::utf8::{encode_scalar, encode_utf8};

verus! {

/// A span's byte range within the flattened source, plus its styling.
#[derive(Debug, PartialEq, Eq)]
pub struct SpanStyle {
    pub range: Range<usize>,
    pub role: StyleRole,
    /// What is painted behind the span.
    pub fill: FillRole,
    pub bold: bool,
    pub italic: bool,
    pub underline: bool,
    pub strikethrough: bool,
}

/// The view of a [`SpanStyle`].
pub struct StyleView {
    pub start: nat,
    pub end: nat,
    pub role: StyleRole,
    pub fill: FillRole,
    pub bold: bool,
    pub italic: bool,
    pub underline: bool,
    pub strikethrough: bool,
}

impl View for SpanStyle {
    type V = StyleView;

    open spec fn view(&self) -> StyleView {
        StyleView {
            start: self.range.start as nat,
            end: self.range.end as nat,
            role: self.role,
            fill: self.fill,
            bold: self.bold,
            italic: self.italic,
            underline: self.underline,
            strikethrough: self.strikethrough,
        }
    }
}

/// The views of a sequence of span styles.
pub open spec fn styles(spans: Seq<SpanStyle>) -> Seq<StyleView> {
    Seq::new(spans.len(), |i: int| spans[i]@)
}

/// The bytes that a text takes up.
pub open spec fn size(text: Seq<char>) -> nat {
    encode_utf8(text).len()
}

/// Whether a role is drawn bold by itself.
pub open spec fn is_strong(role: StyleRole) -> bool {
    role == StyleRole::Strong
}

/// The styling of `span` where it stands behind `before`.
pub open spec fn placed(before: Seq<char>, span: SpanView) -> StyleView {
    StyleView {
        start: size(before),
        end: size(before + span.text),
        role: span.role,
        fill: span.fill,
        bold: span.attrs.bold || is_strong(span.role),
        italic: span.attrs.italic,
        underline: span.attrs.underline,
        strikethrough: span.attrs.strikethrough,
    }
}

/// The texts of `lines`.
pub open spec fn line_texts(lines: Seq<LineView>) -> Seq<Seq<char>> {
    Seq::new(lines.len(), |i: int| spans_text(lines[i].spans))
}

/// The text of `lines`, a line feed between each two.
pub open spec fn flat_text(lines: Seq<LineView>) -> Seq<char> {
    joined(line_texts(lines), seq!['\n'])
}

/// What stands before the last of `lines` in their text.
pub open spec fn text_before_last(lines: Seq<LineView>) -> Seq<char> {
    if lines.len() > 1 {
        flat_text(lines.drop_last()) + seq!['\n']
    } else {
        Seq::empty()
    }
}

/// The styling of the spans of one line, which starts behind `before`.
pub open spec fn line_styles(before: Seq<char>, spans: Seq<SpanView>) -> Seq<StyleView> {
    Seq::new(spans.len(), |i: int| placed(before + spans_text(spans.take(i)), spans[i]))
}

/// The styling of all spans of `lines`, in order.
pub open spec fn flat_styles(lines: Seq<LineView>) -> Seq<StyleView>
    decreases lines.len(),
{
    if lines.len() == 0 {
        Seq::empty()
    } else {
        flat_styles(lines.drop_last()) + line_styles(text_before_last(lines), lines.last().spans)
    }
}

/// The spans of `lines`, in order.
pub open spec fn flat_spans(lines: Seq<LineView>) -> Seq<SpanView>
    decreases lines.len(),
{
    if lines.len() == 0 {
        Seq::empty()
    } else {
        flat_spans(lines.drop_last()) + lines.last().spans
    }
}

/// Whether a role is drawn bold by itself.
fn role_is_strong(role: StyleRole) -> (strong: bool)
    ensures
        strong == is_strong(role),
{
    role == StyleRole::Strong
}

proof fn lemma_flat_text_grows(lines: Seq<LineView>)
    requires
        lines.len() > 0,
    ensures
        flat_text(lines) == text_before_last(lines) + spans_text(lines.last().spans),
{
    assert(line_texts(lines).drop_last() =~= line_texts(lines.drop_last()));
    assert(line_texts(lines).last() == spans_text(lines.last().spans));
    assert(flat_text(lines) =~= text_before_last(lines) + spans_text(lines.last().spans));
}

/// Flatten styled lines into one text, with the styling of each span over the
/// bytes that it takes up there.
pub fn flatten(lines: &[StyledLine]) -> (flat: (String, Vec<SpanStyle>))
    ensures
        flat.0@ == flat_text(line_views(lines@)),
        styles(flat.1@) == flat_styles(line_views(lines@)),
{
    let ghost all = line_views(lines@);
    let mut source = String::new();
    let mut spans: Vec<SpanStyle> = Vec::new();
    let mut l: usize = 0;
    let len = lines.len();
    assert(all.take(0) =~= Seq::empty());
    assert(source@ =~= flat_text(all.take(0)));
    assert(styles(spans@) =~= flat_styles(all.take(0)));
    while l < len
        invariant
            len == lines@.len(),
            l <= len,
            all == line_views(lines@),
            source@ == flat_text(all.take(l as int)),
            styles(spans@) == flat_styles(all.take(l as int)),
        decreases len - l,
    {
        let ghost done = all.take(l + 1);
        assert(done.drop_last() =~= all.take(l as int));
        assert(done.last() == lines@[l as int]@);
        if l > 0 {
            source.push('\n');
        }
        let ghost before = source@;
        assert(before =~= text_before_last(done)) by {
            if l == 0 {
                assert(all.take(0) =~= Seq::empty());
            }
        }
        let line = &lines[l];
        let ghost line_spans = line@.spans;
        let ghost earlier = styles(spans@);
        let mut s: usize = 0;
        assert(line_spans.take(0) =~= Seq::empty());
        assert(source@ =~= before + spans_text(line_spans.take(0)));
        assert(styles(spans@) =~= earlier + line_styles(before, line_spans).take(0));
        while s < line.spans.len()
            invariant
                s <= line.spans.len(),
                line_spans == line@.spans,
                source@ == before + spans_text(line_spans.take(s as int)),
                styles(spans@) == earlier + line_styles(before, line_spans).take(s as int),
            decreases line.spans.len() - s,
        {
            let span = &line.spans[s];
            let ghost head = source@;
            let ghost old_styles = styles(spans@);
            let start: usize = source.as_str().as_bytes().len();
            source.append(span.text.as_str());
            let end: usize = source.as_str().as_bytes().len();
            spans.push(
                SpanStyle {
                    range: Range { start, end },
                    role: span.role,
                    fill: span.fill,
                    bold: span.attrs.bold || role_is_strong(span.role),
                    italic: span.attrs.italic,
                    underline: span.attrs.underline,
                    strikethrough: span.attrs.strikethrough,
                },
            );
            proof {
                let now = line_spans.take(s + 1);
                assert(now.drop_last() =~= line_spans.take(s as int));
                assert(source@ =~= before + spans_text(now));
                assert(spans@.last()@ == placed(head, line_spans[s as int]));
                assert(styles(spans@) =~= old_styles.push(placed(head, line_spans[s as int])));
                assert(styles(spans@) =~= earlier + line_styles(before, line_spans).take(s + 1));
            }
            s = s + 1;
        }
        proof {
            assert(line_spans.take(s as int) =~= line_spans);
            assert(line_styles(before, line_spans).take(s as int) =~= line_styles(
                before,
                line_spans,
            ));
            lemma_flat_text_grows(done);
        }
        l = l + 1;
    }
    assert(all.take(l as int) =~= all);
    (source, spans)
}

/// The bytes of a text in two parts are the bytes of the parts.
pub proof fn lemma_bytes_of_parts(a: Seq<char>, b: Seq<char>)
    ensures
        encode_utf8(a + b) == encode_utf8(a) + encode_utf8(b),
    decreases a.len(),
{
    if a.len() == 0 {
        assert(a + b =~= b);
        assert(encode_utf8(a) + encode_utf8(b) =~= encode_utf8(b));
    } else {
        lemma_bytes_of_parts(a.drop_first(), b);
        assert((a + b).drop_first() =~= a.drop_first() + b);
        assert(encode_utf8(a + b) =~= encode_scalar(a[0] as u32) + (encode_utf8(a.drop_first())
            + encode_utf8(b)));
        assert(encode_utf8(a) + encode_utf8(b) =~= encode_scalar(a[0] as u32) + (encode_utf8(
            a.drop_first(),
        ) + encode_utf8(b)));
    }
}

/// A text that stands between two others takes up the bytes between theirs.
proof fn lemma_bytes_in_the_middle(a: Seq<char>, b: Seq<char>, c: Seq<char>)
    ensures
        size(a) <= size(a + b) <= size(a + b + c),
        encode_utf8(a + b + c).subrange(size(a) as int, size(a + b) as int) == encode_utf8(b),
{
    lemma_bytes_of_parts(a, b);
    lemma_bytes_of_parts(a + b, c);
    assert(encode_utf8(a + b + c).subrange(size(a) as int, size(a + b) as int) =~= encode_utf8(b));
}

/// The text of a line has the text of each of its spans behind that of the
/// spans before.
proof fn lemma_spans_text_splits(spans: Seq<SpanView>, i: int)
    requires
        0 <= i < spans.len(),
    ensures
        spans_text(spans.take(i)) + spans[i].text == spans_text(spans.take(i + 1)),
        exists|rest: Seq<char>|
            spans_text(spans) == #[trigger] (spans_text(spans.take(i)) + spans[i].text + rest),
    decreases spans.len(),
{
    assert(spans.take(i + 1).drop_last() =~= spans.take(i));
    if i == spans.len() - 1 {
        assert(spans.take(i + 1) =~= spans);
        assert(spans_text(spans) =~= spans_text(spans.take(i)) + spans[i].text + Seq::empty());
    } else {
        let head = spans.drop_last();
        lemma_spans_text_splits(head, i);
        assert(head.take(i) =~= spans.take(i));
        let rest = choose|rest: Seq<char>|
            spans_text(head) == #[trigger] (spans_text(head.take(i)) + head[i].text + rest);
        assert(spans_text(spans) =~= spans_text(spans.take(i)) + spans[i].text + (rest
            + spans.last().text));
    }
}

/// The range of a span picks the bytes of its text out of the flattened
/// source, and with them its styling is the one that the span was given.
pub proof fn law_ranges_pick_their_spans(lines: Seq<LineView>, k: int)
    requires
        0 <= k < flat_spans(lines).len(),
    ensures
        flat_styles(lines).len() == flat_spans(lines).len(),
        ({
            let style = flat_styles(lines)[k];
            let span = flat_spans(lines)[k];
            let bytes = encode_utf8(flat_text(lines));
            &&& style.start <= style.end <= bytes.len()
            &&& bytes.subrange(style.start as int, style.end as int) == encode_utf8(span.text)
            &&& style.role == span.role
            &&& style.fill == span.fill
            &&& style.bold == (span.attrs.bold || is_strong(span.role))
            &&& style.italic == span.attrs.italic
            &&& style.underline == span.attrs.underline
            &&& style.strikethrough == span.attrs.strikethrough
        }),
    decreases lines.len(),
{
    lemma_as_many_styles_as_spans(lines);
    let head = lines.drop_last();
    lemma_as_many_styles_as_spans(head);
    lemma_flat_text_grows(lines);
    let before = text_before_last(lines);
    let spans = lines.last().spans;
    if k < flat_spans(head).len() {
        law_ranges_pick_their_spans(head, k);
        let style = flat_styles(head)[k];
        assert(flat_styles(lines)[k] == style);
        if head.len() == 0 {
            assert(flat_spans(head).len() == 0);
        }
        let tail = seq!['\n'] + spans_text(spans);
        assert(flat_text(lines) =~= flat_text(head) + tail);
        lemma_bytes_of_parts(flat_text(head), tail);
        assert(encode_utf8(flat_text(lines)).subrange(style.start as int, style.end as int)
            =~= encode_utf8(flat_text(head)).subrange(style.start as int, style.end as int));
    } else {
        let i = k - flat_spans(head).len();
        lemma_spans_text_splits(spans, i);
        let rest = choose|rest: Seq<char>|
            spans_text(spans) == #[trigger] (spans_text(spans.take(i)) + spans[i].text + rest);
        let start = before + spans_text(spans.take(i));
        assert(flat_text(lines) =~= start + spans[i].text + rest);
        lemma_bytes_in_the_middle(start, spans[i].text, rest);
        assert(flat_styles(lines)[k] == line_styles(before, spans)[i]);
    }
}

proof fn lemma_as_many_styles_as_spans(lines: Seq<LineView>)
    ensures
        flat_styles(lines).len() == flat_spans(lines).len(),
    decreases lines.len(),
{
    if lines.len() > 0 {
        lemma_as_many_styles_as_spans(lines.drop_last());
    }
}

/// The ranges of the spans follow one another without overlap.
pub proof fn law_ranges_do_not_overlap(lines: Seq<LineView>, i: int, j: int)
    requires
        0 <= i < j < flat_spans(lines).len(),
    ensures
        flat_styles(lines)[i].end <= flat_styles(lines)[j].start,
    decreases lines.len(),
{
    lemma_as_many_styles_as_spans(lines);
    let head = lines.drop_last();
    lemma_as_many_styles_as_spans(head);
    let before = text_before_last(lines);
    let spans = lines.last().spans;
    let first = flat_spans(head).len();
    if j < first {
        law_ranges_do_not_overlap(head, i, j);
    } else {
        let text = spans_text(spans.take(j - first));
        assert(flat_styles(lines)[j] == line_styles(before, spans)[j - first]);
        if i < first {
            law_ranges_pick_their_spans(head, i);
            assert(before + text =~= flat_text(head) + (seq!['\n'] + text));
            lemma_bytes_of_parts(flat_text(head), seq!['\n'] + text);
        } else {
            let k = i - first;
            let shorter = spans.take(j - first);
            lemma_spans_text_splits(shorter, k);
            let rest = choose|rest: Seq<char>|
                spans_text(shorter) == #[trigger] (spans_text(shorter.take(k)) + shorter[k].text
                    + rest);
            assert(shorter.take(k) =~= spans.take(k));
            let upto = before + spans_text(spans.take(k)) + spans[k].text;
            assert(before + text =~= upto + rest);
            lemma_bytes_of_parts(upto, rest);
            assert(flat_styles(lines)[i] == line_styles(before, spans)[k]);
        }
    }
}

/// The two inks of a theme: for body copy, and for what stands back from it.
#[derive(Clone, Copy, Debug, PartialEq, Eq)]
pub struct Theme<C> {
    pub text: C,
    pub muted: C,
}

/// The roles that stand back from body copy.
pub open spec fn is_quiet(role: StyleRole) -> bool {
    role == StyleRole::Dim || role == StyleRole::Html || role == StyleRole::Reasoning
}

/// The ink of a role in a theme.
pub open spec fn ink<C>(role: StyleRole, theme: Theme<C>) -> C {
    if is_quiet(role) {
        theme.muted
    } else {
        theme.text
    }
}

/// Resolve a role to a colour of the theme. The document says what a span
/// means, and only this function says what colour that is.
pub fn role_color<C: Copy>(role: StyleRole, theme: &Theme<C>) -> (color: C)
    ensures
        color == ink(role, *theme),
{
    match role {
        StyleRole::Text => theme.text,
        StyleRole::Dim => theme.muted,
        StyleRole::Strong => theme.text,
        StyleRole::Code => theme.text,
        StyleRole::Link => theme.text,
        StyleRole::Html => theme.muted,
        StyleRole::Reasoning => theme.muted,
        StyleRole::Math => theme.text,
    }
}

/// How a block's spans get their ink: the theme they resolve against, and an
/// optional override.
#[derive(Clone, Copy, Debug)]
pub struct Palette<'a, C> {
    pub theme: &'a Theme<C>,
    /// Overrides every span's role colour when set, so that a bold word inside
    /// a thought stays in the aside's ink.
    pub tint: Option<C>,
}

/// The ink of a role under a tint that may override it.
pub open spec fn tinted_ink<C>(role: StyleRole, theme: Theme<C>, tint: Option<C>) -> C {
    match tint {
        Some(color) => color,
        None => ink(role, theme),
    }
}

impl<'a, C: Copy> Palette<'a, C> {
    /// The ink of a role.
    pub fn color(&self, role: StyleRole) -> (color: C)
        ensures
            color == tinted_ink(role, *self.theme, self.tint),
    {
        match self.tint {
            Some(color) => color,
            None => role_color(role, self.theme),
        }
    }
}

/// A property that text can be drawn with.
#[derive(Clone, Copy, Debug, PartialEq, Eq)]
pub enum TextProperty<C> {
    Color(C),
    Bold,
    Italic,
    Underline,
    Strikethrough,
}

/// A property over the bytes `start..end` of a text.
#[derive(Clone, Copy, Debug, PartialEq, Eq)]
pub struct StyleRun<C> {
    pub start: usize,
    pub end: usize,
    pub property: TextProperty<C>,
}

/// The properties of one span: its ink, then each attribute that it has.
pub open spec fn properties<C>(style: SpanStyle, color: C) -> Seq<TextProperty<C>> {
    seq![TextProperty::Color(color)] + (if style.bold {
        seq![TextProperty::Bold]
    } else {
        seq![]
    }) + (if style.italic {
        seq![TextProperty::Italic]
    } else {
        seq![]
    }) + (if style.underline {
        seq![TextProperty::Underline]
    } else {
        seq![]
    }) + (if style.strikethrough {
        seq![TextProperty::Strikethrough]
    } else {
        seq![]
    })
}

/// The runs of one span: none where it has no text.
pub open spec fn runs_of<C>(style: SpanStyle, color: C) -> Seq<StyleRun<C>> {
    if style.range.start < style.range.end {
        Seq::new(
            properties(style, color).len(),
            |i: int|
                StyleRun {
                    start: style.range.start,
                    end: style.range.end,
                    property: properties(style, color)[i],
                },
        )
    } else {
        Seq::empty()
    }
}

/// The runs of all spans, in order.
pub open spec fn all_runs<C>(
    spans: Seq<SpanStyle>,
    theme: Theme<C>,
    tint: Option<C>,
) -> Seq<StyleRun<C>>
    decreases spans.len(),
{
    if spans.len() == 0 {
        Seq::empty()
    } else {
        all_runs(spans.drop_last(), theme, tint) + runs_of(
            spans.last(),
            tinted_ink(spans.last().role, theme, tint),
        )
    }
}

/// Adds the runs of one span.
#[verifier::rlimit(40)]
fn push_runs<C: Copy>(runs: &mut Vec<StyleRun<C>>, span: &SpanStyle, color: C)
    ensures
        final(runs)@ == old(runs)@ + runs_of(*span, color),
{
    let ghost before = runs@;
    let start = span.range.start;
    let end = span.range.end;
    if start < end {
        runs.push(StyleRun { start, end, property: TextProperty::Color(color) });
        if span.bold {
            runs.push(StyleRun { start, end, property: TextProperty::Bold });
        }
        if span.italic {
            runs.push(StyleRun { start, end, property: TextProperty::Italic });
        }
        if span.underline {
            runs.push(StyleRun { start, end, property: TextProperty::Underline });
        }
        if span.strikethrough {
            runs.push(StyleRun { start, end, property: TextProperty::Strikethrough });
        }
        assert(runs@ =~= before + runs_of(*span, color));
    } else {
        assert(runs@ =~= before + runs_of(*span, color));
    }
}

/// The properties to draw the spans of a flattened text with. A span without
/// text has none.
pub fn style_runs<C: Copy>(spans: &[SpanStyle], palette: Palette<'_, C>) -> (runs: Vec<
    StyleRun<C>,
>)
    ensures
        runs@ == all_runs(spans@, *palette.theme, palette.tint),
{
    let mut runs: Vec<StyleRun<C>> = Vec::new();
    let mut k: usize = 0;
    let len = spans.len();
    while k < len
        invariant
            len == spans@.len(),
            k <= len,
            runs@ == all_runs(spans@.take(k as int), *palette.theme, palette.tint),
        decreases len - k,
    {
        let ghost done = spans@.take(k + 1);
        assert(done.drop_last() =~= spans@.take(k as int));
        let color = palette.color(spans[k].role);
        push_runs(&mut runs, &spans[k], color);
        k = k + 1;
    }
    assert(spans@.take(k as int) =~= spans@);
    runs
}

/// Under a tint no span is drawn in any other colour.
pub proof fn law_a_tint_colours_everything<C>(
    spans: Seq<SpanStyle>,
    theme: Theme<C>,
    tint: C,
    k: int,
)
    requires
        0 <= k < all_runs(spans, theme, Some(tint)).len(),
    ensures
        all_runs(spans, theme, Some(tint))[k].property matches TextProperty::Color(color) ==> color
            == tint,
    decreases spans.len(),
{
    let before = all_runs(spans.drop_last(), theme, Some(tint));
    if k < before.len() {
        law_a_tint_colours_everything(spans.drop_last(), theme, tint, k);
    }
}

/// A bold span is drawn bold, and so is each other attribute that it has drawn
/// over the bytes of the span.
pub proof fn law_attributes_are_drawn<C>(
    spans: Seq<SpanStyle>,
    theme: Theme<C>,
    tint: Option<C>,
    s: int,
)
    requires
        0 <= s < spans.len(),
        spans[s].range.start < spans[s].range.end,
    ensures
        ({
            let run = |property: TextProperty<C>|
                StyleRun { start: spans[s].range.start, end: spans[s].range.end, property };
            let runs = all_runs(spans, theme, tint);
            &&& runs.contains(run(TextProperty::Color(tinted_ink(spans[s].role, theme, tint))))
            &&& spans[s].bold ==> runs.contains(run(TextProperty::Bold))
            &&& spans[s].italic ==> runs.contains(run(TextProperty::Italic))
            &&& spans[s].underline ==> runs.contains(run(TextProperty::Underline))
            &&& spans[s].strikethrough ==> runs.contains(run(TextProperty::Strikethrough))
        }),
    decreases spans.len(),
{
    let head = all_runs(spans.drop_last(), theme, tint);
    let last = runs_of(spans.last(), tinted_ink(spans.last().role, theme, tint));
    let runs = all_runs(spans, theme, tint);
    if s < spans.len() - 1 {
        law_attributes_are_drawn(spans.drop_last(), theme, tint, s);
        assert forall|run: StyleRun<C>| head.contains(run) implies runs.contains(run) by {
            let i = choose|i: int| 0 <= i < head.len() && head[i] == run;
            assert(runs[i] == run);
        }
    } else {
        let style = spans[s];
        let listed = properties(style, tinted_ink(style.role, theme, tint));
        assert forall|i: int| 0 <= i < listed.len() implies runs.contains(
            StyleRun {
                start: style.range.start,
                end: style.range.end,
                property: #[trigger] listed[i],
            },
        ) by {
            assert(runs[head.len() + i] == last[i]);
        }
        let bold: int = if style.bold { 1 } else { 0 };
        let italic: int = if style.italic { 1 } else { 0 };
        let underline: int = if style.underline { 1 } else { 0 };
        assert(listed[0] == TextProperty::Color(tinted_ink(style.role, theme, tint)));
        assert(style.bold ==> listed[1] == TextProperty::<C>::Bold);
        assert(style.italic ==> listed[1 + bold] == TextProperty::<C>::Italic);
        assert(style.underline ==> listed[1 + bold + italic] == TextProperty::<C>::Underline);
        assert(style.strikethrough ==> listed[1 + bold + italic + underline] == TextProperty::<
            C,
        >::Strikethrough);
    }
}

/// The text of lines is the texts of their spans, with one line feed between each
/// two lines; and their spans are those of each line, in order.
pub proof fn law_lines_are_flattened_in_order(a: Seq<LineView>, b: Seq<LineView>)
    ensures
        flat_text(Seq::empty()) == Seq::<char>::empty(),
        a.len() == 1 ==> flat_text(a) == spans_text(a[0].spans),
        a.len() > 0 && b.len() > 0 ==> flat_text(a + b) == flat_text(a) + seq!['\n'] + flat_text(b),
        flat_spans(Seq::empty()) == Seq::<SpanView>::empty(),
        a.len() == 1 ==> flat_spans(a) == a[0].spans,
        flat_spans(a + b) == flat_spans(a) + flat_spans(b),
    decreases b.len(),
{
    crate::strings::law_joining(line_texts(a), line_texts(b), seq!['\n']);
    assert(line_texts(a + b) =~= line_texts(a) + line_texts(b));
    assert(line_texts(Seq::empty()) =~= Seq::<Seq<char>>::empty());
    if a.len() == 1 {
        assert(flat_spans(a.drop_last()) =~= Seq::<SpanView>::empty());
        assert(flat_spans(a) =~= a[0].spans);
    }
    if b.len() == 0 {
        assert(a + b =~= a);
        assert(flat_spans(a) + flat_spans(b) =~= flat_spans(a));
    } else {
        law_lines_are_flattened_in_order(a, b.drop_last());
        assert((a + b).drop_last() =~= a + b.drop_last());
        assert(flat_spans(a + b) =~= flat_spans(a) + flat_spans(b));
    }
}

/// The spans of one line touch: the first starts where the line does, and each of
/// the others where the one before it ends.
pub proof fn law_the_spans_of_a_line_touch(before: Seq<char>, spans: Seq<SpanView>, i: int)
    requires
        0 <= i < spans.len(),
    ensures
        line_styles(before, spans).len() == spans.len(),
        i == 0 ==> line_styles(before, spans)[i].start == encode_utf8(before).len(),
        i > 0 ==> line_styles(before, spans)[i].start == line_styles(before, spans)[i - 1].end,
        line_styles(before, spans)[i].end == line_styles(before, spans)[i].start + encode_utf8(
            spans[i].text,
        ).len(),
        flat_styles(seq![LineView { spans, alignment: Align::Start }]) == line_styles(
            Seq::empty(),
            spans,
        ),
{
    let head = before + spans_text(spans.take(i));
    lemma_bytes_of_parts(head, spans[i].text);
    if i == 0 {
        assert(spans.take(0) =~= Seq::empty());
        assert(head =~= before);
    } else {
        lemma_spans_text_splits(spans, i - 1);
        let prior = before + spans_text(spans.take(i - 1)) + spans[i - 1].text;
        assert(prior =~= head);
    }
    let one = seq![LineView { spans, alignment: Align::Start }];
    assert(flat_styles(one.drop_last()) =~= Seq::<StyleView>::empty());
    assert(flat_styles(one) =~= line_styles(Seq::empty(), spans));
}

/// Dim text, markup and reasoning are muted; every other role has the ink of body
/// copy. A tint overrides them all, and no tint none of them.
pub proof fn law_inks<C>(role: StyleRole, theme: Theme<C>, tint: C)
    ensures
        role == StyleRole::Dim || role == StyleRole::Html || role == StyleRole::Reasoning ==> ink(
            role,
            theme,
        ) == theme.muted,
        role == StyleRole::Text || role == StyleRole::Strong || role == StyleRole::Code || role
            == StyleRole::Link || role == StyleRole::Math ==> ink(role, theme) == theme.text,
        tinted_ink(role, theme, Some(tint)) == tint,
        tinted_ink(role, theme, None) == ink(role, theme),
        is_strong(role) <==> role == StyleRole::Strong,
{
}

/// Every run comes from a span that has text, covers it, and draws its ink or an
/// attribute that it has.
pub proof fn law_every_run_has_its_span<C>(
    spans: Seq<SpanStyle>,
    theme: Theme<C>,
    tint: Option<C>,
    k: int,
)
    requires
        0 <= k < all_runs(spans, theme, tint).len(),
    ensures
        exists|s: int|
            0 <= s < spans.len() && {
                let run = all_runs(spans, theme, tint)[k];
                let span = #[trigger] spans[s];
                &&& run.start == span.range.start
                &&& run.end == span.range.end
                &&& run.start < run.end
                &&& match run.property {
                    TextProperty::Color(color) => color == tinted_ink(span.role, theme, tint),
                    TextProperty::Bold => span.bold,
                    TextProperty::Italic => span.italic,
                    TextProperty::Underline => span.underline,
                    TextProperty::Strikethrough => span.strikethrough,
                }
            },
    decreases spans.len(),
{
    let head = spans.drop_last();
    let before = all_runs(head, theme, tint);
    if k < before.len() {
        law_every_run_has_its_span(head, theme, tint, k);
        let s = choose|s: int|
            0 <= s < head.len() && {
                let run = before[k];
                let span = #[trigger] head[s];
                &&& run.start == span.range.start
                &&& run.end == span.range.end
                &&& run.start < run.end
                &&& match run.property {
                    TextProperty::Color(color) => color == tinted_ink(span.role, theme, tint),
                    TextProperty::Bold => span.bold,
                    TextProperty::Italic => span.italic,
                    TextProperty::Underline => span.underline,
                    TextProperty::Strikethrough => span.strikethrough,
                }
            };
        assert(spans[s] == head[s]);
        assert(all_runs(spans, theme, tint)[k] == before[k]);
    } else {
        let span = spans[spans.len() - 1];
        let listed = properties(span, tinted_ink(span.role, theme, tint));
        let i = k - before.len();
        assert(all_runs(spans, theme, tint)[k].property == listed[i]);
    }
}

/// Each span has one run for its ink and one for each attribute, those of the
/// earlier spans first.
pub proof fn law_runs_go_span_by_span<C>(
    a: Seq<SpanStyle>,
    b: Seq<SpanStyle>,
    theme: Theme<C>,
    tint: Option<C>,
)
    ensures
        all_runs(Seq::empty(), theme, tint) == Seq::<StyleRun<C>>::empty(),
        all_runs(a + b, theme, tint) == all_runs(a, theme, tint) + all_runs(b, theme, tint),
        a.len() == 1 && a[0].range.start >= a[0].range.end ==> all_runs(a, theme, tint).len() == 0,
        a.len() == 1 && a[0].range.start < a[0].range.end ==> all_runs(a, theme, tint).len() == 1
            + (if a[0].bold { 1int } else { 0 }) + (if a[0].italic { 1int } else { 0 }) + (
        if a[0].underline { 1int } else { 0 }) + (if a[0].strikethrough { 1int } else { 0 }),
    decreases b.len(),
{
    if a.len() == 1 {
        assert(all_runs(a.drop_last(), theme, tint) =~= Seq::<StyleRun<C>>::empty());
    }
    if b.len() == 0 {
        assert(a + b =~= a);
        assert(all_runs(a, theme, tint) + all_runs(b, theme, tint) =~= all_runs(a, theme, tint));
    } else {
        law_runs_go_span_by_span(a, b.drop_last(), theme, tint);
        assert((a + b).drop_last() =~= a + b.drop_last());
        assert(all_runs(a + b, theme, tint) =~= all_runs(a, theme, tint) + all_runs(
            b,
            theme,
            tint,
        ));
    }
}

/// The views of span styles say what they hold, one by one.
pub proof fn law_views_say_how_spans_are_styled(span: SpanStyle, spans: Seq<SpanStyle>, i: int)
    ensures
        span@ == (StyleView {
            start: span.range.start as nat,
            end: span.range.end as nat,
            role: span.role,
            fill: span.fill,
            bold: span.bold,
            italic: span.italic,
            underline: span.underline,
            strikethrough: span.strikethrough,
        }),
        styles(spans).len() == spans.len(),
        0 <= i < spans.len() ==> styles(spans)[i] == spans[i]@,
{
}

} // verus!
