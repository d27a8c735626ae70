use jcode_surfaces::document::{
    block_lines, strip_quote_bar, table_lines, table_lines_from, Block, BlockKind, FillRole, StyleRole, StyledLine,
    StyledSpan, TextAttrs,
};
use jcode_surfaces::rich_text::{
    flatten, role_color, style_runs, Palette, StyleRun, TextProperty, Theme,
};
use jcode_surfaces::text::Align;

fn span(text: &str) -> StyledSpan {
    StyledSpan::plain(text.to_string())
}

fn role_span(text: &str, role: StyleRole, bold: bool, italic: bool) -> StyledSpan {
    StyledSpan {
        text: text.to_string(),
        role,
        fill: FillRole::Bare,
        attrs: TextAttrs {
            bold,
            italic,
            ..TextAttrs::none()
        },
    }
}

fn line(texts: &[&str]) -> StyledLine {
    StyledLine::from_spans(texts.iter().map(|text| span(text)).collect())
}

fn rows(rows: &[&[&str]]) -> Vec<Vec<String>> {
    rows.iter()
        .map(|row| row.iter().map(|cell| cell.to_string()).collect())
        .collect()
}

fn plain(lines: &[StyledLine]) -> Vec<String> {
    lines.iter().map(|line| line.plain_text()).collect()
}

/// Table cells line up into columns. A naive join renders an unreadable ragged
/// block, so the alignment itself has to be asserted.
#[test]
fn table_columns_are_aligned() {
    let rows = vec![
        vec!["frame".to_string(), "direction".to_string()],
        vec!["hello".to_string(), "client".to_string()],
        vec!["a-much-longer-frame".to_string(), "server".to_string()],
    ];
    let lines = table_lines(&rows);
    let starts: Vec<usize> = lines
        .iter()
        .map(|line| {
            let text = line.plain_text();
            text.find(|c: char| c != ' ')
                .map(|_| {
                    // Column two starts after the padded first cell.
                    text.len() - text.trim_start_matches(|c: char| c != ' ').len()
                })
                .unwrap_or(0)
        })
        .collect();
    let text: Vec<String> = lines.iter().map(|l| l.plain_text()).collect();
    let second_column: Vec<usize> = text
        .iter()
        .map(|line| line.rfind("  ").map(|i| i + 2).unwrap_or(0))
        .collect();
    assert!(
        second_column.windows(2).all(|w| w[0] == w[1]),
        "table columns did not align: {text:?} (starts {starts:?})"
    );
}

#[test]
fn table_text_is_exact() {
    let lines = table_lines(&rows(&[&["a", "bb", "c"], &["wide", "x"], &["", "yy", "zzz"]]));
    assert_eq!(plain(&lines), vec!["a     bb  c", "wide  x   ", "      yy  zzz"]);
    assert!(lines[0].spans[0].attrs.bold);
    assert!(!lines[1].spans[0].attrs.bold);
    assert_eq!(lines[2].alignment, Align::Start);
    assert!(table_lines(&[]).is_empty());
    assert_eq!(plain(&table_lines(&rows(&[&[], &[]]))), vec!["", ""]);
}

/// The padding goes by the widths that were measured, whatever the texts.
#[test]
fn padding_follows_the_measured_widths() {
    let table = rows(&[&["ab", "x"], &["c"], &["", "z"]]);
    let widths = vec![vec![4, 1], vec![6], vec![0, 9]];
    let lines = table_lines_from(&table, &widths);
    assert_eq!(plain(&lines), vec!["ab    x", "c  ", "        z"]);
    assert!(lines[0].spans[0].attrs.bold);
    assert!(!lines[1].spans[0].attrs.bold);
}

/// Wide and combining characters are measured in columns, not in characters.
#[test]
fn table_padding_counts_columns() {
    let lines = table_lines(&rows(&[&["中文", "x"], &["abcde", "y"], &["e\u{301}", "z"]]));
    assert_eq!(
        plain(&lines),
        vec!["中文   x", "abcde  y", "e\u{301}      z"]
    );
}

/// A quote is drawn as a rule by the renderer, so the terminal's bar must not
/// also survive into the text.
#[test]
fn quotes_do_not_carry_a_terminal_bar() {
    let quote = Block {
        kind: BlockKind::BlockQuote,
        lines: vec![
            line(&["\u{2502} ", "quoted line"]),
            line(&["\u{2502} ", "second line"]),
        ],
        table: Vec::new(),
    };
    let lines = block_lines(&quote);
    assert_eq!(plain(&lines), vec!["quoted line", "second line"]);
    for line in &lines {
        assert!(
            !line.plain_text().contains('\u{2502}'),
            "quote bar survived: {:?}",
            line.plain_text()
        );
    }
}

#[test]
fn only_a_leading_bar_is_stripped() {
    let bare = strip_quote_bar(&[span("\u{2502} \u{2502} deep"), span(" \u{2502} kept")]);
    assert_eq!(bare[0].text, "deep");
    assert_eq!(bare[1].text, " \u{2502} kept");
    let inner = strip_quote_bar(&[span("a \u{2502} b")]);
    assert_eq!(inner[0].text, "a \u{2502} b");
    let spaced = strip_quote_bar(&[span("  no bar")]);
    assert_eq!(spaced[0].text, "  no bar");
    assert!(strip_quote_bar(&[span("\u{2502} ")]).is_empty());
    assert!(strip_quote_bar(&[]).is_empty());
    let kept = strip_quote_bar(&[role_span("\u{2502} x", StyleRole::Dim, true, false)]);
    assert_eq!(kept[0].role, StyleRole::Dim);
    assert!(kept[0].attrs.bold);
}

#[test]
fn other_blocks_keep_their_lines() {
    let block = Block {
        kind: BlockKind::Paragraph,
        lines: vec![line(&["\u{2502} ", "text"])],
        table: rows(&[&["a"]]),
    };
    assert_eq!(block_lines(&block), block.lines);
    let laid = Block {
        kind: BlockKind::Table,
        lines: vec![line(&["drawn"])],
        table: rows(&[&["a"]]),
    };
    assert_eq!(plain(&block_lines(&laid)), vec!["drawn"]);
    let table = Block {
        kind: BlockKind::Table,
        lines: Vec::new(),
        table: rows(&[&["a"]]),
    };
    assert_eq!(plain(&block_lines(&table)), vec!["a"]);
}

/// Markdown reaches the layout as styling, not as literal asterisks.
#[test]
fn emphasis_is_styling_rather_than_punctuation() {
    let lines = vec![StyledLine::from_spans(vec![
        role_span("bold", StyleRole::Strong, false, false),
        span(" and "),
        role_span("italic", StyleRole::Text, false, true),
        span(" and "),
        role_span("code", StyleRole::Code, false, false),
    ])];
    let (source, spans) = flatten(&lines);
    assert_eq!(source, "bold and italic and code");
    assert!(
        !source.contains('*') && !source.contains('`'),
        "markdown punctuation survived into the drawn text: {source:?}"
    );
    assert!(spans.iter().any(|span| span.bold), "no bold span was produced");
    assert!(spans.iter().any(|span| span.italic), "no italic span was produced");
    assert!(
        spans.iter().any(|span| span.role == StyleRole::Code),
        "no code span was produced"
    );
}

#[test]
fn ranges_slice_the_text_of_their_spans() {
    let lines = vec![
        line(&["ünï", "", "中文"]),
        line(&[]),
        line(&["🎉", "end"]),
    ];
    let (source, spans) = flatten(&lines);
    assert_eq!(source, "ünï中文\n\n🎉end");
    let texts: Vec<&str> = spans.iter().map(|span| &source[span.range.clone()]).collect();
    assert_eq!(texts, vec!["ünï", "", "中文", "🎉", "end"]);
    assert_eq!(spans[0].range, 0..5);
    assert_eq!(spans[2].range, 5..11);
    assert_eq!(spans[3].range, 13..17);
    let (nothing, none) = flatten(&[]);
    assert_eq!(nothing, "");
    assert!(none.is_empty());
}

#[test]
fn each_role_has_its_ink() {
    let theme = Theme { text: 1, muted: 2 };
    for role in [
        StyleRole::Text,
        StyleRole::Strong,
        StyleRole::Code,
        StyleRole::Link,
        StyleRole::Math,
    ] {
        assert_eq!(role_color(role, &theme), 1);
    }
    for role in [StyleRole::Dim, StyleRole::Html, StyleRole::Reasoning] {
        assert_eq!(role_color(role, &theme), 2);
    }
}

#[test]
fn runs_list_ink_and_attributes_in_order() {
    let theme = Theme { text: 'T', muted: 'M' };
    let mut loud = role_span("loud", StyleRole::Dim, true, true);
    loud.attrs.underline = true;
    loud.attrs.strikethrough = true;
    let lines = vec![StyledLine::from_spans(vec![span("a"), span(""), loud])];
    let (_, spans) = flatten(&lines);
    let runs = style_runs(&spans, Palette { theme: &theme, tint: None });
    let property = |start: usize, end: usize, property: TextProperty<char>| StyleRun {
        start,
        end,
        property,
    };
    assert_eq!(
        runs,
        vec![
            property(0, 1, TextProperty::Color('T')),
            property(1, 5, TextProperty::Color('M')),
            property(1, 5, TextProperty::Bold),
            property(1, 5, TextProperty::Italic),
            property(1, 5, TextProperty::Underline),
            property(1, 5, TextProperty::Strikethrough),
        ]
    );
}

/// Emphasis inside a thought must stay muted.
#[test]
fn emphasis_inside_reasoning_stays_muted() {
    let theme = Theme { text: 'T', muted: 'M' };
    let lines = vec![StyledLine::from_spans(vec![
        role_span("loud", StyleRole::Strong, false, false),
        span(" and quiet"),
    ])];
    let (_, spans) = flatten(&lines);
    let runs = style_runs(&spans, Palette { theme: &theme, tint: Some('M') });
    let inks: Vec<char> = runs
        .iter()
        .filter_map(|run| match run.property {
            TextProperty::Color(color) => Some(color),
            _ => None,
        })
        .collect();
    assert!(!inks.is_empty(), "no runs to check");
    for ink in inks {
        assert_eq!(ink, theme.muted, "a span in reasoning escaped the muted tint");
    }
}
