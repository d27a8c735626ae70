use jcode_surfaces::document::{Block, BlockKind, Document, StyledLine, StyledSpan};
use jcode_surfaces::layout::{
    block_inset, block_padding, block_style, heading_scale, plan_message, role_inset, role_tint,
    stack_blocks, top_padding, BlockPlan, BlockStyle, BLOCK_GAP, USER_PAD_Y,
};
use jcode_surfaces::rich_text::Theme;
use jcode_surfaces::transcript::Role;

const THEME: Theme<char> = Theme { text: 'T', muted: 'M' };

fn block(kind: BlockKind, text: &str) -> Block {
    Block {
        kind,
        lines: vec![StyledLine::from_spans(vec![StyledSpan::plain(text.to_string())])],
        table: Vec::new(),
    }
}

fn code() -> BlockKind {
    BlockKind::CodeBlock { language: Some("rust".to_string()) }
}

fn plan(role: Role, blocks: Vec<Block>) -> Vec<BlockPlan<char>> {
    plan_message(role, &Document { blocks }, false, 'B', &THEME)
}

/// Reasoning must read as subordinate: muted ink, smaller type, and an indent
/// for the rule drawn beside it.
#[test]
fn reasoning_is_set_apart_from_the_reply() {
    let thought = plan(Role::Reasoning, vec![block(BlockKind::Paragraph, "a thought")]);
    let reply = plan(Role::Assistant, vec![block(BlockKind::Paragraph, "a thought")]);
    assert!(
        thought[0].inset > reply[0].inset,
        "reasoning was not indented away from the reply"
    );
    assert!(
        thought[0].style.voice < reply[0].style.voice,
        "reasoning was set at the same size as the reply"
    );
    assert_eq!(thought[0].style.color, 'M');
    assert_eq!(reply[0].style.color, 'B');
    assert_eq!(thought[0].style.voice, 92);
    assert_eq!(thought[0].inset, 12);
    assert_eq!(plan(Role::Tool, vec![block(BlockKind::Paragraph, "x")])[0].inset, 24);
    assert_eq!(role_inset(Role::User), 0);
    assert_eq!(role_tint(Role::Tool, &THEME), Some('M'));
    assert_eq!(role_tint(Role::Assistant, &THEME), None);
}

/// Structure survives into the plan, so the renderer can draw a code wash
/// without parsing again.
#[test]
fn code_blocks_keep_their_kind() {
    let laid = plan(
        Role::Assistant,
        vec![block(BlockKind::Paragraph, "text"), block(code(), "fn main() {}")],
    );
    assert!(
        laid.iter().any(|block| matches!(block.kind, BlockKind::CodeBlock { .. })),
        "code block lost its kind"
    );
    assert_eq!(laid[1].kind, code());
    assert_eq!(laid[1].inset, 10);
    assert_eq!(laid[1].padding, 6);
}

/// Tables are laid out rather than silently dropped.
#[test]
fn tables_produce_visible_lines() {
    let table = Block {
        kind: BlockKind::Table,
        lines: Vec::new(),
        table: vec![
            vec!["a".to_string(), "b".to_string()],
            vec!["1".to_string(), "2".to_string()],
        ],
    };
    let laid = plan(Role::Assistant, vec![table]);
    assert!(!laid.is_empty(), "table produced no drawable blocks");
    assert_eq!(laid[0].source, "a  b\n1  2");
}

/// A user message reserves its card padding, so the tint cannot crop the text it
/// wraps.
#[test]
fn a_user_message_reserves_its_card_padding() {
    let measured = [22];
    let user = plan(Role::User, vec![block(BlockKind::Paragraph, "hello")]);
    let assistant = plan(Role::Assistant, vec![block(BlockKind::Paragraph, "hello")]);
    let user = stack_blocks(Role::User, &user, &measured, 1);
    let assistant = stack_blocks(Role::Assistant, &assistant, &measured, 1);
    assert!(
        user.height >= assistant.height + u128::from(USER_PAD_Y) * 2,
        "user card did not reserve padding: {} vs {}",
        user.height,
        assistant.height
    );
    assert_eq!((user.height, assistant.height), (38, 22));
}

#[test]
fn blank_blocks_are_not_drawn() {
    let laid = plan(
        Role::Assistant,
        vec![
            block(BlockKind::Paragraph, " \n\t"),
            block(BlockKind::Paragraph, " kept "),
            Block { kind: BlockKind::Rule, lines: Vec::new(), table: Vec::new() },
            block(BlockKind::BlockQuote, "\u{2502} "),
        ],
    );
    assert_eq!(laid.len(), 1);
    assert_eq!(laid[0].source, " kept ");
    assert_eq!(laid[0].spans[0].range, 0..6);
}

#[test]
fn blocks_are_stacked_with_gaps() {
    let laid = plan(
        Role::Tool,
        vec![
            block(BlockKind::Paragraph, "one"),
            block(code(), "two"),
            block(BlockKind::BlockQuote, "three"),
        ],
    );
    let stack = stack_blocks(Role::Tool, &laid, &[100, 50, 20], 2);
    assert_eq!(stack.tops, vec![0, 116, 206]);
    assert_eq!(stack.heights, vec![100, 74, 20]);
    assert_eq!(stack.height, 226 + 24);
    assert_eq!(stack.tops[1] - stack.heights[0], u128::from(BLOCK_GAP) * 2);
    let empty: Vec<BlockPlan<char>> = Vec::new();
    assert_eq!(stack_blocks(Role::User, &empty, &[], 1).height, 16);
    assert_eq!(stack_blocks(Role::Reasoning, &empty, &[], 1).height, 0);
}

#[test]
fn headings_step_down() {
    assert_eq!([1, 2, 3, 4, 0].map(heading_scale), [132, 118, 108, 100, 100]);
}

#[test]
fn kinds_have_their_style() {
    let base = BlockStyle { voice: 92, size: 100, bold: false, color: 'B' };
    let heading = block_style(&BlockKind::Heading { level: 2 }, base, &THEME);
    assert_eq!(heading, BlockStyle { voice: 92, size: 118, bold: true, color: 'T' });
    assert_eq!(block_style(&code(), base, &THEME).color, 'T');
    assert_eq!(block_style(&BlockKind::BlockQuote, base, &THEME).color, 'M');
    assert_eq!(block_style(&BlockKind::Paragraph, base, &THEME), base);
    assert_eq!(block_inset(&BlockKind::BlockQuote), 12);
    assert_eq!(block_inset(&BlockKind::Table), 0);
    assert_eq!(block_padding(&code()), 6);
    assert_eq!(block_padding(&BlockKind::BlockQuote), 0);
    assert_eq!(
        [Role::User, Role::Assistant, Role::Reasoning, Role::Tool].map(top_padding),
        [8, 0, 0, 6]
    );
}
