//! How a message is set: which of its blocks are drawn, how far each is
//! inset, at what size, in what ink, and with how much padding.
//!
//! Lengths are whole logical units and sizes are hundredths of the body size.
//! Only the height of a block has to be measured, and that is left to the text
//! engine.
use crate::document::{
    block_lines, drawn_lines, law_blocks_contribute_their_lines, law_the_text_of_spans, spans_text,
    Block, BlockKind, BlockView, Document, LineView,
};
use crate::rich_text::{
    flat_styles, flat_text, flatten, law_lines_are_flattened_in_order, styles, SpanStyle, StyleView,
    Theme,
};
use crate::strings::{law_trimming_takes_only_the_ends, trim, trimmed, white_space, CharClass};
use crate::transcript::Role;
use vstd::prelude::*;
use vstd::string::StrSliceExecFns;

verus! {

/// Gap between two blocks of a message.
pub const BLOCK_GAP: u32 = 8;

/// Gap between two messages.
pub const MESSAGE_GAP: u32 = 18;

/// Inset of a user message's text inside its tinted card, sideways.
pub const USER_PAD_X: u32 = 12;

/// Inset of a user message's text inside its tinted card, up and down.
pub const USER_PAD_Y: u32 = 8;

/// Corner radius of the user card. Matches the composer, so your message and
/// the box you typed it in are visibly the same object.
pub const USER_RADIUS: u32 = 6;

/// Inset of code-block text inside its wash, sideways.
pub const CODE_PAD_X: u32 = 10;

/// Inset of code-block text inside its wash, up and down.
pub const CODE_PAD_Y: u32 = 6;

/// Indent applied to quoted text, leaving room for the quote rule.
pub const QUOTE_INSET: u32 = 12;

/// Indent applied to a reasoning message, leaving room for its rule. Same
/// measure as a quote, because it is the same idea: text attributed to
/// somewhere other than the main voice.
pub const REASONING_INSET: u32 = 12;

/// Indent of the tool card's text, leaving room for the activity spinner that
/// shows the call running.
pub const TOOL_INSET: u32 = 24;

/// Vertical padding inside the live tool card.
pub const TOOL_PAD_Y: u32 = 6;

/// Reasoning is set smaller than body copy: hundredths of its size. Enough to
/// read as an aside at a glance without becoming unreadable.
pub const REASONING_SCALE: u32 = 92;

/// The size of body copy in hundredths of itself.
pub const BODY_SCALE: u32 = 100;

/// The roles that stand back from the conversation: they report what the agent
/// thinks or does, not what it said.
pub open spec fn is_aside(role: Role) -> bool {
    role == Role::Reasoning || role == Role::Tool
}

/// How far a message of this role is indented.
pub open spec fn indent(role: Role) -> u32 {
    match role {
        Role::Tool => TOOL_INSET,
        Role::Reasoning => REASONING_INSET,
        Role::User | Role::Assistant => 0,
    }
}

/// The colour that overrides those of all spans in a message of this role.
pub open spec fn tint_of<C>(role: Role, theme: Theme<C>) -> Option<C> {
    if is_aside(role) {
        Some(theme.muted)
    } else {
        None
    }
}

/// How much a message of this role is padded, above and again below.
pub open spec fn card_padding(role: Role) -> u32 {
    match role {
        Role::User => USER_PAD_Y,
        Role::Tool => TOOL_PAD_Y,
        Role::Assistant | Role::Reasoning => 0,
    }
}

/// How far a block of this kind is inset within its message.
pub open spec fn kind_inset(kind: BlockKind) -> u32 {
    if kind is CodeBlock {
        CODE_PAD_X
    } else if kind is BlockQuote {
        QUOTE_INSET
    } else {
        0
    }
}

/// How much a block of this kind is padded, above and again below.
pub open spec fn kind_padding(kind: BlockKind) -> u32 {
    if kind is CodeBlock {
        CODE_PAD_Y
    } else {
        0
    }
}

/// The size of a heading in hundredths of body copy.
pub open spec fn heading_size(level: u8) -> u32 {
    if level == 1 {
        132
    } else if level == 2 {
        118
    } else if level == 3 {
        108
    } else {
        BODY_SCALE
    }
}

/// How the text of a block is set before its spans have their say.
#[derive(Clone, Copy, Debug, PartialEq, Eq)]
pub struct BlockStyle<C> {
    /// Size of the message's voice, in hundredths of body copy.
    pub voice: u32,
    /// Size of the block, in hundredths of its message's voice.
    pub size: u32,
    pub bold: bool,
    pub color: C,
}

/// The style of a block of this kind in a message that is set in `base`.
pub open spec fn kind_style<C>(kind: BlockKind, base: BlockStyle<C>, theme: Theme<C>) -> BlockStyle<
    C,
> {
    match kind {
        BlockKind::Heading { level } => BlockStyle {
            size: heading_size(level),
            bold: true,
            color: theme.text,
            ..base
        },
        BlockKind::CodeBlock { .. } => BlockStyle { color: theme.text, ..base },
        BlockKind::BlockQuote => BlockStyle { color: theme.muted, ..base },
        _ => base,
    }
}

/// The style that a message of this role is set in, where body copy is set in
/// `color` and is bold or not.
pub open spec fn voice_style<C>(role: Role, bold: bool, color: C, theme: Theme<C>) -> BlockStyle<
    C,
> {
    if is_aside(role) {
        BlockStyle { voice: REASONING_SCALE, size: BODY_SCALE, bold, color: theme.muted }
    } else {
        BlockStyle { voice: BODY_SCALE, size: BODY_SCALE, bold, color }
    }
}

/// How far a message of this role is indented.
pub fn role_inset(role: Role) -> (inset: u32)
    ensures
        inset == indent(role),
{
    match role {
        Role::Tool => TOOL_INSET,
        Role::Reasoning => REASONING_INSET,
        Role::User | Role::Assistant => 0,
    }
}

/// Vertical inset from the top of a message to its first block, and from its
/// last block to the bottom. A user message is drawn in a padded card, and the
/// live tool card pads the same way; a reply is not.
pub fn top_padding(role: Role) -> (padding: u32)
    ensures
        padding == card_padding(role),
{
    match role {
        Role::User => USER_PAD_Y,
        Role::Tool => TOOL_PAD_Y,
        Role::Assistant | Role::Reasoning => 0,
    }
}

/// The colour that overrides those of all spans in a message of this role.
pub fn role_tint<C: Copy>(role: Role, theme: &Theme<C>) -> (tint: Option<C>)
    ensures
        tint == (if is_aside(role) {
            Some(theme.muted)
        } else {
            None
        }),
        tint == tint_of(role, *theme),
{
    match role {
        Role::Reasoning | Role::Tool => Some(theme.muted),
        Role::User | Role::Assistant => None,
    }
}

/// Horizontal inset for a block kind, relative to the message's text column.
pub fn block_inset(kind: &BlockKind) -> (inset: u32)
    ensures
        inset == kind_inset(*kind),
{
    match kind {
        BlockKind::CodeBlock { .. } => CODE_PAD_X,
        BlockKind::BlockQuote => QUOTE_INSET,
        _ => 0,
    }
}

/// Vertical padding of a block kind, above its text and again below.
pub fn block_padding(kind: &BlockKind) -> (padding: u32)
    ensures
        padding == kind_padding(*kind),
{
    match kind {
        BlockKind::CodeBlock { .. } => CODE_PAD_Y,
        _ => 0,
    }
}

/// Heading sizes, in hundredths of body copy. Restrained on purpose: a first
/// heading in a chat reply is a sentence, not a cover page.
pub fn heading_scale(level: u8) -> (size: u32)
    ensures
        size == heading_size(level),
{
    match level {
        1 => 132,
        2 => 118,
        3 => 108,
        _ => BODY_SCALE,
    }
}

/// Style for a block kind. Headings step up in size; everything else inherits
/// the message's style, because a transcript is body copy with occasional
/// structure, not a document.
pub fn block_style<C: Copy>(kind: &BlockKind, base: BlockStyle<C>, theme: &Theme<C>) -> (style:
    BlockStyle<C>)
    ensures
        style == kind_style(*kind, base, *theme),
{
    match kind {
        BlockKind::Heading { level } => BlockStyle {
            voice: base.voice,
            size: heading_scale(*level),
            bold: true,
            color: theme.text,
        },
        BlockKind::CodeBlock { .. } => BlockStyle {
            voice: base.voice,
            size: base.size,
            bold: base.bold,
            color: theme.text,
        },
        BlockKind::BlockQuote => BlockStyle {
            voice: base.voice,
            size: base.size,
            bold: base.bold,
            color: theme.muted,
        },
        _ => base,
    }
}

/// A block that is ready to be measured and drawn.
#[derive(Debug)]
pub struct BlockPlan<C> {
    pub kind: BlockKind,
    /// The text of the block, as one piece.
    pub source: String,
    /// The styling of its spans, over the bytes of `source`.
    pub spans: Vec<SpanStyle>,
    /// Inset from either side of the message's text column.
    pub inset: u32,
    /// Padding above the text and again below.
    pub padding: u32,
    pub style: BlockStyle<C>,
}

/// The view of a [`BlockPlan`].
pub struct PlanView<C> {
    pub kind: BlockKind,
    pub source: Seq<char>,
    pub spans: Seq<StyleView>,
    pub inset: int,
    pub padding: int,
    pub style: BlockStyle<C>,
}

impl<C> View for BlockPlan<C> {
    type V = PlanView<C>;

    open spec fn view(&self) -> PlanView<C> {
        PlanView {
            kind: self.kind,
            source: self.source@,
            spans: styles(self.spans@),
            inset: self.inset as int,
            padding: self.padding as int,
            style: self.style,
        }
    }
}

/// The views of a sequence of plans.
pub open spec fn plans<C>(blocks: Seq<BlockPlan<C>>) -> Seq<PlanView<C>> {
    Seq::new(blocks.len(), |i: int| blocks[i]@)
}

/// The text of a block as it is drawn.
pub open spec fn block_text(block: BlockView) -> Seq<char> {
    flat_text(drawn_lines(block))
}

/// A block is drawn where it has any text but white space.
pub open spec fn is_drawn(block: BlockView) -> bool {
    trimmed(block_text(block)).len() > 0
}

/// How a block is set in a message of this role.
pub open spec fn plan_of<C>(
    role: Role,
    block: BlockView,
    base: BlockStyle<C>,
    theme: Theme<C>,
) -> PlanView<C> {
    PlanView {
        kind: block.kind,
        source: block_text(block),
        spans: flat_styles(drawn_lines(block)),
        inset: kind_inset(block.kind) + indent(role),
        padding: kind_padding(block.kind) as int,
        style: kind_style(block.kind, base, theme),
    }
}

/// How all blocks that are drawn are set, in order.
pub open spec fn planned<C>(
    role: Role,
    blocks: Seq<BlockView>,
    base: BlockStyle<C>,
    theme: Theme<C>,
) -> Seq<PlanView<C>>
    decreases blocks.len(),
{
    if blocks.len() == 0 {
        Seq::empty()
    } else {
        let before = planned(role, blocks.drop_last(), base, theme);
        if is_drawn(blocks.last()) {
            before.push(plan_of(role, blocks.last(), base, theme))
        } else {
            before
        }
    }
}

fn plan_block<C: Copy>(role: Role, block: &Block, base: BlockStyle<C>, theme: &Theme<C>) -> (plan:
    Option<BlockPlan<C>>)
    ensures
        match plan {
            Some(plan) => is_drawn(block@) && plan@ == plan_of(role, block@, base, *theme),
            None => !is_drawn(block@),
        },
{
    let lines = block_lines(block);
    let (source, spans) = flatten(lines.as_slice());
    if trim(source.as_str()).unicode_len() == 0 {
        return None;
    }
    Some(
        BlockPlan {
            kind: block.kind.copied(),
            source,
            spans,
            inset: block_inset(&block.kind) + role_inset(role),
            padding: block_padding(&block.kind),
            style: block_style(&block.kind, base, theme),
        },
    )
}

/// How a message is set whose text was parsed into `document`, where body copy
/// is set in `color` and is bold or not. Reasoning and the tool card are the
/// same document in a subordinate voice: muted, slightly smaller, and indented.
pub fn plan_message<C: Copy>(
    role: Role,
    document: &Document,
    bold: bool,
    color: C,
    theme: &Theme<C>,
) -> (blocks: Vec<BlockPlan<C>>)
    ensures
        plans(blocks@) == planned(
            role,
            document@,
            voice_style(role, bold, color, *theme),
            *theme,
        ),
{
    let base = match role {
        Role::Reasoning | Role::Tool => BlockStyle {
            voice: REASONING_SCALE,
            size: BODY_SCALE,
            bold,
            color: theme.muted,
        },
        Role::User | Role::Assistant => BlockStyle {
            voice: BODY_SCALE,
            size: BODY_SCALE,
            bold,
            color,
        },
    };
    let mut blocks: Vec<BlockPlan<C>> = Vec::new();
    let mut i: usize = 0;
    assert(plans(blocks@) =~= planned(role, document@.take(0), base, *theme));
    while i < document.blocks.len()
        invariant
            i <= document.blocks.len(),
            plans(blocks@) == planned(role, document@.take(i as int), base, *theme),
        decreases document.blocks.len() - i,
    {
        let ghost done = document@.take(i + 1);
        assert(done.drop_last() =~= document@.take(i as int));
        let ghost before = blocks@;
        match plan_block(role, &document.blocks[i], base, theme) {
            Some(plan) => {
                blocks.push(plan);
                assert(plans(blocks@) =~= plans(before).push(plan@));
            },
            None => {},
        }
        i = i + 1;
    }
    assert(document@.take(i as int) =~= document@);
    blocks
}

/// Where the blocks of a message go: the top and the height of each, from the
/// top of the message, and the height of the whole.
#[derive(Clone, Debug, PartialEq, Eq)]
pub struct Stack {
    pub tops: Vec<u128>,
    pub heights: Vec<u128>,
    pub height: u128,
}

/// The height of a block: what was measured, and its padding above and below.
pub open spec fn block_height<C>(blocks: Seq<BlockPlan<C>>, measured: Seq<u32>, unit: int, k: int)
    -> int {
    measured[k] + 2 * (blocks[k].padding * unit)
}

/// The top of a block: below all blocks before it and a gap behind each.
pub open spec fn block_top<C>(blocks: Seq<BlockPlan<C>>, measured: Seq<u32>, unit: int, k: int)
    -> int
    decreases k,
{
    if k <= 0 {
        0
    } else {
        block_top(blocks, measured, unit, k - 1) + block_height(blocks, measured, unit, k - 1)
            + BLOCK_GAP * unit
    }
}

/// The height of a message: down to the bottom of its last block, and the
/// padding of its card above and below.
pub open spec fn message_height<C>(
    role: Role,
    blocks: Seq<BlockPlan<C>>,
    measured: Seq<u32>,
    unit: int,
) -> int {
    2 * (card_padding(role) * unit) + if blocks.len() == 0 {
        0
    } else {
        block_top(blocks, measured, unit, blocks.len() - 1) + block_height(
            blocks,
            measured,
            unit,
            blocks.len() - 1,
        )
    }
}

fn scaled(length: u32, unit: u16) -> (size: u128)
    ensures
        size == length * unit,
        size <= 0x1_0000_0000_0000,
{
    assert(length * unit <= 0x1_0000_0000 * 0x1_0000) by (nonlinear_arith)
        requires
            0 <= length <= 0x1_0000_0000,
            0 <= unit <= 0x1_0000,
    ;
    length as u128 * unit as u128
}

/// Stacks the blocks of a message, given how high the text of each was measured.
/// Measures are in whole units, of which `unit` make one logical unit.
pub fn stack_blocks<C>(role: Role, blocks: &[BlockPlan<C>], measured: &[u32], unit: u16) -> (stack:
    Stack)
    requires
        measured@.len() == blocks@.len(),
    ensures
        stack.tops@.len() == blocks@.len(),
        stack.heights@.len() == blocks@.len(),
        forall|k: int|
            0 <= k < blocks@.len() ==> #[trigger] stack.tops@[k] == block_top(
                blocks@,
                measured@,
                unit as int,
                k,
            ),
        forall|k: int|
            0 <= k < blocks@.len() ==> #[trigger] stack.heights@[k] == block_height(
                blocks@,
                measured@,
                unit as int,
                k,
            ),
        stack.height == message_height(role, blocks@, measured@, unit as int),
{
    let mut tops: Vec<u128> = Vec::new();
    let mut heights: Vec<u128> = Vec::new();
    let gap: u128 = scaled(BLOCK_GAP, unit);
    let mut top: u128 = 0;
    let mut bottom: u128 = 0;
    let len = blocks.len();
    while tops.len() < len
        invariant
            len == blocks@.len(),
            measured@.len() == len,
            tops@.len() <= len,
            heights@.len() == tops@.len(),
            gap == BLOCK_GAP * unit,
            gap <= 0x1_0000_0000_0000,
            top == block_top(blocks@, measured@, unit as int, tops@.len() as int),
            top <= tops@.len() * 0x4_0000_0000_0000,
            bottom <= top,
            tops@.len() == 0 ==> bottom == 0,
            tops@.len() > 0 ==> bottom == block_top(
                blocks@,
                measured@,
                unit as int,
                tops@.len() - 1,
            ) + block_height(blocks@, measured@, unit as int, tops@.len() - 1),
            forall|k: int|
                0 <= k < tops@.len() ==> #[trigger] tops@[k] == block_top(
                    blocks@,
                    measured@,
                    unit as int,
                    k,
                ),
            forall|k: int|
                0 <= k < heights@.len() ==> #[trigger] heights@[k] == block_height(
                    blocks@,
                    measured@,
                    unit as int,
                    k,
                ),
        decreases len - tops.len(),
    {
        let k = tops.len();
        let padding: u128 = scaled(blocks[k].padding, unit);
        let height: u128 = measured[k] as u128 + 2 * padding;
        tops.push(top);
        heights.push(height);
        bottom = top + height;
        top = bottom + gap;
    }
    let card: u128 = scaled(top_padding(role), unit);
    Stack { tops, heights, height: bottom + 2 * card }
}

/// Nothing blank is drawn, and every block that has text is.
pub proof fn law_exactly_the_blocks_with_text_are_drawn<C>(
    role: Role,
    blocks: Seq<BlockView>,
    base: BlockStyle<C>,
    theme: Theme<C>,
)
    ensures
        forall|k: int|
            0 <= k < planned(role, blocks, base, theme).len() ==> trimmed(
                (#[trigger] planned(role, blocks, base, theme)[k]).source,
            ).len() > 0,
        forall|b: int|
            0 <= b < blocks.len() && is_drawn(#[trigger] blocks[b]) ==> planned(
                role,
                blocks,
                base,
                theme,
            ).contains(plan_of(role, blocks[b], base, theme)),
    decreases blocks.len(),
{
    if blocks.len() > 0 {
        let head = blocks.drop_last();
        let before = planned(role, head, base, theme);
        let all = planned(role, blocks, base, theme);
        law_exactly_the_blocks_with_text_are_drawn(role, head, base, theme);
        assert forall|b: int| 0 <= b < blocks.len() && is_drawn(#[trigger] blocks[b]) implies all
            .contains(plan_of(role, blocks[b], base, theme)) by {
            let plan = plan_of(role, blocks[b], base, theme);
            if b < head.len() {
                assert(blocks[b] == head[b]);
                assert(before.contains(plan));
                let k = choose|k: int| 0 <= k < before.len() && before[k] == plan;
                assert(all[k] == plan);
            } else {
                assert(all.last() == plan);
            }
        }
        assert forall|k: int| 0 <= k < all.len() implies trimmed((#[trigger] all[k]).source).len()
            > 0 by {
            if k < before.len() {
                assert(all[k] == before[k]);
            }
        }
    }
}

/// Two plans set the same text: of one kind, with the same spans and padding.
pub open spec fn same_text<C>(one: PlanView<C>, other: PlanView<C>) -> bool {
    &&& one.kind == other.kind
    &&& one.source == other.source
    &&& one.spans == other.spans
    &&& one.padding == other.padding
}

/// Every role draws the same blocks in the same order, and only sets them
/// differently: how far a block is inset differs by the roles' indents, and how
/// large it is by their voices.
pub proof fn law_every_role_draws_the_same_blocks<C>(
    role: Role,
    other: Role,
    blocks: Seq<BlockView>,
    bold: bool,
    color: C,
    theme: Theme<C>,
)
    ensures
        ({
            let one = planned(role, blocks, voice_style(role, bold, color, theme), theme);
            let two = planned(other, blocks, voice_style(other, bold, color, theme), theme);
            &&& one.len() == two.len()
            &&& forall|k: int|
                0 <= k < one.len() ==> {
                    &&& same_text(#[trigger] one[k], two[k])
                    &&& one[k].inset - indent(role) == two[k].inset - indent(other)
                    &&& one[k].style.size == two[k].style.size
                    &&& one[k].style.bold == two[k].style.bold
                }
        }),
    decreases blocks.len(),
{
    if blocks.len() > 0 {
        law_every_role_draws_the_same_blocks(role, other, blocks.drop_last(), bold, color, theme);
        let one = planned(role, blocks, voice_style(role, bold, color, theme), theme);
        let two = planned(other, blocks, voice_style(other, bold, color, theme), theme);
        let head = planned(role, blocks.drop_last(), voice_style(role, bold, color, theme), theme);
        assert forall|k: int| 0 <= k < one.len() implies {
            &&& same_text(#[trigger] one[k], two[k])
            &&& one[k].inset - indent(role) == two[k].inset - indent(other)
            &&& one[k].style.size == two[k].style.size
            &&& one[k].style.bold == two[k].style.bold
        } by {
            if k < head.len() {
                assert(one[k] == head[k]);
            }
        }
    }
}

/// An aside is set apart from the reply, block by block, whatever the document:
/// smaller, and indented by twelve units for reasoning and by twenty-four for
/// the tool card, with the same text.
pub proof fn law_asides_are_set_apart<C>(
    role: Role,
    blocks: Seq<BlockView>,
    bold: bool,
    color: C,
    theme: Theme<C>,
    k: int,
)
    requires
        is_aside(role),
        0 <= k < planned(role, blocks, voice_style(role, bold, color, theme), theme).len(),
    ensures
        ({
            let voice = voice_style(role, bold, color, theme);
            let plain = voice_style(Role::Assistant, bold, color, theme);
            let aside = planned(role, blocks, voice, theme)[k];
            let reply = planned(Role::Assistant, blocks, plain, theme)[k];
            &&& planned(role, blocks, voice, theme).len() == planned(
                Role::Assistant,
                blocks,
                plain,
                theme,
            ).len()
            &&& same_text(aside, reply)
            &&& aside.inset == reply.inset + indent(role)
            &&& aside.style.voice == REASONING_SCALE
            &&& reply.style.voice == BODY_SCALE
            &&& aside.style.size == reply.style.size
        }),
        indent(Role::Reasoning) == 12,
        indent(Role::Tool) == 24,
        REASONING_SCALE < BODY_SCALE,
{
    law_every_role_draws_the_same_blocks(role, Role::Assistant, blocks, bold, color, theme);
    lemma_one_voice(role, blocks, voice_style(role, bold, color, theme), theme);
    lemma_one_voice(
        Role::Assistant,
        blocks,
        voice_style(Role::Assistant, bold, color, theme),
        theme,
    );
}

/// All blocks of a message speak in the message's voice.
proof fn lemma_one_voice<C>(
    role: Role,
    blocks: Seq<BlockView>,
    base: BlockStyle<C>,
    theme: Theme<C>,
)
    ensures
        forall|k: int|
            0 <= k < planned(role, blocks, base, theme).len() ==> (#[trigger] planned(
                role,
                blocks,
                base,
                theme,
            )[k]).style.voice == base.voice,
    decreases blocks.len(),
{
    if blocks.len() > 0 {
        lemma_one_voice(role, blocks.drop_last(), base, theme);
        let all = planned(role, blocks, base, theme);
        let head = planned(role, blocks.drop_last(), base, theme);
        assert forall|k: int| 0 <= k < all.len() implies (#[trigger] all[k]).style.voice
            == base.voice by {
            if k < head.len() {
                assert(all[k] == head[k]);
            }
        }
    }
}

/// Headings step down in size with their level, to body copy and no further.
pub proof fn law_headings_step_down(upper: u8, lower: u8)
    requires
        1 <= upper <= lower,
    ensures
        BODY_SCALE <= heading_size(lower) <= heading_size(upper),
        upper < lower && upper <= 3 ==> heading_size(lower) < heading_size(upper),
{
}

/// Two blocks of a message never overlap: below each there is a gap, and the
/// last one ends where the message has only its card's padding left.
pub proof fn law_blocks_do_not_overlap<C>(
    role: Role,
    blocks: Seq<BlockPlan<C>>,
    measured: Seq<u32>,
    unit: int,
    j: int,
    k: int,
)
    requires
        0 <= j < k < blocks.len(),
        measured.len() == blocks.len(),
        0 <= unit,
    ensures
        block_top(blocks, measured, unit, j) + block_height(blocks, measured, unit, j) + BLOCK_GAP
            * unit <= block_top(blocks, measured, unit, k),
        block_top(blocks, measured, unit, k) + block_height(blocks, measured, unit, k) + 2 * (
        card_padding(role) * unit) <= message_height(role, blocks, measured, unit),
    decreases blocks.len() - k, k,
{
    lemma_tops_grow(blocks, measured, unit, j + 1, k);
    lemma_tops_grow(blocks, measured, unit, k, blocks.len() - 1);
    if k < blocks.len() - 1 {
        lemma_tops_grow(blocks, measured, unit, k + 1, blocks.len() - 1);
        lemma_height_is_positive(blocks, measured, unit, blocks.len() - 1);
    }
}

proof fn lemma_height_is_positive<C>(
    blocks: Seq<BlockPlan<C>>,
    measured: Seq<u32>,
    unit: int,
    k: int,
)
    requires
        0 <= unit,
    ensures
        0 <= block_height(blocks, measured, unit, k),
        0 <= BLOCK_GAP * unit,
{
    let padding = blocks[k].padding as int;
    assert(0 <= padding * unit) by (nonlinear_arith)
        requires
            0 <= padding,
            0 <= unit,
    ;
}

proof fn lemma_tops_grow<C>(
    blocks: Seq<BlockPlan<C>>,
    measured: Seq<u32>,
    unit: int,
    j: int,
    k: int,
)
    requires
        0 <= j <= k,
        0 <= unit,
    ensures
        block_top(blocks, measured, unit, j) <= block_top(blocks, measured, unit, k),
    decreases k,
{
    if j < k {
        lemma_tops_grow(blocks, measured, unit, j, k - 1);
        lemma_height_is_positive(blocks, measured, unit, k - 1);
    }
}

/// A message in a card is higher than the same message without one, by its
/// padding above and again below.
pub proof fn law_a_card_is_higher_by_its_padding<C>(
    role: Role,
    blocks: Seq<BlockPlan<C>>,
    measured: Seq<u32>,
    unit: int,
)
    ensures
        message_height(role, blocks, measured, unit) == message_height(
            Role::Assistant,
            blocks,
            measured,
            unit,
        ) + 2 * (card_padding(role) * unit),
        card_padding(Role::User) == USER_PAD_Y,
        card_padding(Role::Tool) == TOOL_PAD_Y,
{
    let none = card_padding(Role::Assistant);
    assert(none * unit == 0) by (nonlinear_arith)
        requires
            none == 0,
    ;
}

/// The measures of messages and blocks, in logical units and in hundredths of
/// body copy: indents of twelve for reasoning and twenty-four for the tool card,
/// card padding of eight for the user and six for the tool card, insets of ten
/// for code and twelve for quotes, six units of padding for code, and headings of
/// 132, 118 and 108 hundredths.
pub proof fn law_measures(role: Role, kind: BlockKind, level: u8)
    ensures
        indent(Role::User) == 0 && indent(Role::Assistant) == 0,
        indent(Role::Reasoning) == 12 && indent(Role::Tool) == 24,
        card_padding(Role::User) == 8 && card_padding(Role::Tool) == 6,
        card_padding(Role::Assistant) == 0 && card_padding(Role::Reasoning) == 0,
        is_aside(role) <==> role == Role::Reasoning || role == Role::Tool,
        kind is CodeBlock ==> kind_inset(kind) == 10 && kind_padding(kind) == 6,
        kind is BlockQuote ==> kind_inset(kind) == 12 && kind_padding(kind) == 0,
        !(kind is CodeBlock) && !(kind is BlockQuote) ==> kind_inset(kind) == 0 && kind_padding(
            kind,
        ) == 0,
        heading_size(1) == 132 && heading_size(2) == 118 && heading_size(3) == 108,
        level == 0 || level > 3 ==> heading_size(level) == 100,
{
}

/// The style of a message and of its blocks. An aside is muted and set at 92
/// hundredths; any other message has the given ink at full size. In it a heading
/// is bold and in the ink of body copy at its own size, code is in that ink, a
/// quote is muted, and any other block is set as the message is.
pub proof fn law_styles<C>(
    role: Role,
    kind: BlockKind,
    base: BlockStyle<C>,
    bold: bool,
    color: C,
    theme: Theme<C>,
)
    ensures
        ({
            let voice = voice_style(role, bold, color, theme);
            let aside = role == Role::Reasoning || role == Role::Tool;
            &&& voice.size == 100 && voice.bold == bold
            &&& aside ==> voice.voice == 92 && voice.color == theme.muted
            &&& !aside ==> voice.voice == 100 && voice.color == color
        }),
        ({
            let style = kind_style(kind, base, theme);
            let heading = kind is Heading;
            &&& style.voice == base.voice
            &&& kind matches BlockKind::Heading { level } ==> style.bold && style.color
                == theme.text && style.size == heading_size(level)
            &&& !heading ==> style.bold == base.bold && style.size == base.size
            &&& kind is CodeBlock ==> style.color == theme.text
            &&& kind is BlockQuote ==> style.color == theme.muted
            &&& !heading && !(kind is CodeBlock) && !(kind is BlockQuote) ==> style.color
                == base.color
        }),
{
}

/// Blocks are planned one after the other, each for itself: those of two parts of
/// a document are those of the first part and then those of the second. One block
/// gives one plan at most, which keeps its kind and holds all its text.
pub proof fn law_blocks_are_planned_in_order<C>(
    role: Role,
    a: Seq<BlockView>,
    b: Seq<BlockView>,
    base: BlockStyle<C>,
    theme: Theme<C>,
)
    ensures
        planned(role, Seq::empty(), base, theme) == Seq::<PlanView<C>>::empty(),
        planned(role, a + b, base, theme) == planned(role, a, base, theme) + planned(
            role,
            b,
            base,
            theme,
        ),
        a.len() == 1 ==> planned(role, a, base, theme).len() <= 1,
        a.len() == 1 && planned(role, a, base, theme).len() == 1 ==> {
            let plan = planned(role, a, base, theme)[0];
            &&& plan.kind == a[0].kind
            &&& plan.source == flat_text(drawn_lines(a[0]))
            &&& plan.spans == flat_styles(drawn_lines(a[0]))
            &&& plan.inset == kind_inset(a[0].kind) + indent(role)
            &&& plan.padding == kind_padding(a[0].kind)
            &&& plan.style == kind_style(a[0].kind, base, theme)
        },
    decreases b.len(),
{
    if a.len() == 1 {
        assert(planned(role, a.drop_last(), base, theme) =~= Seq::<PlanView<C>>::empty());
        assert(a.last() == a[0]);
    }
    if b.len() == 0 {
        assert(a + b =~= a);
        assert(planned(role, a, base, theme) + planned(role, b, base, theme) =~= planned(
            role,
            a,
            base,
            theme,
        ));
    } else {
        law_blocks_are_planned_in_order(role, a, b.drop_last(), base, theme);
        assert((a + b).drop_last() =~= a + b.drop_last());
        assert(planned(role, a + b, base, theme) =~= planned(role, a, base, theme) + planned(
            role,
            b,
            base,
            theme,
        ));
    }
}

/// A block of any kind but a quote or a table without lines is planned if and only
/// if one of its lines holds a character that is no white space, and the plan
/// holds the text of its lines.
pub proof fn law_a_block_with_text_is_planned<C>(
    role: Role,
    block: BlockView,
    base: BlockStyle<C>,
    theme: Theme<C>,
    l: int,
    s: int,
    c: int,
)
    requires
        !(block.kind is BlockQuote),
        !(block.kind is Table && block.lines.len() == 0),
    ensures
        0 <= l < block.lines.len() && 0 <= s < block.lines[l].spans.len() && 0 <= c
            < block.lines[l].spans[s].text.len() && !white_space(
            block.lines[l].spans[s].text[c],
        ) ==> planned(role, seq![block], base, theme).len() == 1,
        planned(role, seq![block], base, theme).len() == 1 ==> {
            let plan = planned(role, seq![block], base, theme)[0];
            &&& plan.kind == block.kind
            &&& plan.source == flat_text(block.lines)
            &&& plan.spans == flat_styles(block.lines)
        },
        (forall|i: int|
            0 <= i < flat_text(block.lines).len() ==> white_space(
                #[trigger] flat_text(block.lines)[i],
            )) <==> planned(role, seq![block], base, theme).len() == 0,
{
    let one = seq![block];
    let text = flat_text(block.lines);
    law_blocks_contribute_their_lines(block, 0);
    law_blocks_are_planned_in_order(role, one, Seq::empty(), base, theme);
    assert(one.drop_last() =~= Seq::<BlockView>::empty());
    assert(one.last() == block);
    assert(planned(role, one.drop_last(), base, theme) =~= Seq::<PlanView<C>>::empty());
    law_trimming_takes_only_the_ends(text, CharClass::WhiteSpace);
    if forall|i: int| 0 <= i < text.len() ==> white_space(#[trigger] text[i]) {
        assert forall|i: int| 0 <= i < text.len() implies crate::strings::in_class(
            CharClass::WhiteSpace,
            #[trigger] text[i],
        ) by {}
    }
    if trimmed(text).len() == 0 {
        assert forall|i: int| 0 <= i < text.len() implies white_space(#[trigger] text[i]) by {
            assert(crate::strings::in_class(CharClass::WhiteSpace, text[i]));
        }
    }
    if 0 <= l < block.lines.len() && 0 <= s < block.lines[l].spans.len() && 0 <= c
        < block.lines[l].spans[s].text.len() && !white_space(block.lines[l].spans[s].text[c]) {
        let found = block.lines[l].spans[s].text[c];
        lemma_text_holds(block.lines, l, s, c);
        let i = choose|i: int| 0 <= i < text.len() && text[i] == found;
        assert(!white_space(text[i]));
    }
}

/// The text of lines holds every character of their spans.
proof fn lemma_text_holds(lines: Seq<LineView>, l: int, s: int, c: int)
    requires
        0 <= l < lines.len(),
        0 <= s < lines[l].spans.len(),
        0 <= c < lines[l].spans[s].text.len(),
    ensures
        flat_text(lines).contains(lines[l].spans[s].text[c]),
{
    let found = lines[l].spans[s].text[c];
    let spans = lines[l].spans;
    let first = spans.take(s);
    let one = seq![spans[s]];
    let rest = spans.skip(s + 1);
    law_the_text_of_spans(one, rest);
    law_the_text_of_spans(first, one + rest);
    assert(spans =~= first + (one + rest));
    let line = spans_text(spans);
    let at = spans_text(first).len() + c;
    assert(line[at] == found);
    let head = lines.take(l);
    let this = seq![lines[l]];
    let tail = lines.skip(l + 1);
    law_lines_are_flattened_in_order(this, tail);
    law_lines_are_flattened_in_order(head, this + tail);
    assert(lines =~= head + (this + tail));
    let from = if head.len() > 0 {
        flat_text(head).len() + 1
    } else {
        0
    };
    if head.len() == 0 {
        assert(lines =~= this + tail);
    }
    if tail.len() == 0 {
        assert(this + tail =~= this);
    }
    assert(flat_text(this + tail)[at] == found);
    assert(flat_text(lines)[from + at] == found);
}

/// Blocks are stacked exactly: the first at the top, each of the others a gap of
/// eight logical units below the one before, each as high as its text and its
/// padding above and below. A message is as high as the bottom of its last block,
/// and its card's padding above and below.
pub proof fn law_blocks_are_stacked_exactly<C>(
    role: Role,
    blocks: Seq<BlockPlan<C>>,
    measured: Seq<u32>,
    unit: int,
    k: int,
)
    requires
        measured.len() == blocks.len(),
        0 <= k < blocks.len(),
    ensures
        block_top(blocks, measured, unit, 0) == 0,
        block_height(blocks, measured, unit, k) == measured[k] + blocks[k].padding * unit
            + blocks[k].padding * unit,
        k + 1 < blocks.len() ==> block_top(blocks, measured, unit, k + 1) == block_top(
            blocks,
            measured,
            unit,
            k,
        ) + block_height(blocks, measured, unit, k) + 8 * unit,
        message_height(role, blocks, measured, unit) == card_padding(role) * unit + block_top(
            blocks,
            measured,
            unit,
            blocks.len() - 1,
        ) + block_height(blocks, measured, unit, blocks.len() - 1) + card_padding(role) * unit,
        message_height(role, Seq::<BlockPlan<C>>::empty(), Seq::empty(), unit) == 2 * (card_padding(
            role,
        ) * unit),
{
}

/// The views of plans say what they hold, one by one.
pub proof fn law_views_say_what_is_planned<C>(plan: BlockPlan<C>, blocks: Seq<BlockPlan<C>>, i: int)
    ensures
        plan@ == (PlanView {
            kind: plan.kind,
            source: plan.source@,
            spans: styles(plan.spans@),
            inset: plan.inset as int,
            padding: plan.padding as int,
            style: plan.style,
        }),
        plans(blocks).len() == blocks.len(),
        0 <= i < blocks.len() ==> plans(blocks)[i] == blocks[i]@,
{
}

/// Of any block only one whose text as it is drawn is all white space is left out.
pub proof fn law_only_blank_blocks_are_left_out<C>(
    role: Role,
    block: BlockView,
    base: BlockStyle<C>,
    theme: Theme<C>,
)
    ensures
        (forall|i: int|
            0 <= i < flat_text(drawn_lines(block)).len() ==> white_space(
                #[trigger] flat_text(drawn_lines(block))[i],
            )) <==> planned(role, seq![block], base, theme).len() == 0,
{
    let one = seq![block];
    let text = flat_text(drawn_lines(block));
    assert(one.drop_last() =~= Seq::<BlockView>::empty());
    assert(one.last() == block);
    assert(planned(role, one.drop_last(), base, theme) =~= Seq::<PlanView<C>>::empty());
    law_trimming_takes_only_the_ends(text, CharClass::WhiteSpace);
    if forall|i: int| 0 <= i < text.len() ==> white_space(#[trigger] text[i]) {
        assert forall|i: int| 0 <= i < text.len() implies crate::strings::in_class(
            CharClass::WhiteSpace,
            #[trigger] text[i],
        ) by {}
    }
    if trimmed(text).len() == 0 {
        assert forall|i: int| 0 <= i < text.len() implies white_space(#[trigger] text[i]) by {
            assert(crate::strings::in_class(CharClass::WhiteSpace, text[i]));
        }
    }
}

/// Reasoning and the tool card are muted throughout; nothing else is tinted.
pub proof fn law_asides_are_muted_throughout<C>(theme: Theme<C>)
    ensures
        tint_of(Role::Reasoning, theme) == Some(theme.muted),
        tint_of(Role::Tool, theme) == Some(theme.muted),
        tint_of(Role::User, theme) is None,
        tint_of(Role::Assistant, theme) is None,
{
}

} // verus!
