//! Text layout decisions that need no measuring: alignment, and how a run of
//! glyphs is cut into batches that can be drawn in one go.
use vstd::prelude::*;

verus! {

/// Horizontal alignment of a paragraph within its wrap width.
#[derive(Clone, Copy, Debug, PartialEq, Eq, Structural)]
pub enum Align {
    Start,
    Center,
    /// Trailing edge of the wrap width (right, for left-to-right text).
    End,
}

impl Default for Align {
    fn default() -> (align: Self)
        ensures
            align == Align::Start,
    {
        Align::Start
    }
}

/// The glyphs `start..end` of a run, which all fade by the same `step`.
#[derive(Clone, Copy, Debug, PartialEq, Eq)]
pub struct Batch {
    pub start: usize,
    pub end: usize,
    pub step: u8,
}

/// A batch covers glyphs of `steps`, at least one, that all have its step.
pub open spec fn is_batch(steps: Seq<u8>, batch: Batch) -> bool {
    &&& batch.start < batch.end <= steps.len()
    &&& forall|i: int| batch.start <= i < batch.end ==> #[trigger] steps[i] == batch.step
}

/// `batches` cut `steps` into its longest runs of equal steps: they follow one
/// another without a gap from the first glyph to the last, and neighbours differ.
pub open spec fn is_batching(steps: Seq<u8>, batches: Seq<Batch>) -> bool {
    &&& batches.len() == 0 <==> steps.len() == 0
    &&& batches.len() > 0 ==> batches[0].start == 0 && batches.last().end == steps.len()
    &&& forall|k: int| 0 <= k < batches.len() ==> is_batch(steps, #[trigger] batches[k])
    &&& forall|k: int, next: int|
        0 <= k && next == k + 1 && next < batches.len() ==> (#[trigger] batches[k]).end == (
        #[trigger] batches[next]).start && batches[k].step != batches[next].step
}

/// Cuts a run of glyphs into batches of equal fade steps, as long as they can
/// be. Settled text is a single batch.
pub fn batch_glyphs(steps: &[u8]) -> (batches: Vec<Batch>)
    ensures
        is_batching(steps@, batches@),
{
    let mut batches: Vec<Batch> = Vec::new();
    let mut start: usize = 0;
    let len = steps.len();
    while start < len
        invariant
            len == steps@.len(),
            start <= len,
            start == 0 <==> batches@.len() == 0,
            batches@.len() > 0 ==> batches@[0].start == 0 && batches@.last().end == start,
            batches@.len() > 0 && start < len ==> batches@.last().step != steps@[start as int],
            forall|k: int| 0 <= k < batches@.len() ==> is_batch(steps@, #[trigger] batches@[k]),
            forall|k: int, next: int|
                0 <= k && next == k + 1 && next < batches@.len() ==> (
                #[trigger] batches@[k]).end == (#[trigger] batches@[next]).start
                    && batches@[k].step != batches@[next].step,
        decreases len - start,
    {
        let step = steps[start];
        let mut end: usize = start + 1;
        while end < len && steps[end] == step
            invariant
                len == steps@.len(),
                start < end <= len,
                forall|i: int| start <= i < end ==> #[trigger] steps@[i] == step,
            decreases len - end,
        {
            end = end + 1;
        }
        batches.push(Batch { start, end, step });
        start = end;
    }
    batches
}

/// There is only one way to cut a run into its longest batches.
pub proof fn law_batching_is_unique(steps: Seq<u8>, a: Seq<Batch>, b: Seq<Batch>)
    requires
        is_batching(steps, a),
        is_batching(steps, b),
    ensures
        a == b,
{
    lemma_same_batches(steps, a, b, a.len() as int);
    lemma_same_batches(steps, b, a, b.len() as int);
    assert(a =~= b);
}

proof fn lemma_same_batches(steps: Seq<u8>, a: Seq<Batch>, b: Seq<Batch>, upto: int)
    requires
        is_batching(steps, a),
        is_batching(steps, b),
        0 <= upto <= a.len(),
    ensures
        upto <= b.len(),
        forall|k: int| 0 <= k < upto ==> #[trigger] a[k] == b[k],
    decreases upto,
{
    if upto > 0 {
        let k = upto - 1;
        lemma_same_batches(steps, a, b, k);
        assert(is_batch(steps, a[k]));
        if k > 0 {
            assert(a[k - 1] == b[k - 1]);
            assert(a[k - 1].end == a[k].start);
            if k >= b.len() {
                assert(b.last() == b[k - 1]);
                assert(a[k].start == steps.len());
            }
            assert(b[k - 1].end == b[k].start);
        }
        assert(is_batch(steps, b[k]));
        assert(a[k].start == b[k].start);
        assert(steps[a[k].start as int] == a[k].step);
        assert(steps[b[k].start as int] == b[k].step);
        if a[k].end < b[k].end {
            if k == a.len() - 1 {
                assert(a.last() == a[k]);
            }
            assert(is_batch(steps, a[k + 1]));
            assert(a[k].end == a[k + 1].start);
            assert(steps[a[k + 1].start as int] == a[k + 1].step);
            assert(steps[a[k].end as int] == b[k].step);
        } else if b[k].end < a[k].end {
            if k == b.len() - 1 {
                assert(b.last() == b[k]);
            }
            assert(is_batch(steps, b[k + 1]));
            assert(b[k].end == b[k + 1].start);
            assert(steps[b[k + 1].start as int] == b[k + 1].step);
            assert(steps[b[k].end as int] == a[k].step);
        }
    }
}

/// Every glyph is drawn with its own step: it lies in a batch of that step. No two
/// batches hold the same glyph, and no two neighbours could be one.
pub proof fn law_every_glyph_is_drawn_once_with_its_step(
    steps: Seq<u8>,
    batches: Seq<Batch>,
    i: int,
)
    requires
        is_batching(steps, batches),
        0 <= i < steps.len(),
    ensures
        exists|k: int|
            0 <= k < batches.len() && (#[trigger] batches[k]).start <= i < batches[k].end
                && batches[k].step == steps[i],
        forall|j: int, k: int|
            0 <= j < k < batches.len() ==> (#[trigger] batches[j]).end <= (
            #[trigger] batches[k]).start,
        forall|j: int, k: int|
            0 <= j && k == j + 1 && k < batches.len() ==> steps[(#[trigger] batches[j]).end - 1]
                != steps[(#[trigger] batches[k]).start as int],
{
    lemma_in_order(steps, batches);
    let k = lemma_batch_of(steps, batches, i, batches.len() as int);
    assert(is_batch(steps, batches[k]));
    assert forall|j: int, k: int| 0 <= j && k == j + 1 && k < batches.len() implies steps[(
    #[trigger] batches[j]).end - 1] != steps[(#[trigger] batches[k]).start as int] by {
        assert(is_batch(steps, batches[j]));
        assert(is_batch(steps, batches[k]));
        assert(batches[j].step != batches[k].step);
    }
}

proof fn lemma_in_order(steps: Seq<u8>, batches: Seq<Batch>)
    requires
        is_batching(steps, batches),
    ensures
        forall|j: int, k: int|
            0 <= j < k < batches.len() ==> (#[trigger] batches[j]).end <= (
            #[trigger] batches[k]).start,
{
    assert forall|j: int, k: int| 0 <= j < k < batches.len() implies (#[trigger] batches[j]).end
        <= (#[trigger] batches[k]).start by {
        lemma_before(steps, batches, j, k);
    }
}

proof fn lemma_before(steps: Seq<u8>, batches: Seq<Batch>, j: int, k: int)
    requires
        is_batching(steps, batches),
        0 <= j < k < batches.len(),
    ensures
        batches[j].end <= batches[k].start,
    decreases k - j,
{
    assert(batches[k - 1].end == batches[k].start);
    if j < k - 1 {
        lemma_before(steps, batches, j, k - 1);
        assert(is_batch(steps, batches[k - 1]));
    }
}

proof fn lemma_batch_of(steps: Seq<u8>, batches: Seq<Batch>, i: int, upto: int) -> (k: int)
    requires
        is_batching(steps, batches),
        0 < upto <= batches.len(),
        0 <= i < batches[upto - 1].end,
    ensures
        0 <= k < batches.len(),
        batches[k].start <= i < batches[k].end,
    decreases upto,
{
    if batches[upto - 1].start <= i {
        upto - 1
    } else {
        assert(upto > 1);
        assert(batches[upto - 2].end == batches[upto - 1].start);
        lemma_batch_of(steps, batches, i, upto - 1)
    }
}

} // verus!
