//! Which bytes of the attached buffers are copied when a submission comes in.
//!
//! The declared ranges of one buffer may overlap. They are merged before any
//! byte is copied, so that no byte is sampled twice, and ranges that do not touch
//! stay apart, so that reserved capacity is not copied.
use std::collections::BTreeMap;

use vstd::prelude::*;

use crate::gpu::memory::{Kind, Memory};
use crate::gpu::submit::Resource;

verus! {

/// Bytes that the snapshots of one submission may take together.
pub const SNAPSHOT_BUDGET: u64 = 0x200_0000;

/// Bytes `start..end` of the buffer mapped at `va`.
#[derive(Clone, Copy, Debug, PartialEq, Eq, Structural)]
pub struct Span {
    pub va: u64,
    pub start: u64,
    pub end: u64,
}

impl Span {
    pub open spec fn wf(self) -> bool {
        self.start <= self.end
    }

    pub open spec fn holds(self, va: u64, byte: int) -> bool {
        self.va == va && self.start <= byte < self.end
    }

    pub open spec fn contains(self, other: Span) -> bool {
        self.va == other.va && self.start <= other.start && other.end <= self.end
    }

    /// Before the other span, with a gap between them if in the same buffer.
    pub open spec fn apart_before(self, other: Span) -> bool {
        self.va < other.va || (self.va == other.va && self.end < other.start)
    }

    pub open spec fn not_after(self, other: Span) -> bool {
        self.va < other.va || (self.va == other.va && self.start <= other.start)
    }
}

pub open spec fn all_wf(spans: Seq<Span>) -> bool {
    forall|i: int| 0 <= i < spans.len() ==> (#[trigger] spans[i]).wf()
}

pub open spec fn sorted(spans: Seq<Span>) -> bool {
    forall|i: int, j: int|
        0 <= i < j < spans.len() ==> (#[trigger] spans[i]).not_after(#[trigger] spans[j])
}

pub open spec fn apart(spans: Seq<Span>) -> bool {
    forall|i: int, j: int|
        0 <= i < j < spans.len() ==> (#[trigger] spans[i]).apart_before(#[trigger] spans[j])
}

#[verifier::opaque]
pub open spec fn covered(spans: Seq<Span>, va: u64, byte: int) -> bool {
    exists|i: int| 0 <= i < spans.len() && (#[trigger] spans[i]).holds(va, byte)
}

#[verifier::opaque]
pub open spec fn begins(spans: Seq<Span>, va: u64, start: u64) -> bool {
    exists|i: int|
        0 <= i < spans.len() && (#[trigger] spans[i]).va == va && spans[i].start == start
}

#[verifier::opaque]
pub open spec fn enclosed(spans: Seq<Span>, x: Span) -> bool {
    exists|i: int| 0 <= i < spans.len() && (#[trigger] spans[i]).contains(x)
}

/// Whether `out` is the union of the spans `input`: its spans are in order and do
/// not touch, each given span lies in one of them, each begins where a given span
/// begins, and each of their bytes lies in a given span.
pub open spec fn is_merged(input: Seq<Span>, out: Seq<Span>) -> bool {
    &&& all_wf(out)
    &&& apart(out)
    &&& forall|i: int| 0 <= i < input.len() ==> enclosed(out, #[trigger] input[i])
    &&& forall|j: int|
        0 <= j < out.len() ==> begins(input, (#[trigger] out[j]).va, out[j].start)
    &&& forall|j: int, b: int|
        0 <= j < out.len() && out[j].start <= b < out[j].end ==> #[trigger] covered(
            input,
            out[j].va,
            b,
        )
}

proof fn lemma_begins(spans: Seq<Span>, va: u64, start: u64) -> (i: int)
    requires
        begins(spans, va, start),
    ensures
        0 <= i < spans.len(),
        spans[i].va == va,
        spans[i].start == start,
{
    reveal(begins);
    choose|i: int|
        0 <= i < spans.len() && (#[trigger] spans[i]).va == va && spans[i].start == start
}

proof fn lemma_enclosed(spans: Seq<Span>, x: Span) -> (i: int)
    requires
        enclosed(spans, x),
    ensures
        0 <= i < spans.len(),
        spans[i].contains(x),
{
    reveal(enclosed);
    choose|i: int| 0 <= i < spans.len() && (#[trigger] spans[i]).contains(x)
}

proof fn lemma_covered(spans: Seq<Span>, va: u64, byte: int) -> (i: int)
    requires
        covered(spans, va, byte),
    ensures
        0 <= i < spans.len(),
        spans[i].holds(va, byte),
{
    reveal(covered);
    choose|i: int| 0 <= i < spans.len() && (#[trigger] spans[i]).holds(va, byte)
}

proof fn lemma_span_enclosed(input: Seq<Span>, a: Seq<Span>, b: Seq<Span>, i: int)
    requires
        all_wf(input),
        is_merged(input, a),
        is_merged(input, b),
        0 <= i < a.len(),
    ensures
        enclosed(b, a[i]),
{
    let s = a[i];
    let x = lemma_begins(input, s.va, s.start);
    let j = lemma_enclosed(b, input[x]);
    if b[j].end < s.end {
        let e = b[j].end as int;
        assert(b[j].wf());
        assert(s.start <= e < s.end);
        let y = lemma_covered(input, s.va, e);
        let k = lemma_enclosed(b, input[y]);
        if j < k {
            assert(b[j].apart_before(b[k]));
        } else if k < j {
            assert(b[k].apart_before(b[j]));
        }
        assert(false);
    }
    assert(b[j].contains(s));
    reveal(enclosed);
}

proof fn lemma_same_spans(input: Seq<Span>, a: Seq<Span>, b: Seq<Span>, i: int)
    requires
        all_wf(input),
        is_merged(input, a),
        is_merged(input, b),
        0 <= i < a.len(),
    ensures
        b.contains(a[i]),
{
    lemma_span_enclosed(input, a, b, i);
    let j = lemma_enclosed(b, a[i]);
    lemma_span_enclosed(input, b, a, j);
    let k = lemma_enclosed(a, b[j]);
    assert(a[i].wf());
    if i < k {
        assert(a[i].apart_before(a[k]));
    } else if k < i {
        assert(a[k].apart_before(a[i]));
    }
    assert(a[i] == b[j]);
}

proof fn lemma_apart_equal(a: Seq<Span>, b: Seq<Span>)
    requires
        all_wf(a),
        all_wf(b),
        apart(a),
        apart(b),
        forall|i: int| 0 <= i < a.len() ==> b.contains(#[trigger] a[i]),
        forall|i: int| 0 <= i < b.len() ==> a.contains(#[trigger] b[i]),
    ensures
        a == b,
    decreases a.len(),
{
    if a.len() == 0 {
        if b.len() > 0 {
            assert(a.contains(b[0]));
        }
        assert(a =~= b);
    } else {
        assert(b.contains(a[0]));
        assert(b.len() > 0);
        // Both begin with the least span.
        assert(a[0] == b[0]) by {
            let j = b.index_of(a[0]);
            assert(b[j] == a[0]);
            assert(a.contains(b[0]));
            let i = a.index_of(b[0]);
            assert(a[i] == b[0]);
            if j > 0 {
                assert(b[0].apart_before(b[j]));
                if i > 0 {
                    assert(a[0].apart_before(a[i]));
                    assert(a[0].wf() && b[0].wf());
                }
            }
        }
        let (a1, b1) = (a.drop_first(), b.drop_first());
        assert forall|i: int| 0 <= i < a1.len() implies b1.contains(#[trigger] a1[i]) by {
            assert(a1[i] == a[i + 1]);
            assert(b.contains(a[i + 1]));
            let j = b.index_of(a[i + 1]);
            assert(a[0].apart_before(a[i + 1]));
            assert(a[0].wf());
            assert(j != 0);
            assert(b1[j - 1] == a1[i]);
        }
        assert forall|i: int| 0 <= i < b1.len() implies a1.contains(#[trigger] b1[i]) by {
            assert(b1[i] == b[i + 1]);
            assert(a.contains(b[i + 1]));
            let j = a.index_of(b[i + 1]);
            assert(b[0].apart_before(b[i + 1]));
            assert(b[0].wf());
            assert(j != 0);
            assert(a1[j - 1] == b1[i]);
        }
        assert forall|i: int, j: int| 0 <= i < j < a1.len() implies (
        #[trigger] a1[i]).apart_before(#[trigger] a1[j]) by {
            assert(a[i + 1].apart_before(a[j + 1]));
        }
        assert forall|i: int, j: int| 0 <= i < j < b1.len() implies (
        #[trigger] b1[i]).apart_before(#[trigger] b1[j]) by {
            assert(b[i + 1].apart_before(b[j + 1]));
        }
        assert(all_wf(a1)) by {
            assert forall|i: int| 0 <= i < a1.len() implies (#[trigger] a1[i]).wf() by {
                assert(a[i + 1].wf());
            }
        }
        assert(all_wf(b1)) by {
            assert forall|i: int| 0 <= i < b1.len() implies (#[trigger] b1[i]).wf() by {
                assert(b[i + 1].wf());
            }
        }
        lemma_apart_equal(a1, b1);
        assert(a =~= seq![a[0]] + a1);
        assert(b =~= seq![b[0]] + b1);
    }
}

/// The union of spans does not depend on the order in which they are given, nor
/// on how often: there is one merged sequence.
pub proof fn merged_is_unique(input: Seq<Span>, a: Seq<Span>, b: Seq<Span>)
    requires
        all_wf(input),
        is_merged(input, a),
        is_merged(input, b),
    ensures
        a == b,
{
    assert forall|i: int| 0 <= i < a.len() implies b.contains(#[trigger] a[i]) by {
        lemma_same_spans(input, a, b, i);
    }
    assert forall|i: int| 0 <= i < b.len() implies a.contains(#[trigger] b[i]) by {
        lemma_same_spans(input, b, a, i);
    }
    lemma_apart_equal(a, b);
}

/// The same spans, in any order.
spec fn same_spans(a: Seq<Span>, b: Seq<Span>) -> bool {
    &&& forall|i: int| 0 <= i < a.len() ==> b.contains(#[trigger] a[i])
    &&& forall|i: int| 0 <= i < b.len() ==> a.contains(#[trigger] b[i])
}

fn insert_sorted(spans: &mut Vec<Span>, x: Span)
    requires
        sorted(old(spans)@),
    ensures
        sorted(final(spans)@),
        exists|k: int|
            0 <= k <= old(spans)@.len() && final(spans)@ == #[trigger] old(spans)@.insert(k, x),
{
    let mut k: usize = spans.len();
    while k > 0 && !(spans[k - 1].va < x.va || (spans[k - 1].va == x.va && spans[k - 1].start
        <= x.start))
        invariant
            k <= spans@.len(),
            sorted(spans@),
            forall|i: int| k <= i < spans@.len() ==> x.not_after(#[trigger] spans@[i]),
        decreases k,
    {
        k -= 1;
    }
    let ghost before = spans@;
    spans.insert(k, x);
    proof {
        assert forall|i: int, j: int| 0 <= i < j < spans@.len() implies (
        #[trigger] spans@[i]).not_after(#[trigger] spans@[j]) by {
            if i < k && j > k {
                assert(before[i].not_after(before[j - 1]));
            } else if i < k && j == k {
                assert(before[i].not_after(before[k - 1]));
            } else if i > k {
                assert(before[i - 1].not_after(before[j - 1]));
            } else if j < k {
                assert(before[i].not_after(before[j]));
            }
        }
        assert(spans@ == before.insert(k as int, x));
    }
}

fn sort_spans(input: &Vec<Span>) -> (out: Vec<Span>)
    ensures
        sorted(out@),
        same_spans(input@, out@),
{
    let mut out: Vec<Span> = Vec::new();
    let mut n: usize = 0;
    while n < input.len()
        invariant
            n <= input@.len(),
            sorted(out@),
            same_spans(input@.take(n as int), out@),
        decreases input@.len() - n,
    {
        let ghost before = out@;
        let x = input[n];
        insert_sorted(&mut out, x);
        proof {
            let k = choose|k: int|
                0 <= k <= before.len() && out@ == #[trigger] before.insert(k, x);
            let old_in = input@.take(n as int);
            let new_in = input@.take(n + 1);
            assert(new_in =~= old_in.push(x));
            assert forall|i: int| 0 <= i < new_in.len() implies out@.contains(
                #[trigger] new_in[i],
            ) by {
                if i == n {
                    assert(out@[k] == x);
                } else {
                    assert(old_in[i] == new_in[i]);
                    let j = before.index_of(old_in[i]);
                    assert(before.contains(old_in[i]));
                    assert(out@[if j < k {
                        j
                    } else {
                        j + 1
                    }] == new_in[i]);
                }
            }
            assert forall|i: int| 0 <= i < out@.len() implies new_in.contains(
                #[trigger] out@[i],
            ) by {
                if i == k {
                    assert(new_in[n as int] == x);
                } else {
                    let b = if i < k {
                        i
                    } else {
                        i - 1
                    };
                    assert(out@[i] == before[b]);
                    assert(old_in.contains(before[b]));
                    let j = old_in.index_of(before[b]);
                    assert(new_in[j] == out@[i]);
                }
            }
        }
        n += 1;
    }
    assert(input@.take(n as int) =~= input@);
    out
}

/// What the merge of a sorted prefix has established.
spec fn merging(input: Seq<Span>, n: int, out: Seq<Span>) -> bool {
    &&& is_merged(input.take(n), out)
    &&& n > 0 ==> out.len() > 0
    &&& n > 0 ==> out.last().va == input[n - 1].va && out.last().start <= input[n - 1].start
}

proof fn lemma_covered_grows(input: Seq<Span>, n: int, va: u64, byte: int)
    requires
        0 <= n < input.len(),
        covered(input.take(n), va, byte),
    ensures
        covered(input.take(n + 1), va, byte),
{
    let i = lemma_covered(input.take(n), va, byte);
    reveal(covered);
    assert(input.take(n + 1)[i].holds(va, byte));
}

proof fn lemma_begins_grows(input: Seq<Span>, n: int, va: u64, start: u64)
    requires
        0 <= n < input.len(),
        begins(input.take(n), va, start),
    ensures
        begins(input.take(n + 1), va, start),
{
    let i = lemma_begins(input.take(n), va, start);
    reveal(begins);
    assert(input.take(n + 1)[i].va == va);
}

/// A span that touches nothing merged so far is appended.
proof fn lemma_append(input: Seq<Span>, n: int, out: Seq<Span>)
    requires
        sorted(input),
        all_wf(input),
        0 <= n < input.len(),
        merging(input, n, out),
        n > 0 ==> out.last().apart_before(input[n]),
    ensures
        merging(input, n + 1, out.push(input[n])),
{
    let x = input[n];
    let (a, b) = (input.take(n), input.take(n + 1));
    let grown = out.push(x);
    assert(x.wf());
    if n == 0 {
        if out.len() > 0 {
            let i = lemma_begins(a, out[0].va, out[0].start);
        }
        assert(out.len() == 0);
    }
    assert forall|i: int, j: int| 0 <= i < j < grown.len() implies (
    #[trigger] grown[i]).apart_before(#[trigger] grown[j]) by {
        if j < out.len() {
            assert(out[i].apart_before(out[j]));
        } else if i < out.len() - 1 {
            assert(out[i].apart_before(out.last()));
            assert(out.last().wf() && out[i].wf());
        }
    }
    assert forall|i: int| 0 <= i < b.len() implies enclosed(grown, #[trigger] b[i]) by {
        reveal(enclosed);
        if i == n {
            assert(grown[out.len() as int].contains(b[i]));
        } else {
            assert(a[i] == b[i]);
            let j = lemma_enclosed(out, a[i]);
            assert(grown[j].contains(b[i]));
        }
    }
    assert forall|j: int| 0 <= j < grown.len() implies begins(
        b,
        (#[trigger] grown[j]).va,
        grown[j].start,
    ) by {
        if j < out.len() {
            assert(begins(a, out[j].va, out[j].start));
            lemma_begins_grows(input, n, out[j].va, out[j].start);
        } else {
            reveal(begins);
            assert(b[n].va == x.va);
        }
    }
    assert forall|j: int, c: int|
        0 <= j < grown.len() && grown[j].start <= c < grown[j].end implies #[trigger] covered(
        b,
        grown[j].va,
        c,
    ) by {
        if j < out.len() {
            assert(covered(a, out[j].va, c));
            lemma_covered_grows(input, n, out[j].va, c);
        } else {
            reveal(covered);
            assert(b[n].holds(x.va, c));
        }
    }
}

/// A span that touches the last merged one extends it.
proof fn lemma_extend(input: Seq<Span>, n: int, out: Seq<Span>, grown: Seq<Span>)
    requires
        sorted(input),
        all_wf(input),
        0 < n < input.len(),
        merging(input, n, out),
        out.last().va == input[n].va,
        input[n].start <= out.last().end,
        grown == out.update(
            out.len() - 1,
            Span {
                va: out.last().va,
                start: out.last().start,
                end: if out.last().end >= input[n].end {
                    out.last().end
                } else {
                    input[n].end
                },
            },
        ),
    ensures
        merging(input, n + 1, grown),
{
    let x = input[n];
    let last = out.len() - 1;
    let (a, b) = (input.take(n), input.take(n + 1));
    assert(x.wf() && out.last().wf());
    assert(input[n - 1].not_after(input[n]));
    assert forall|i: int, j: int| 0 <= i < j < grown.len() implies (
    #[trigger] grown[i]).apart_before(#[trigger] grown[j]) by {
        assert(out[i].apart_before(out[j]));
    }
    assert(all_wf(grown)) by {
        assert forall|i: int| 0 <= i < grown.len() implies (#[trigger] grown[i]).wf() by {
            assert(out[i].wf());
        }
    }
    assert forall|i: int| 0 <= i < b.len() implies enclosed(grown, #[trigger] b[i]) by {
        reveal(enclosed);
        if i == n {
            assert(grown[last].contains(b[i]));
        } else {
            assert(a[i] == b[i]);
            let j = lemma_enclosed(out, a[i]);
            assert(grown[j].contains(b[i]));
        }
    }
    assert forall|j: int| 0 <= j < grown.len() implies begins(
        b,
        (#[trigger] grown[j]).va,
        grown[j].start,
    ) by {
        assert(begins(a, out[j].va, out[j].start));
        lemma_begins_grows(input, n, out[j].va, out[j].start);
    }
    assert forall|j: int, c: int|
        0 <= j < grown.len() && grown[j].start <= c < grown[j].end implies #[trigger] covered(
        b,
        grown[j].va,
        c,
    ) by {
        if out[j].start <= c < out[j].end {
            assert(covered(a, out[j].va, c));
            lemma_covered_grows(input, n, out[j].va, c);
        } else {
            reveal(covered);
            assert(b[n].holds(grown[j].va, c));
        }
    }
}

/// Being merged from the same spans in another order is the same.
proof fn lemma_reorder(a: Seq<Span>, b: Seq<Span>, out: Seq<Span>)
    requires
        same_spans(a, b),
        is_merged(b, out),
    ensures
        is_merged(a, out),
{
    assert forall|i: int| 0 <= i < a.len() implies enclosed(out, #[trigger] a[i]) by {
        assert(b.contains(a[i]));
        let j = b.index_of(a[i]);
        assert(enclosed(out, b[j]));
    }
    assert forall|j: int| 0 <= j < out.len() implies begins(
        a,
        (#[trigger] out[j]).va,
        out[j].start,
    ) by {
        let i = lemma_begins(b, out[j].va, out[j].start);
        assert(a.contains(b[i]));
        let k = a.index_of(b[i]);
        reveal(begins);
        assert(a[k].va == out[j].va);
    }
    assert forall|j: int, c: int|
        0 <= j < out.len() && out[j].start <= c < out[j].end implies #[trigger] covered(
        a,
        out[j].va,
        c,
    ) by {
        assert(covered(b, out[j].va, c));
        let i = lemma_covered(b, out[j].va, c);
        assert(a.contains(b[i]));
        let k = a.index_of(b[i]);
        reveal(covered);
        assert(a[k].holds(out[j].va, c));
    }
}

/// The union of the given spans.
pub fn merge_spans(input: &Vec<Span>) -> (out: Vec<Span>)
    requires
        all_wf(input@),
    ensures
        is_merged(input@, out@),
{
    let spans = sort_spans(input);
    assert(all_wf(spans@)) by {
        assert forall|i: int| 0 <= i < spans@.len() implies (#[trigger] spans@[i]).wf() by {
            assert(input@.contains(spans@[i]));
        }
    }
    let mut out: Vec<Span> = Vec::new();
    let mut n: usize = 0;
    while n < spans.len()
        invariant
            n <= spans@.len(),
            sorted(spans@),
            all_wf(spans@),
            merging(spans@, n as int, out@),
        decreases spans@.len() - n,
    {
        let x = spans[n];
        let count: usize = out.len();
        let ghost before = out@;
        assert(n > 0 ==> spans@[n - 1].not_after(spans@[n as int]));
        if count > 0 && out[count - 1].va == x.va && x.start <= out[count - 1].end {
            let last = out[count - 1];
            let end: u64 = if last.end >= x.end {
                last.end
            } else {
                x.end
            };
            proof {
                if n == 0 {
                    let i = lemma_begins(spans@.take(0), before[0].va, before[0].start);
                }
            }
            out.set(count - 1, Span { va: last.va, start: last.start, end });
            proof {
                lemma_extend(spans@, n as int, before, out@);
            }
        } else {
            out.push(x);
            proof {
                lemma_append(spans@, n as int, before);
            }
        }
        n += 1;
    }
    proof {
        assert(spans@.take(n as int) =~= spans@);
        lemma_reorder(input@, spans@, out@);
    }
    out
}

/// The declared ranges of a submission: every buffer range, those of them that
/// the GPU may write, and the address of each image.
pub struct Declared {
    pub buffers: Seq<Span>,
    pub writes: Seq<Span>,
    pub images: Seq<u64>,
}

/// The declared ranges of the first `k` resources, or the first reason to refuse
/// one of them.
pub open spec fn declared_spec(
    resources: Seq<Resource>,
    attached: Map<u64, Memory>,
    k: nat,
) -> Result<Declared, &'static str>
    decreases k,
{
    if k == 0 {
        Ok(Declared { buffers: Seq::empty(), writes: Seq::empty(), images: Seq::empty() })
    } else {
        match declared_spec(resources, attached, (k - 1) as nat) {
            Err(e) => Err(e),
            Ok(d) => {
                let r = resources[k - 1];
                let m = attached[r.attachment_token];
                let end = r.range_offset + r.range_size;
                let span = Span { va: m.va, start: r.range_offset, end: end as u64 };
                if !attached.dom().contains(r.attachment_token) {
                    Err("unauthorized attachment")
                } else if end > u64::MAX {
                    Err("resource range overflow")
                } else if end > m.size {
                    Err("resource range exceeds attachment")
                } else if m.kind !is Buffer {
                    Ok(Declared { images: d.images.push(m.va), ..d })
                } else if r.access.write {
                    Ok(
                        Declared {
                            buffers: d.buffers.push(span),
                            writes: d.writes.push(span),
                            ..d
                        },
                    )
                } else {
                    Ok(Declared { buffers: d.buffers.push(span), ..d })
                }
            },
        }
    }
}

proof fn lemma_declared_refusal(
    resources: Seq<Resource>,
    attached: Map<u64, Memory>,
    k: nat,
    n: nat,
)
    requires
        k <= n,
        declared_spec(resources, attached, k) is Err,
    ensures
        declared_spec(resources, attached, n) == declared_spec(resources, attached, k),
    decreases n,
{
    if k < n {
        lemma_declared_refusal(resources, attached, k, (n - 1) as nat);
    }
}

/// Sum of the lengths of the first `k` spans.
pub open spec fn total_length(spans: Seq<Span>, k: nat) -> int
    decreases k,
{
    if k == 0 {
        0
    } else {
        total_length(spans, (k - 1) as nat) + spans[k - 1].end - spans[k - 1].start
    }
}

/// What the copying of the first `k` merged spans is answered.
pub open spec fn budget_spec(spans: Seq<Span>, k: nat) -> Result<(), &'static str>
    decreases k,
{
    if k == 0 {
        Ok(())
    } else {
        match budget_spec(spans, (k - 1) as nat) {
            Err(e) => Err(e),
            Ok(_) => if total_length(spans, k) > u64::MAX {
                Err("GPU snapshot size overflow")
            } else if total_length(spans, k) > SNAPSHOT_BUDGET {
                Err("GPU snapshot budget exceeded")
            } else {
                Ok(())
            },
        }
    }
}

proof fn lemma_budget_refusal(spans: Seq<Span>, k: nat, n: nat)
    requires
        k <= n,
        budget_spec(spans, k) is Err,
    ensures
        budget_spec(spans, n) == budget_spec(spans, k),
    decreases n,
{
    if k < n {
        lemma_budget_refusal(spans, k, (n - 1) as nat);
    }
}

fn check_budget(spans: &Vec<Span>) -> (r: Result<(), &'static str>)
    requires
        all_wf(spans@),
    ensures
        r == budget_spec(spans@, spans@.len()),
{
    let mut total: u64 = 0;
    let mut k: usize = 0;
    while k < spans.len()
        invariant
            k <= spans@.len(),
            all_wf(spans@),
            total == total_length(spans@, k as nat),
            budget_spec(spans@, k as nat) is Ok,
        decreases spans@.len() - k,
    {
        assert(spans@[k as int].wf());
        proof {
            if budget_spec(spans@, (k + 1) as nat) is Err {
                lemma_budget_refusal(spans@, (k + 1) as nat, spans@.len());
            }
        }
        let size: u64 = spans[k].end - spans[k].start;
        total = match total.checked_add(size) {
            None => {
                return Err("GPU snapshot size overflow");
            },
            Some(sum) => sum,
        };
        if total > SNAPSHOT_BUDGET {
            return Err("GPU snapshot budget exceeded");
        }
        k += 1;
    }
    Ok(())
}

/// What to copy before a submission runs and after it has retired.
#[derive(Debug)]
pub struct Prepared {
    /// Merged buffer ranges to copy in.
    pub buffers: Vec<Span>,
    /// Declared writable ranges to copy back, once the GPU is done with them.
    pub writes: Vec<Span>,
    /// Images that the submission keeps alive, by address.
    pub images: Vec<u64>,
}

/// Whether `p` is the plan for the resources.
pub open spec fn is_prepared(d: Declared, p: Prepared) -> bool {
    is_merged(d.buffers, p.buffers@) && p.writes@ == d.writes && p.images@ == d.images
}

fn declare(resources: &Vec<Resource>, attached: &BTreeMap<u64, Memory>) -> (r: Result<
    Prepared,
    &'static str,
>)
    ensures
        match declared_spec(resources@, attached@, resources@.len()) {
            Err(e) => r matches Err(f) && f == e,
            Ok(d) => r matches Ok(p) && p.buffers@ == d.buffers && p.writes@ == d.writes
                && p.images@ == d.images && all_wf(d.buffers),
        },
{
    let mut buffers: Vec<Span> = Vec::new();
    let mut writes: Vec<Span> = Vec::new();
    let mut images: Vec<u64> = Vec::new();
    let mut k: usize = 0;
    while k < resources.len()
        invariant
            k <= resources@.len(),
            declared_spec(resources@, attached@, k as nat) == Ok::<Declared, &'static str>(
                Declared { buffers: buffers@, writes: writes@, images: images@ },
            ),
            all_wf(buffers@),
        decreases resources@.len() - k,
    {
        proof {
            if declared_spec(resources@, attached@, (k + 1) as nat) is Err {
                lemma_declared_refusal(
                    resources@,
                    attached@,
                    (k + 1) as nat,
                    resources@.len(),
                );
            }
        }
        let r = resources[k];
        let m = match attached.get(&r.attachment_token) {
            None => {
                return Err("unauthorized attachment");
            },
            Some(m) => m,
        };
        let end: u64 = match r.range_offset.checked_add(r.range_size) {
            None => {
                return Err("resource range overflow");
            },
            Some(end) => end,
        };
        if end > m.size {
            return Err("resource range exceeds attachment");
        }
        let is_buffer = match &m.kind {
            Kind::Buffer => true,
            _ => false,
        };
        if is_buffer {
            let span = Span { va: m.va, start: r.range_offset, end };
            buffers.push(span);
            if r.access.write {
                writes.push(span);
            }
        } else {
            images.push(m.va);
        }
        k += 1;
    }
    Ok(Prepared { buffers, writes, images })
}

/// Plans the copies of a submission: every declared range must lie in an object
/// of the context, and the merged buffer ranges must fit the budget. Images are
/// not copied.
pub fn prepare(resources: &Vec<Resource>, attached: &BTreeMap<u64, Memory>) -> (r: Result<
    Prepared,
    &'static str,
>)
    ensures
        match declared_spec(resources@, attached@, resources@.len()) {
            Err(e) => r matches Err(f) && f == e,
            Ok(d) => forall|merged: Seq<Span>| #[trigger]
                is_merged(d.buffers, merged) ==> match budget_spec(merged, merged.len()) {
                    Err(e) => r matches Err(f) && f == e,
                    Ok(_) => r matches Ok(p) && is_prepared(d, p) && p.buffers@ == merged,
                },
        },
        declared_spec(resources@, attached@, resources@.len()) matches Ok(d) ==> exists|
            merged: Seq<Span>,
        | #[trigger]
            is_merged(d.buffers, merged),
{
    let declared = match declare(resources, attached) {
        Err(e) => {
            return Err(e);
        },
        Ok(declared) => declared,
    };
    let merged = merge_spans(&declared.buffers);
    let ghost d = declared_spec(resources@, attached@, resources@.len())->Ok_0;
    proof {
        assert(is_merged(d.buffers, merged@));
        assert forall|other: Seq<Span>| #[trigger] is_merged(d.buffers, other) implies other
            == merged@ by {
            merged_is_unique(d.buffers, other, merged@);
        }
    }
    if let Err(e) = check_budget(&merged) {
        return Err(e);
    }
    Ok(Prepared { buffers: merged, writes: declared.writes, images: declared.images })
}

/// Snapshots take at most 32 mebibytes together.
pub proof fn snapshots_have_a_budget(spans: Seq<Span>, k: nat)
    requires
        all_wf(spans),
        k <= spans.len(),
    ensures
        budget_spec(spans, k) is Ok <==> total_length(spans, k) <= 0x200_0000,
        0 <= total_length(spans, k),
    decreases k,
{
    if k > 0 {
        snapshots_have_a_budget(spans, (k - 1) as nat);
        assert(spans[k - 1].wf());
    }
}

/// Each buffer that was declared has its range declared, to be read or written, and each
/// image is named; nothing else is.
pub proof fn declarations_are_kept(
    resources: Seq<Resource>,
    attached: Map<u64, Memory>,
    k: nat,
    i: int,
    d: Declared,
)
    requires
        declared_spec(resources, attached, k) == Ok::<Declared, &'static str>(d),
        0 <= i < k <= resources.len(),
    ensures
        ({
            let r = resources[i];
            let m = attached[r.attachment_token];
            let span = Span { va: m.va, start: r.range_offset, end: (r.range_offset + r.range_size) as u64 };
            &&& attached.dom().contains(r.attachment_token)
            &&& r.range_offset + r.range_size <= m.size
            &&& m.kind is Buffer ==> d.buffers.contains(span)
            &&& m.kind is Buffer && r.access.write ==> d.writes.contains(span)
            &&& !(m.kind is Buffer) ==> d.images.contains(m.va)
            &&& d.buffers.len() + d.images.len() == k
            &&& d.writes.len() <= d.buffers.len()
        }),
    decreases k,
{
    let before = declared_spec(resources, attached, (k - 1) as nat)->Ok_0;
    if i < k - 1 {
        declarations_are_kept(resources, attached, (k - 1) as nat, i, before);
        lemma_kept(before.buffers, d.buffers);
        lemma_kept(before.writes, d.writes);
        lemma_kept(before.images, d.images);
    } else {
        if k > 1 {
            declarations_are_kept(resources, attached, (k - 1) as nat, 0, before);
        }
        assert(d.buffers.len() > 0 ==> d.buffers[d.buffers.len() - 1] == d.buffers.last());
        assert(d.writes.len() > 0 ==> d.writes[d.writes.len() - 1] == d.writes.last());
        assert(d.images.len() > 0 ==> d.images[d.images.len() - 1] == d.images.last());
    }
}

proof fn lemma_kept<T>(before: Seq<T>, after: Seq<T>)
    requires
        before.len() <= after.len(),
        forall|j: int| 0 <= j < before.len() ==> before[j] == after[j],
    ensures
        forall|x: T| before.contains(x) ==> after.contains(x),
{
    assert forall|x: T| before.contains(x) implies after.contains(x) by {
        let j = choose|j: int| 0 <= j < before.len() && before[j] == x;
        assert(after[j] == x);
    }
}

} // verus!
