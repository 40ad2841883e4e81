//! What a submission has the engines do, read from the words that are pushed.
use vstd::prelude::*;

use crate::gpu::graphics;
use crate::gpu::graphics::{Methods, SubmitError, Viewport};
use crate::gpu::push;
use crate::gpu::push::{Call, Command};
use crate::gpu::submit;
use crate::gpu::submit::{Pipeline, Variant};

verus! {

/// A submission was encoded, and one of its operations is this.
pub open spec fn encoded(
    m: Methods,
    pipelines: Seq<Pipeline>,
    operations: Seq<[u32; 64]>,
    viewports: Seq<Viewport>,
    sequence: u32,
    words: Seq<u32>,
    k: int,
    kind: u32,
) -> bool {
    &&& graphics::encode_spec(m, pipelines, operations, viewports, sequence)
        == Ok::<Seq<u32>, SubmitError>(words)
    &&& 0 <= k < operations.len()
    &&& operations[k]@[0] == kind
}

proof fn lemma_operations(
    m: Methods,
    pipelines: Seq<Pipeline>,
    operations: Seq<[u32; 64]>,
    viewports: Seq<Viewport>,
    k: int,
    n: nat,
) -> (r: (Seq<Command>, Seq<Command>))
    requires
        0 <= k < n,
        graphics::operations_commands(m, pipelines, operations, viewports, n) is Ok,
    ensures
        graphics::operation_spec(m, pipelines, operations[k]@, viewports[k]) is Ok,
        graphics::operations_commands(m, pipelines, operations, viewports, n)->Ok_0 == r.0 + graphics::operation_spec(
            m,
            pipelines,
            operations[k]@,
            viewports[k],
        )->Ok_0 + r.1,
    decreases n,
{
    let last = (n - 1) as nat;
    let before = graphics::operations_commands(m, pipelines, operations, viewports, last)->Ok_0;
    let own = graphics::operation_spec(m, pipelines, operations[k]@, viewports[k])->Ok_0;
    if k == n - 1 {
        assert(before + own + seq![] =~= before + own);
        (before, seq![])
    } else {
        let (a, b) = lemma_operations(m, pipelines, operations, viewports, k, last);
        let next = graphics::operation_spec(m, pipelines, operations[n - 1]@, viewports[n - 1])->Ok_0;
        assert(a + own + (b + next) =~= a + own + b + next);
        (a, b + next)
    }
}

/// What an operation has the engine get, the words of the submission have it get.
proof fn lemma_operation(
    m: Methods,
    pipelines: Seq<Pipeline>,
    operations: Seq<[u32; 64]>,
    viewports: Seq<Viewport>,
    sequence: u32,
    words: Seq<u32>,
    k: int,
    kind: u32,
    list: Seq<Call>,
)
    requires
        encoded(m, pipelines, operations, viewports, sequence, words, k, kind),
        graphics::operation_spec(m, pipelines, operations[k]@, viewports[k]) is Ok ==> push::gets(
            push::all_calls(graphics::operation_spec(m, pipelines, operations[k]@, viewports[k])->Ok_0),
            list,
        ),
    ensures
        push::gets(push::calls(words), list),
{
    let n = operations.len();
    let commands = graphics::operations_commands(m, pipelines, operations, viewports, n)->Ok_0;
    let fence = graphics::fence_spec(m, (sequence + 1) as u32);
    push::engines_get_what_is_pushed(commands + fence);
    let (a, b) = lemma_operations(m, pipelines, operations, viewports, k, n);
    let own = graphics::operation_spec(m, pipelines, operations[k]@, viewports[k])->Ok_0;
    assert(commands + fence =~= a + own + (b + fence));
    push::lemma_calls_add(a, own);
    push::lemma_calls_add(a + own, b + fence);
    push::lemma_gets_within(push::all_calls(a), push::all_calls(own), push::all_calls(b + fence), list);
}

/// The pipeline of an encoded draw is known.
proof fn lemma_pipeline(
    m: Methods,
    pipelines: Seq<Pipeline>,
    operations: Seq<[u32; 64]>,
    viewports: Seq<Viewport>,
    sequence: u32,
    words: Seq<u32>,
    k: int,
)
    requires
        encoded(m, pipelines, operations, viewports, sequence, words, k, 2),
    ensures
        submit::pipeline_of(pipelines, operations[k]@[21]) is Some,
{
    let n = operations.len();
    let (a, b) = lemma_operations(m, pipelines, operations, viewports, k, n);
}

/// A list that is got within a part of a draw is got within the draw.
proof fn lemma_part(before: Seq<Command>, part: Seq<Command>, after: Seq<Command>, list: Seq<Call>)
    requires
        push::gets(push::all_calls(part), list),
    ensures
        push::gets(push::all_calls(before + part + after), list),
{
    push::lemma_calls_add(before, part);
    push::lemma_calls_add(before + part, after);
    push::lemma_gets_within(push::all_calls(before), push::all_calls(part), push::all_calls(after), list);
}

/// The parts of a draw, by their number.
spec fn draw_part(m: Methods, w: Seq<u32>, v: Viewport, p: Pipeline, n: int) -> Seq<Command> {
    if n == 0 {
        graphics::target_spec(m, w)
    } else if n == 1 {
        graphics::draw_viewport(m, w, v)
    } else if n == 2 {
        graphics::draw_raster(m, w[22])
    } else if n == 3 {
        graphics::shader_stage(m, 1, p.vertex)
    } else if n == 4 {
        graphics::shader_stage(m, 5, p.fragment)
    } else if n == 5 {
        graphics::draw_vertices(m, w, p.variant)
    } else if n == 6 {
        graphics::draw_texture(m, w)
    } else {
        graphics::draw_primitives(m, w)
    }
}

proof fn lemma_draw_part(
    m: Methods,
    w: Seq<u32>,
    v: Viewport,
    p: Pipeline,
    n: int,
    list: Seq<Call>,
)
    requires
        0 <= n < 8,
        push::gets(push::all_calls(draw_part(m, w, v, p, n)), list),
    ensures
        push::gets(push::all_calls(graphics::draw_program_spec(m, w, v, p)), list),
{
    let a = graphics::target_spec(m, w);
    let b = graphics::draw_viewport(m, w, v);
    let c = graphics::draw_raster(m, w[22]);
    let d = graphics::shader_stage(m, 1, p.vertex);
    let e = graphics::shader_stage(m, 5, p.fragment);
    let f = seq![push::method_spec(0, 0x0360, seq![0x2016_4010u32, 0x20u32])];
    let g = graphics::draw_vertices(m, w, p.variant);
    let h = graphics::draw_texture(m, w);
    let i = graphics::draw_primitives(m, w);
    let whole = graphics::draw_program_spec(m, w, v, p);
    let none = Seq::<Command>::empty();
    if n == 0 {
        let after = b + c + d + e + f + g + h + i;
        assert(whole =~= none + a + after);
        lemma_part(none, a, after, list);
    } else if n == 1 {
        let after = c + d + e + f + g + h + i;
        assert(whole =~= a + b + after);
        lemma_part(a, b, after, list);
    } else if n == 2 {
        let after = d + e + f + g + h + i;
        assert(whole =~= (a + b) + c + after);
        lemma_part(a + b, c, after, list);
    } else if n == 3 {
        let after = e + f + g + h + i;
        assert(whole =~= (a + b + c) + d + after);
        lemma_part(a + b + c, d, after, list);
    } else if n == 4 {
        let after = f + g + h + i;
        assert(whole =~= (a + b + c + d) + e + after);
        lemma_part(a + b + c + d, e, after, list);
    } else if n == 5 {
        let after = h + i;
        assert(whole =~= (a + b + c + d + e + f) + g + after);
        lemma_part(a + b + c + d + e + f, g, after, list);
    } else if n == 6 {
        assert(whole =~= (a + b + c + d + e + f + g) + h + i);
        lemma_part(a + b + c + d + e + f + g, h, i, list);
    } else {
        assert(whole =~= (a + b + c + d + e + f + g + h) + i + none);
        lemma_part(a + b + c + d + e + f + g + h, i, none, list);
    }
}

/// What a part of a draw has the engine get, the words of the submission have it get.
proof fn lemma_drawn(
    m: Methods,
    pipelines: Seq<Pipeline>,
    operations: Seq<[u32; 64]>,
    viewports: Seq<Viewport>,
    sequence: u32,
    words: Seq<u32>,
    k: int,
    n: int,
    list: Seq<Call>,
)
    requires
        encoded(m, pipelines, operations, viewports, sequence, words, k, 2),
        0 <= n < 8,
        submit::pipeline_of(pipelines, operations[k]@[21]) matches Some(p) ==> push::gets(
            push::all_calls(draw_part(m, operations[k]@, viewports[k], p, n)),
            list,
        ),
    ensures
        push::gets(push::calls(words), list),
{
    lemma_pipeline(m, pipelines, operations, viewports, sequence, words, k);
    let p = submit::pipeline_of(pipelines, operations[k]@[21])->0;
    lemma_draw_part(m, operations[k]@, viewports[k], p, n, list);
    lemma_operation(m, pipelines, operations, viewports, sequence, words, k, 2, list);
}

proof fn lemma_halves(x: u64)
    by (bit_vector)
    ensures
        (x >> 32) as u32 == x / 0x1_0000_0000,
        x as u32 == x % 0x1_0000_0000,
{
}

proof fn lemma_joined(low: u32, high: u32)
    by (bit_vector)
    ensures
        (((high as u64) << 32) | low as u64) == low + 0x1_0000_0000 * high,
{
}

proof fn lemma_packed(low: u32, high: u32)
    by (bit_vector)
    requires
        low < 0x1_0000,
        high < 0x1_0000,
    ensures
        (high << 16) | low == low + 0x1_0000 * high,
{
}

/// The engine fetches exactly the elements that an accepted draw names: behind the start of
/// triangles come the first element and their number, for vertices or for indices, and then
/// the end. Vertices are counted from the draw's own base; indices stand from the first byte
/// of their array to the last one of the draw's last index.
pub proof fn draws_fetch_their_elements(
    m: Methods,
    pipelines: Seq<Pipeline>,
    operations: Seq<[u32; 64]>,
    viewports: Seq<Viewport>,
    sequence: u32,
    words: Seq<u32>,
    k: int,
)
    requires
        encoded(m, pipelines, operations, viewports, sequence, words, k, 2),
        graphics::drawable(operations[k]@),
    ensures
        ({
            let w = operations[k]@;
            let first = w[24];
            let count = w[25];
            let method = if w[26] == 0 {
                m.vertex_buffer_first
            } else {
                m.index_batch_first
            };
            &&& push::gets(
                push::calls(words),
                seq![
                    (Call { sub: 0, method: m.vertex_begin_gl as int, value: 4 }),
                    (Call { sub: 0, method: method as int, value: first }),
                    (Call { sub: 0, method: method + 4, value: count }),
                    (Call { sub: 0, method: m.vertex_end_gl as int, value: 0 }),
                ],
            )
            &&& push::gets(push::calls(words), push::run_of(0, m.vb_element_base as int, seq![w[27]]))
            &&& w[26] != 0 ==> {
                let last = w[8] + 0x1_0000_0000 * w[9] + (first + count) * (if w[26] == 1 {
                    2int
                } else {
                    4
                }) - 1;
                push::gets(
                    push::calls(words),
                    push::run_of(
                        0,
                        m.index_array_start_high as int,
                        seq![
                            w[9],
                            w[8],
                            (last / 0x1_0000_0000) as u32,
                            (last % 0x1_0000_0000) as u32,
                            w[26],
                        ],
                    ),
                )
            }
        }),
{
    let w = operations[k]@;
    let part = graphics::draw_primitives(m, w);
    let n = part.len() as int;
    let method = if w[26] == 0 {
        m.vertex_buffer_first
    } else {
        m.index_batch_first
    };
    let begin = push::one_spec(m.vertex_begin_gl, 4);
    let fetch = push::method_spec(0, method, seq![w[24], w[25]]);
    let end = push::one_spec(m.vertex_end_gl, 0);
    let list = seq![
        (Call { sub: 0, method: m.vertex_begin_gl as int, value: 4 }),
        (Call { sub: 0, method: method as int, value: w[24] }),
        (Call { sub: 0, method: method + 4, value: w[25] }),
        (Call { sub: 0, method: m.vertex_end_gl as int, value: 0 }),
    ];
    push::lemma_gets_some(part, n - 3, n);
    assert(part.subrange(n - 3, n) =~= seq![begin] + seq![fetch] + seq![end]);
    push::lemma_calls_add(seq![begin] + seq![fetch], seq![end]);
    push::lemma_calls_add(seq![begin], seq![fetch]);
    push::lemma_one_packet(begin);
    push::lemma_one_packet(fetch);
    push::lemma_one_packet(end);
    assert(push::calls_of(begin) + push::calls_of(fetch) + push::calls_of(end) =~= list);
    lemma_drawn(m, pipelines, operations, viewports, sequence, words, k, 7, list);
    push::lemma_gets_one(part, 0, 0, m.vb_element_base, seq![w[27]]);
    let base = push::run_of(0, m.vb_element_base as int, seq![w[27]]);
    lemma_drawn(m, pipelines, operations, viewports, sequence, words, k, 7, base);
    if w[26] != 0 {
        let limit = graphics::index_limit(w) as u64;
        lemma_halves(limit);
        lemma_joined(w[8], w[9]);
        let (high, low) = ((limit >> 32) as u32, limit as u32);
        let data = seq![w[9], w[8], high, low, w[26]];
        push::lemma_gets_one(part, 1, 0, m.index_array_start_high, data);
        let array = push::run_of(0, m.index_array_start_high as int, data);
        lemma_drawn(m, pipelines, operations, viewports, sequence, words, k, 7, array);
        assert(push::gets(push::calls(words), array));
    }
}

/// Draws and clears have their own target: its address, its width in pixels where it is
/// stored in blocks and in bytes where it is stored in rows, its height, and the render area
/// from its first to its last column and row. Both have blue in the first byte of a pixel.
pub proof fn operations_have_their_target(
    m: Methods,
    pipelines: Seq<Pipeline>,
    operations: Seq<[u32; 64]>,
    viewports: Seq<Viewport>,
    sequence: u32,
    words: Seq<u32>,
    k: int,
    kind: u32,
)
    requires
        kind == 1 || kind == 2,
        encoded(m, pipelines, operations, viewports, sequence, words, k, kind),
    ensures
        ({
            let w = operations[k]@;
            &&& push::gets(
                push::calls(words),
                push::run_of(
                    0,
                    m.rt_address_high as int,
                    if w[52] == 0x40 {
                        seq![w[3], w[2], w[10], w[11], 0xcfu32, 0x40u32, 1u32, 0u32, 0u32]
                    } else {
                        seq![
                            w[3],
                            w[2],
                            w[12],
                            w[11],
                            0xcfu32,
                            m.rt_tile_mode_linear,
                            1u32,
                            0u32,
                            0u32,
                        ]
                    },
                ),
            )
            &&& w[13] < 0x1_0000 && w[14] < 0x1_0000 && w[15] < 0x1_0000 && w[16] < 0x1_0000
                ==> push::gets(
                push::calls(words),
                push::run_of(
                    0,
                    m.screen_scissor_horiz as int,
                    seq![(w[13] + 0x1_0000 * w[15]) as u32, (w[14] + 0x1_0000 * w[16]) as u32],
                ),
            )
        }),
{
    let w = operations[k]@;
    let part = graphics::target_spec(m, w);
    let surface = if w[52] == 0x40 {
        seq![w[3], w[2], w[10], w[11], 0xcfu32, 0x40u32, 1u32, 0u32, 0u32]
    } else {
        seq![w[3], w[2], w[12], w[11], 0xcfu32, m.rt_tile_mode_linear, 1u32, 0u32, 0u32]
    };
    let area = seq![(w[15] << 16) | w[13], (w[16] << 16) | w[14]];
    assert(part[0].data =~= surface);
    assert(part[1].data =~= area);
    push::lemma_gets_one(part, 0, 0, m.rt_address_high, surface);
    push::lemma_gets_one(part, 1, 0, m.screen_scissor_horiz, area);
    let first = push::run_of(0, m.rt_address_high as int, surface);
    let second = push::run_of(0, m.screen_scissor_horiz as int, area);
    if kind == 1 {
        let none = Seq::<Command>::empty();
        let rest = graphics::clear_spec(m, w).skip(2);
        assert(graphics::clear_spec(m, w) =~= none + part + rest);
        lemma_part(none, part, rest, first);
        lemma_part(none, part, rest, second);
        lemma_operation(m, pipelines, operations, viewports, sequence, words, k, 1, first);
        lemma_operation(m, pipelines, operations, viewports, sequence, words, k, 1, second);
    } else {
        lemma_drawn(m, pipelines, operations, viewports, sequence, words, k, 0, first);
        lemma_drawn(m, pipelines, operations, viewports, sequence, words, k, 0, second);
    }
    if w[13] < 0x1_0000 && w[14] < 0x1_0000 && w[15] < 0x1_0000 && w[16] < 0x1_0000 {
        lemma_packed(w[13], w[15]);
        lemma_packed(w[14], w[16]);
        assert(area =~= seq![
            (w[13] + 0x1_0000 * w[15]) as u32,
            (w[14] + 0x1_0000 * w[16]) as u32,
        ]);
    }
}

/// A clear fills the render area, and not the scissor, with its own red, green, blue and
/// alpha, in this order.
pub proof fn clears_have_their_color(
    m: Methods,
    pipelines: Seq<Pipeline>,
    operations: Seq<[u32; 64]>,
    viewports: Seq<Viewport>,
    sequence: u32,
    words: Seq<u32>,
    k: int,
)
    requires
        encoded(m, pipelines, operations, viewports, sequence, words, k, 1),
    ensures
        ({
            let w = operations[k]@;
            push::gets(
                push::calls(words),
                seq![(Call { sub: 0, method: m.scissor_enable as int, value: 0 })] + push::run_of(
                    0,
                    m.clear_color as int,
                    seq![w[32], w[33], w[34], w[35]],
                ) + seq![(Call { sub: 0, method: m.clear_buffers as int, value: 0x3c })],
            )
        }),
{
    let w = operations[k]@;
    let whole = graphics::clear_spec(m, w);
    let a = push::one_spec(m.scissor_enable, 0);
    let b = push::method_spec(0, m.clear_color, seq![w[32], w[33], w[34], w[35]]);
    let c = push::one_spec(m.clear_buffers, 0x3c);
    let list = seq![(Call { sub: 0, method: m.scissor_enable as int, value: 0 })] + push::run_of(
        0,
        m.clear_color as int,
        seq![w[32], w[33], w[34], w[35]],
    ) + seq![(Call { sub: 0, method: m.clear_buffers as int, value: 0x3c })];
    push::lemma_gets_some(whole, 2, 5);
    assert(whole.subrange(2, 5) =~= seq![a] + seq![b] + seq![c]);
    push::lemma_calls_add(seq![a] + seq![b], seq![c]);
    push::lemma_calls_add(seq![a], seq![b]);
    push::lemma_one_packet(a);
    push::lemma_one_packet(b);
    push::lemma_one_packet(c);
    assert(push::calls_of(a) + push::calls_of(b) + push::calls_of(c) =~= list);
    lemma_operation(m, pipelines, operations, viewports, sequence, words, k, 1, list);
}

/// The words that describe one surface of a copy to the two-dimensional engine, at method
/// 0x200 or 0x230: a surface in blocks has no row length.
pub open spec fn surface_told(
    words: Seq<u32>,
    method: int,
    high: u32,
    low: u32,
    width: u32,
    height: u32,
    stride: u32,
    blocks: bool,
) -> bool {
    if blocks {
        push::gets(push::calls(words), push::run_of(3, method, seq![0xcfu32, 0u32, 0x40u32, 1u32, 0u32])) && push::gets(
            push::calls(words),
            push::run_of(3, method + 0x18, seq![width, height, high, low]),
        )
    } else {
        push::gets(push::calls(words), push::run_of(3, method, seq![0xcfu32, 1u32])) && push::gets(
            push::calls(words),
            push::run_of(3, method + 0x14, seq![stride, width, height, high, low]),
        )
    }
}

/// A copy goes from its source to its target: the target is the surface of words 2, 3 and 10
/// to 12, the source that of words 4, 5 and 29 to 31; the rectangle of words 13 to 16 is
/// filled from the place of words 17 and 18 on, one pixel for one.
pub proof fn copies_go_from_source_to_target(
    m: Methods,
    pipelines: Seq<Pipeline>,
    operations: Seq<[u32; 64]>,
    viewports: Seq<Viewport>,
    sequence: u32,
    words: Seq<u32>,
    k: int,
)
    requires
        encoded(m, pipelines, operations, viewports, sequence, words, k, 3),
    ensures
        ({
            let w = operations[k]@;
            &&& surface_told(words, 0x200, w[3], w[2], w[10], w[11], w[12], w[52] == 0x40)
            &&& surface_told(words, 0x230, w[5], w[4], w[29], w[30], w[31], w[53] == 0x40)
            &&& push::gets(
                push::calls(words),
                push::run_of(3, 0x88c, seq![0u32]) + push::run_of(3, 0x8b0, seq![w[13], w[14], w[15], w[16]])
                    + push::run_of(3, 0x8c0, seq![0u32, 1u32, 0u32, 1u32]) + push::run_of(
                    3,
                    0x8d0,
                    seq![0u32, w[17], 0u32, w[18]],
                ) + push::run_of(0, m.serialize as int, seq![0u32]),
            )
        }),
{
    let w = operations[k]@;
    let whole = graphics::copy_spec(m, w);
    let head = seq![push::one_spec(m.serialize, 0)];
    let to = graphics::copy_surface(0x200, w[3], w[2], w[10], w[11], w[12], w[52]);
    let from = graphics::copy_surface(0x230, w[5], w[4], w[29], w[30], w[31], w[53]);
    let tail = whole.skip(5);
    assert(whole =~= head + to + (from + tail));
    assert(whole =~= (head + to) + from + tail);
    let s0 = to[0].data;
    let s1 = to[1].data;
    let t0 = from[0].data;
    let t1 = from[1].data;
    push::lemma_gets_one(to, 0, 3, 0x200, s0);
    push::lemma_gets_one(to, 1, 3, to[1].method, s1);
    push::lemma_gets_one(from, 0, 3, 0x230, t0);
    push::lemma_gets_one(from, 1, 3, from[1].method, t1);
    let a = push::run_of(3, 0x200, s0);
    let b = push::run_of(3, to[1].method as int, s1);
    let c = push::run_of(3, 0x230, t0);
    let d = push::run_of(3, from[1].method as int, t1);
    lemma_part(head, to, from + tail, a);
    lemma_part(head, to, from + tail, b);
    lemma_part(head + to, from, tail, c);
    lemma_part(head + to, from, tail, d);
    lemma_operation(m, pipelines, operations, viewports, sequence, words, k, 3, a);
    lemma_operation(m, pipelines, operations, viewports, sequence, words, k, 3, b);
    lemma_operation(m, pipelines, operations, viewports, sequence, words, k, 3, c);
    lemma_operation(m, pipelines, operations, viewports, sequence, words, k, 3, d);
    if w[52] == 0x40 {
        assert(s0 =~= seq![0xcfu32, 0u32, 0x40u32, 1u32, 0u32]);
    }
    if w[53] == 0x40 {
        assert(t0 =~= seq![0xcfu32, 0u32, 0x40u32, 1u32, 0u32]);
    }
    let e = push::method_spec(3, 0x88c, seq![0u32]);
    let f = push::method_spec(3, 0x8b0, seq![w[13], w[14], w[15], w[16]]);
    let g = push::method_spec(3, 0x8c0, seq![0u32, 1u32, 0u32, 1u32]);
    let h = push::method_spec(3, 0x8d0, seq![0u32, w[17], 0u32, w[18]]);
    let i = push::one_spec(m.serialize, 0);
    push::lemma_gets_some(whole, 5, 10);
    assert(whole.subrange(5, 10) =~= seq![e] + seq![f] + seq![g] + seq![h] + seq![i]);
    push::lemma_calls_add(seq![e] + seq![f] + seq![g] + seq![h], seq![i]);
    push::lemma_calls_add(seq![e] + seq![f] + seq![g], seq![h]);
    push::lemma_calls_add(seq![e] + seq![f], seq![g]);
    push::lemma_calls_add(seq![e], seq![f]);
    push::lemma_one_packet(e);
    push::lemma_one_packet(f);
    push::lemma_one_packet(g);
    push::lemma_one_packet(h);
    push::lemma_one_packet(i);
    let list = push::run_of(3, 0x88c, seq![0u32]) + push::run_of(3, 0x8b0, seq![w[13], w[14], w[15], w[16]])
        + push::run_of(3, 0x8c0, seq![0u32, 1u32, 0u32, 1u32]) + push::run_of(
        3,
        0x8d0,
        seq![0u32, w[17], 0u32, w[18]],
    ) + push::run_of(0, m.serialize as int, seq![0u32]);
    assert(push::calls_of(e) =~= push::run_of(3, 0x88c, seq![0u32]));
    assert(push::calls_of(f) =~= push::run_of(3, 0x8b0, seq![w[13], w[14], w[15], w[16]]));
    assert(push::calls_of(g) =~= push::run_of(3, 0x8c0, seq![0u32, 1u32, 0u32, 1u32]));
    assert(push::calls_of(h) =~= push::run_of(3, 0x8d0, seq![0u32, w[17], 0u32, w[18]]));
    assert(push::calls_of(i) =~= push::run_of(0, m.serialize as int, seq![0u32]));
    lemma_operation(m, pipelines, operations, viewports, sequence, words, k, 3, list);
}

/// A draw has its own viewport, which spans its target from the upper left corner, with the
/// second axis turned over and depth from zero to one; only the columns and rows of its own
/// scissor are drawn, from the first to the one behind the last. Its twenty transform words
/// reach the uniforms in their order.
pub proof fn draws_have_their_viewport(
    m: Methods,
    pipelines: Seq<Pipeline>,
    operations: Seq<[u32; 64]>,
    viewports: Seq<Viewport>,
    sequence: u32,
    words: Seq<u32>,
    k: int,
)
    requires
        encoded(m, pipelines, operations, viewports, sequence, words, k, 2),
        graphics::drawable(operations[k]@),
    ensures
        ({
            let w = operations[k]@;
            let v = viewports[k];
            &&& push::gets(
                push::calls(words),
                push::run_of(
                    0,
                    m.viewport_translate_x as int,
                    seq![v.half_width, v.half_height, 0x3f00_0000u32],
                ),
            )
            &&& v.half_height < 0x8000_0000 ==> push::gets(
                push::calls(words),
                push::run_of(
                    0,
                    m.viewport_scale_x as int,
                    seq![v.half_width, (v.half_height + 0x8000_0000) as u32, 0x3f00_0000u32],
                ),
            )
            &&& w[10] < 0x1_0000 && w[11] < 0x1_0000 ==> push::gets(
                push::calls(words),
                push::run_of(
                    0,
                    m.viewport_horiz as int,
                    seq![(w[10] * 0x1_0000) as u32, (w[11] * 0x1_0000) as u32],
                ),
            )
            &&& push::gets(push::calls(words), push::run_of(0, m.viewport_swizzle as int, seq![0x6420u32]))
            &&& push::gets(push::calls(words), push::run_of(0, m.depth_range_near as int, seq![0u32, 0x3f80_0000u32]))
            &&& w[17] + w[19] < 0x1_0000 && w[18] + w[20] < 0x1_0000 ==> push::gets(
                push::calls(words),
                push::run_of(
                    0,
                    m.scissor_enable as int,
                    seq![
                        1u32,
                        (w[17] + 0x1_0000 * (w[17] + w[19])) as u32,
                        (w[18] + 0x1_0000 * (w[18] + w[20])) as u32,
                    ],
                ),
            )
            &&& push::gets(push::calls(words), push::run_of(0, m.cb_size as int, seq![256u32, 0u32, 0x28_0000u32]))
            &&& push::gets(
                push::calls(words),
                seq![(Call { sub: 0, method: m.cb_pos as int, value: 0 })] + Seq::new(
                    20,
                    |i: int| Call { sub: 0, method: m.cb_pos + 4, value: w[32 + i] },
                ),
            )
        }),
{
    let w = operations[k]@;
    let v = viewports[k];
    let part = graphics::draw_viewport(m, w, v);
    lemma_halves(0x28_0000u64);
    let size = seq![256u32, 0u32, 0x28_0000u32];
    assert(part[1].data =~= size);
    push::lemma_gets_one(part, 1, 0, m.cb_size, size);
    push::lemma_gets_some(part, 2, 3);
    assert(part.subrange(2, 3) =~= seq![part[2]]);
    push::lemma_one_packet(part[2]);
    let upload = seq![(Call { sub: 0, method: m.cb_pos as int, value: 0 })] + Seq::new(
        20,
        |i: int| Call { sub: 0, method: m.cb_pos + 4, value: w[32 + i] },
    );
    assert(push::calls_of(part[2]) =~= upload);
    let translate = seq![v.half_width, v.half_height, 0x3f00_0000u32];
    let scale = seq![v.half_width, v.half_height ^ 0x8000_0000, 0x3f00_0000u32];
    let horiz = seq![w[10] << 16, w[11] << 16];
    let swizzle = seq![0x6420u32];
    let depth = seq![0u32, 0x3f80_0000u32];
    let scissor = seq![
        1u32,
        (((w[17] + w[19]) as u32) << 16) | w[17],
        (((w[18] + w[20]) as u32) << 16) | w[18],
    ];
    push::lemma_gets_one(part, 3, 0, m.viewport_translate_x, translate);
    push::lemma_gets_one(part, 4, 0, m.viewport_scale_x, scale);
    push::lemma_gets_one(part, 5, 0, m.viewport_horiz, horiz);
    push::lemma_gets_one(part, 6, 0, m.viewport_swizzle, swizzle);
    push::lemma_gets_one(part, 7, 0, m.depth_range_near, depth);
    push::lemma_gets_one(part, 8, 0, m.scissor_enable, scissor);
    let l1 = push::run_of(0, m.viewport_translate_x as int, translate);
    let l2 = push::run_of(0, m.viewport_scale_x as int, scale);
    let l3 = push::run_of(0, m.viewport_horiz as int, horiz);
    let l4 = push::run_of(0, m.viewport_swizzle as int, swizzle);
    let l5 = push::run_of(0, m.depth_range_near as int, depth);
    let l6 = push::run_of(0, m.scissor_enable as int, scissor);
    let l7 = push::run_of(0, m.cb_size as int, size);
    lemma_drawn(m, pipelines, operations, viewports, sequence, words, k, 1, l1);
    lemma_drawn(m, pipelines, operations, viewports, sequence, words, k, 1, l2);
    lemma_drawn(m, pipelines, operations, viewports, sequence, words, k, 1, l3);
    lemma_drawn(m, pipelines, operations, viewports, sequence, words, k, 1, l4);
    lemma_drawn(m, pipelines, operations, viewports, sequence, words, k, 1, l5);
    lemma_drawn(m, pipelines, operations, viewports, sequence, words, k, 1, l6);
    lemma_drawn(m, pipelines, operations, viewports, sequence, words, k, 1, l7);
    lemma_drawn(m, pipelines, operations, viewports, sequence, words, k, 1, upload);
    if v.half_height < 0x8000_0000 {
        lemma_turned(v.half_height);
        assert(scale =~= seq![
            v.half_width,
            (v.half_height + 0x8000_0000) as u32,
            0x3f00_0000u32,
        ]);
    }
    if w[10] < 0x1_0000 && w[11] < 0x1_0000 {
        lemma_raised(w[10]);
        lemma_raised(w[11]);
        assert(horiz =~= seq![(w[10] * 0x1_0000) as u32, (w[11] * 0x1_0000) as u32]);
    }
    if w[17] + w[19] < 0x1_0000 && w[18] + w[20] < 0x1_0000 {
        lemma_packed(w[17], (w[17] + w[19]) as u32);
        lemma_packed(w[18], (w[18] + w[20]) as u32);
        assert(scissor =~= seq![
            1u32,
            (w[17] + 0x1_0000 * (w[17] + w[19])) as u32,
            (w[18] + 0x1_0000 * (w[18] + w[20])) as u32,
        ]);
    }
}

proof fn lemma_turned(x: u32)
    by (bit_vector)
    requires
        x < 0x8000_0000,
    ensures
        x ^ 0x8000_0000 == x + 0x8000_0000,
{
}

proof fn lemma_raised(x: u32)
    by (bit_vector)
    requires
        x < 0x1_0000,
    ensures
        x << 16 == x * 0x1_0000,
{
}

proof fn lemma_state_bits(state: u32)
    by (bit_vector)
    ensures
        (((state >> 2) & 7) & 3 != 0) == (state / 4 % 4 != 0),
        (((state >> 2) & 7) & 3 == 1) == (state / 4 % 4 == 1),
        (((state >> 2) & 7) & 4 != 0) == (state / 16 % 2 == 1),
        (state & 1 != 0) == (state % 2 == 1),
        (state & 2 != 0) == (state / 2 % 2 == 1),
        (state & 0x20 != 0) == (state / 32 % 2 == 1),
{
}

/// The state word of a draw says what is not drawn and how colors mix: bit 0 blends, bits 2
/// and 3 name the face that is culled, front or back, and bit 4 the winding of front faces.
/// Blended colors are weighted by the alpha of what is drawn, and by what remains of it.
pub proof fn draws_have_their_state(
    m: Methods,
    pipelines: Seq<Pipeline>,
    operations: Seq<[u32; 64]>,
    viewports: Seq<Viewport>,
    sequence: u32,
    words: Seq<u32>,
    k: int,
)
    requires
        encoded(m, pipelines, operations, viewports, sequence, words, k, 2),
    ensures
        ({
            let state = operations[k]@[22];
            let cull = state / 4 % 4;
            &&& push::gets(
                push::calls(words),
                push::run_of(0, m.cull_face_enable as int, seq![if cull != 0 { 1u32 } else { 0u32 }]),
            )
            &&& cull == 1 ==> push::gets(push::calls(words), push::run_of(0, m.cull_face as int, seq![0x404u32]))
            &&& cull != 1 ==> push::gets(push::calls(words), push::run_of(0, m.cull_face as int, seq![0x405u32]))
            &&& push::gets(
                push::calls(words),
                push::run_of(
                    0,
                    m.front_face as int,
                    seq![if state / 16 % 2 == 1 { 0x900u32 } else { 0x901u32 }],
                ),
            )
            &&& push::gets(
                push::calls(words),
                push::run_of(0, m.blend_enable as int, seq![if state % 2 == 1 { 1u32 } else { 0u32 }]),
            )
            &&& push::gets(
                push::calls(words),
                push::run_of(
                    0,
                    m.blend_equation_rgb as int,
                    seq![0x8006u32, 0x4302u32, 0x4303u32, 0x8006u32, 0x4001u32],
                ) + push::run_of(0, m.blend_func_dst_alpha as int, seq![0x4303u32]),
            )
        }),
{
    let state = operations[k]@[22];
    let part = graphics::draw_raster(m, state);
    lemma_state_bits(state);
    let d0 = part[0].data;
    let d1 = part[1].data;
    let d2 = part[2].data;
    let d3 = part[3].data;
    push::lemma_gets_one(part, 0, 0, m.cull_face_enable, d0);
    push::lemma_gets_one(part, 1, 0, m.cull_face, d1);
    push::lemma_gets_one(part, 2, 0, m.front_face, d2);
    push::lemma_gets_one(part, 3, 0, m.blend_enable, d3);
    push::lemma_gets_some(part, 4, 6);
    let mix = push::run_of(
        0,
        m.blend_equation_rgb as int,
        seq![0x8006u32, 0x4302u32, 0x4303u32, 0x8006u32, 0x4001u32],
    ) + push::run_of(0, m.blend_func_dst_alpha as int, seq![0x4303u32]);
    assert(part.subrange(4, 6) =~= seq![part[4]] + seq![part[5]]);
    push::lemma_calls_add(seq![part[4]], seq![part[5]]);
    push::lemma_one_packet(part[4]);
    push::lemma_one_packet(part[5]);
    assert(push::calls_of(part[4]) + push::calls_of(part[5]) =~= mix);
    let l0 = push::run_of(0, m.cull_face_enable as int, d0);
    let l1 = push::run_of(0, m.cull_face as int, d1);
    let l2 = push::run_of(0, m.front_face as int, d2);
    let l3 = push::run_of(0, m.blend_enable as int, d3);
    lemma_drawn(m, pipelines, operations, viewports, sequence, words, k, 2, l0);
    lemma_drawn(m, pipelines, operations, viewports, sequence, words, k, 2, l1);
    lemma_drawn(m, pipelines, operations, viewports, sequence, words, k, 2, l2);
    lemma_drawn(m, pipelines, operations, viewports, sequence, words, k, 2, l3);
    lemma_drawn(m, pipelines, operations, viewports, sequence, words, k, 2, mix);
}

/// A draw runs the two programs of its pipeline, each in its stage with its registers: the
/// vertex program in the first, the fragment program in the fifth.
pub proof fn draws_run_their_programs(
    m: Methods,
    pipelines: Seq<Pipeline>,
    operations: Seq<[u32; 64]>,
    viewports: Seq<Viewport>,
    sequence: u32,
    words: Seq<u32>,
    k: int,
)
    requires
        m.wf(),
        encoded(m, pipelines, operations, viewports, sequence, words, k, 2),
    ensures
        submit::pipeline_of(pipelines, operations[k]@[21]) matches Some(p) && {
            &&& push::gets(
                push::calls(words),
                push::run_of(0, m.sp_select + 0x40, seq![0x11u32, p.vertex.start]) + push::run_of(
                    0,
                    m.sp_gpr_alloc + 0x40,
                    seq![p.vertex.gprs],
                ),
            )
            &&& push::gets(
                push::calls(words),
                push::run_of(0, m.sp_select + 0x140, seq![0x51u32, p.fragment.start]) + push::run_of(
                    0,
                    m.sp_gpr_alloc + 0x140,
                    seq![p.fragment.gprs],
                ),
            )
        },
{
    lemma_pipeline(m, pipelines, operations, viewports, sequence, words, k);
    let p = submit::pipeline_of(pipelines, operations[k]@[21])->0;
    let a = graphics::shader_stage(m, 1, p.vertex);
    let b = graphics::shader_stage(m, 5, p.fragment);
    assert((1u32 << 4) | 1 == 0x11) by (bit_vector);
    assert((5u32 << 4) | 1 == 0x51) by (bit_vector);
    let x = push::run_of(0, m.sp_select + 0x40, seq![0x11u32, p.vertex.start]) + push::run_of(
        0,
        m.sp_gpr_alloc + 0x40,
        seq![p.vertex.gprs],
    );
    let y = push::run_of(0, m.sp_select + 0x140, seq![0x51u32, p.fragment.start]) + push::run_of(
        0,
        m.sp_gpr_alloc + 0x140,
        seq![p.fragment.gprs],
    );
    push::lemma_gets_some(a, 0, 2);
    assert(a.subrange(0, 2) =~= seq![a[0]] + seq![a[1]]);
    push::lemma_calls_add(seq![a[0]], seq![a[1]]);
    push::lemma_one_packet(a[0]);
    push::lemma_one_packet(a[1]);
    assert(push::calls_of(a[0]) + push::calls_of(a[1]) =~= x);
    push::lemma_gets_some(b, 0, 2);
    assert(b.subrange(0, 2) =~= seq![b[0]] + seq![b[1]]);
    push::lemma_calls_add(seq![b[0]], seq![b[1]]);
    push::lemma_one_packet(b[0]);
    push::lemma_one_packet(b[1]);
    assert(push::calls_of(b[0]) + push::calls_of(b[1]) =~= y);
    lemma_drawn(m, pipelines, operations, viewports, sequence, words, k, 3, x);
    lemma_drawn(m, pipelines, operations, viewports, sequence, words, k, 4, y);
}

proof fn lemma_formats(m: Methods, a: Seq<(u32, u32)>, n: nat, i: int)
    requires
        m.wf(),
        0 <= i < n <= 16,
    ensures
        push::gets(
            push::all_calls(graphics::attribute_formats(m, a, n)),
            push::run_of(0, m.vertex_attrib_format + 4 * i, seq![graphics::attribute_word(m, a, i)]),
        ),
        i > 0 ==> push::gets(
            push::all_calls(graphics::attribute_formats(m, a, n)),
            push::run_of(0, m.vertex_array_fetch + 0x10 * i, seq![0u32]),
        ),
    decreases n,
{
    let whole = graphics::attribute_formats(m, a, n);
    let before = graphics::attribute_formats(m, a, (n - 1) as nat);
    let none = Seq::<Command>::empty();
    let format = push::run_of(0, m.vertex_attrib_format + 4 * i, seq![graphics::attribute_word(m, a, i)]);
    let fetch = push::run_of(0, m.vertex_array_fetch + 0x10 * i, seq![0u32]);
    if i < n - 1 {
        lemma_formats(m, a, (n - 1) as nat, i);
        let rest = whole.skip(before.len() as int);
        assert(whole =~= none + before + rest);
        lemma_part(none, before, rest, format);
        if i > 0 {
            lemma_part(none, before, rest, fetch);
        }
    } else {
        let at = before.len() as int;
        push::lemma_gets_one(
            whole,
            at,
            0,
            (m.vertex_attrib_format + i * 4) as u32,
            seq![graphics::attribute_word(m, a, i)],
        );
        if i > 0 {
            push::lemma_gets_one(
                whole,
                at + 1,
                0,
                (m.vertex_array_fetch + i * 0x10) as u32,
                seq![0u32],
            );
        }
    }
}

/// How many numbers each attribute of a vertex has, by the layout of the vertices: the
/// position has two in the plain layouts of 16 bytes and four in the others, colors have
/// four or, in 28 bytes, three, and texture coordinates two. What is left of a longer vertex
/// is not fetched.
pub open spec fn layout(v: Variant) -> Seq<int> {
    match v {
        Variant::Stride16Solid => seq![2],
        Variant::Stride16TextureRgba => seq![2, 2],
        Variant::Stride16TextureAlphaMask => seq![2, 2],
        Variant::Stride24TextureRgba => seq![4, 2],
        Variant::Stride24TextureRgbIgnoreAlpha => seq![4, 2],
        Variant::Stride24TextureAlphaMask => seq![4, 2],
        Variant::Stride28VertexColor => seq![4, 3],
        Variant::Stride32VertexColor => seq![4, 4],
        Variant::Stride40VertexColor => seq![4, 4],
        Variant::Stride40TextureVertexColorRgba => seq![4, 4, 2],
        Variant::Other => seq![4],
    }
}

/// Attributes stand side by side: each begins where the one before ends, at four bytes for
/// each of its numbers.
pub proof fn attributes_stand_side_by_side(v: Variant, i: int)
    requires
        0 <= i < layout(v).len(),
    ensures
        graphics::attributes_spec(v).len() == layout(v).len(),
        graphics::attributes_spec(v)[i].1 == layout(v)[i],
        i == 0 ==> graphics::attributes_spec(v)[i].0 == 0,
        i > 0 ==> graphics::attributes_spec(v)[i].0 == graphics::attributes_spec(v)[i - 1].0 + 4 * layout(v)[i - 1],
{
}

/// A draw takes its vertices from its own buffer, at its own distance, and from no other:
/// the buffer ends with the last byte of its size. Its attributes are floats at their
/// places; those that the layout does not have are constant.
pub proof fn draws_take_their_vertices(
    m: Methods,
    pipelines: Seq<Pipeline>,
    operations: Seq<[u32; 64]>,
    viewports: Seq<Viewport>,
    sequence: u32,
    words: Seq<u32>,
    k: int,
    i: int,
)
    requires
        m.wf(),
        encoded(m, pipelines, operations, viewports, sequence, words, k, 2),
        graphics::drawable(operations[k]@),
        0 <= i < 16,
    ensures
        ({
            let w = operations[k]@;
            let last = w[4] + 0x1_0000_0000 * w[5] + w[28] - 1;
            let layout = layout(submit::pipeline_of(pipelines, w[21])->0.variant);
            let kind = m.vertex_attrib_format_type_float;
            &&& push::gets(
                push::calls(words),
                push::run_of(
                    0,
                    m.vertex_array_fetch as int,
                    seq![m.vertex_array_fetch_enable | w[23], w[5], w[4], 0u32],
                ),
            )
            &&& push::gets(
                push::calls(words),
                push::run_of(
                    0,
                    m.vertex_array_limit_high as int,
                    seq![(last / 0x1_0000_0000) as u32, (last % 0x1_0000_0000) as u32],
                ),
            )
            &&& push::gets(push::calls(words), push::run_of(0, m.vertex_array_per_instance as int, seq![0u32]))
            &&& i > 0 ==> push::gets(push::calls(words), push::run_of(0, m.vertex_array_fetch + 0x10 * i, seq![0u32]))
            &&& i >= layout.len() ==> push::gets(
                push::calls(words),
                push::run_of(
                    0,
                    m.vertex_attrib_format + 4 * i,
                    seq![
                        kind | m.vertex_attrib_format_size_32_32_32_32
                            | m.vertex_attrib_format_const,
                    ],
                ),
            )
            &&& i < layout.len() ==> push::gets(
                push::calls(words),
                push::run_of(
                    0,
                    m.vertex_attrib_format + 4 * i,
                    seq![
                        kind | (if layout[i] == 2 {
                            m.vertex_attrib_format_size_32_32
                        } else if layout[i] == 3 {
                            m.vertex_attrib_format_size_32_32_32
                        } else {
                            m.vertex_attrib_format_size_32_32_32_32
                        }) | ((4 * before(layout, i)) as u32) << 7,
                    ],
                ),
            )
        }),
{
    lemma_pipeline(m, pipelines, operations, viewports, sequence, words, k);
    let w = operations[k]@;
    let variant = submit::pipeline_of(pipelines, w[21])->0.variant;
    let a = graphics::attributes_spec(variant);
    let part = graphics::draw_vertices(m, w, variant);
    let end = (graphics::words_to_address(w[4], w[5]) + w[28] - 1) as u64;
    lemma_joined(w[4], w[5]);
    lemma_halves(end);
    let fetch = seq![m.vertex_array_fetch_enable | w[23], w[5], w[4], 0u32];
    let limit = seq![(end >> 32) as u32, end as u32];
    push::lemma_gets_one(part, 0, 0, m.vertex_array_fetch, fetch);
    push::lemma_gets_one(part, 1, 0, m.vertex_array_limit_high, limit);
    push::lemma_gets_one(part, 2, 0, m.vertex_array_per_instance, seq![0u32]);
    let l0 = push::run_of(0, m.vertex_array_fetch as int, fetch);
    let l1 = push::run_of(0, m.vertex_array_limit_high as int, limit);
    let l2 = push::run_of(0, m.vertex_array_per_instance as int, seq![0u32]);
    lemma_drawn(m, pipelines, operations, viewports, sequence, words, k, 5, l0);
    lemma_drawn(m, pipelines, operations, viewports, sequence, words, k, 5, l1);
    lemma_drawn(m, pipelines, operations, viewports, sequence, words, k, 5, l2);
    let formats = graphics::attribute_formats(m, a, 16);
    let head = part.take(3);
    let none = Seq::<Command>::empty();
    assert(part =~= head + formats + none);
    lemma_formats(m, a, 16, i);
    let l3 = push::run_of(0, m.vertex_attrib_format + 4 * i, seq![graphics::attribute_word(m, a, i)]);
    let l4 = push::run_of(0, m.vertex_array_fetch + 0x10 * i, seq![0u32]);
    lemma_part(head, formats, none, l3);
    lemma_drawn(m, pipelines, operations, viewports, sequence, words, k, 5, l3);
    if i > 0 {
        lemma_part(head, formats, none, l4);
        lemma_drawn(m, pipelines, operations, viewports, sequence, words, k, 5, l4);
    }
    reveal_with_fuel(before, 4);
    if i < layout(variant).len() {
        attributes_stand_side_by_side(variant, i);
        assert(a[i].0 == 4 * before(layout(variant), i));
    } else {
        attributes_stand_side_by_side(variant, 0);
    }
}

/// How many numbers stand before an attribute.
pub open spec fn before(layout: Seq<int>, i: int) -> int
    decreases i,
{
    if i <= 0 {
        0
    } else {
        before(layout, i - 1) + layout[i - 1]
    }
}

/// A submission ends with its own fence: the next number is written to the fence's place
/// when all before is done, and told to the channel.
pub proof fn submissions_end_with_their_fence(
    m: Methods,
    pipelines: Seq<Pipeline>,
    operations: Seq<[u32; 64]>,
    viewports: Seq<Viewport>,
    sequence: u32,
    words: Seq<u32>,
)
    requires
        graphics::encode_spec(m, pipelines, operations, viewports, sequence)
            == Ok::<Seq<u32>, SubmitError>(words),
    ensures
        sequence < u32::MAX,
        ({
            let next = (sequence + 1) as u32;
            let end = push::run_of(
                0,
                m.query_address_high as int,
                seq![0u32, 0x6000u32, next, m.query_get_fence | m.query_get_short | 0xf000],
            ) + push::run_of(0, 0x50, seq![next]);
            &&& push::calls(words).len() >= 5
            &&& push::calls(words).subrange(push::calls(words).len() - 5, push::calls(words).len() as int) == end
        }),
{
    let n = operations.len();
    let next = (sequence + 1) as u32;
    let commands = graphics::operations_commands(m, pipelines, operations, viewports, n)->Ok_0;
    let fence = graphics::fence_spec(m, next);
    push::engines_get_what_is_pushed(commands + fence);
    push::lemma_calls_add(commands, fence);
    assert(fence =~= seq![fence[0]] + seq![fence[1]]);
    push::lemma_calls_add(seq![fence[0]], seq![fence[1]]);
    push::lemma_one_packet(fence[0]);
    push::lemma_one_packet(fence[1]);
    let end = push::run_of(
        0,
        m.query_address_high as int,
        seq![0u32, 0x6000u32, next, m.query_get_fence | m.query_get_short | 0xf000],
    ) + push::run_of(0, 0x50, seq![next]);
    assert(push::all_calls(fence) =~= end);
    assert(push::calls(words).subrange(push::calls(words).len() - 5, push::calls(words).len() as int) =~= end);
}

/// The words of an upload to a place of a constant buffer: the buffer is selected, and the
/// words follow their offset.
pub open spec fn uploads(
    m: Methods,
    words: Seq<u32>,
    address: u32,
    offset: u32,
    data: Seq<u32>,
) -> bool {
    push::gets(
        push::calls(words),
        push::run_of(0, m.cb_size as int, seq![256u32, 0u32, address]) + (seq![
            (Call { sub: 0, method: m.cb_pos as int, value: offset }),
        ] + Seq::new(
            data.len(),
            |i: int| Call { sub: 0, method: m.cb_pos + 4, value: data[i] },
        )),
    )
}

/// A draw samples its own image: its address, its size, the length of its rows or its blocks,
/// and its channels. An alpha mask, bit 5 of the state, has ones for its colors; otherwise
/// red stands in the third byte of a pixel, green in the second and blue in the first. Bit 1
/// of the state smooths what is magnified or made smaller.
pub proof fn draws_sample_their_image(
    m: Methods,
    pipelines: Seq<Pipeline>,
    operations: Seq<[u32; 64]>,
    viewports: Seq<Viewport>,
    sequence: u32,
    words: Seq<u32>,
    k: int,
)
    requires
        encoded(m, pipelines, operations, viewports, sequence, words, k, 2),
        graphics::drawable(operations[k]@),
        operations[k]@[29] != 0,
    ensures
        ({
            let w = operations[k]@;
            let blocks = w[53] == 0x40;
            let mask = w[22] / 32 % 2 == 1;
            let smooth = w[22] / 2 % 2 == 1;
            let (red, green, blue, alpha) = if mask {
                (7int, 7int, 7int, 5int)
            } else {
                (4, 3, 2, 5)
            };
            &&& uploads(
                m,
                words,
                0x29_0000,
                0,
                seq![
                    (8 + 0x80 * 2 + 0x400 * 2 + 0x2000 * 2 + 0x1_0000 * 2 + 0x8_0000 * red
                        + 0x40_0000 * green + 0x200_0000 * blue + 0x1000_0000 * alpha) as u32,
                    w[6],
                    w[7] | (if blocks { 0x60_0000u32 } else { 0x40_0000u32 }),
                    0x1_0000u32 | (if blocks { 0x20u32 } else { w[31] >> 5 }),
                    (if blocks { 0xe080_0000u32 } else { 0xe380_0000u32 }) | (w[29] - 1) as u32,
                    0x8000_0000u32 | (w[30] - 1) as u32,
                    0u32,
                    0u32,
                ],
            )
            &&& uploads(
                m,
                words,
                0x29_0200,
                0,
                seq![
                    0x2_6092u32,
                    if smooth { 0x62u32 } else { 0x51u32 },
                    0u32,
                    0u32,
                    0u32,
                    0u32,
                    0u32,
                    0u32,
                ],
            )
            &&& uploads(m, words, 0x28_0400, 0x20, seq![0u32])
        }),
{
    let w = operations[k]@;
    let part = graphics::draw_texture(m, w);
    lemma_state_bits(w[22]);
    lemma_swizzles();
    lemma_halves(0x29_0000u64);
    lemma_halves(0x29_0200u64);
    lemma_halves(0x28_0400u64);
    let blocks = w[53] == 0x40;
    let mask = w[22] / 32 % 2 == 1;
    let smooth = w[22] / 2 % 2 == 1;
    let (red, green, blue, alpha) = if mask {
        (7int, 7int, 7int, 5int)
    } else {
        (4, 3, 2, 5)
    };
    let image = seq![
        (8 + 0x80 * 2 + 0x400 * 2 + 0x2000 * 2 + 0x1_0000 * 2 + 0x8_0000 * red + 0x40_0000 * green
            + 0x200_0000 * blue + 0x1000_0000 * alpha) as u32,
        w[6],
        w[7] | (if blocks { 0x60_0000u32 } else { 0x40_0000u32 }),
        0x1_0000u32 | (if blocks { 0x20u32 } else { w[31] >> 5 }),
        (if blocks { 0xe080_0000u32 } else { 0xe380_0000u32 }) | (w[29] - 1) as u32,
        0x8000_0000u32 | (w[30] - 1) as u32,
        0u32,
        0u32,
    ];
    let sampler = seq![
        0x2_6092u32,
        if smooth { 0x62u32 } else { 0x51u32 },
        0u32,
        0u32,
        0u32,
        0u32,
        0u32,
        0u32,
    ];
    assert(graphics::texture_descriptor(w) =~= image);
    assert(graphics::sampler_descriptor(w) =~= sampler);
    lemma_uploaded(m, part, 0, 0x29_0000, 0, image);
    lemma_uploaded(m, part, 2, 0x29_0200, 0, sampler);
    lemma_uploaded(m, part, 4, 0x28_0400, 0x20, seq![0u32]);
    let l0 = upload_calls(m, 0x29_0000, 0, image);
    let l1 = upload_calls(m, 0x29_0200, 0, sampler);
    let l2 = upload_calls(m, 0x28_0400, 0x20, seq![0u32]);
    lemma_drawn(m, pipelines, operations, viewports, sequence, words, k, 6, l0);
    lemma_drawn(m, pipelines, operations, viewports, sequence, words, k, 6, l1);
    lemma_drawn(m, pipelines, operations, viewports, sequence, words, k, 6, l2);
}

proof fn lemma_swizzles()
    by (bit_vector)
    ensures
        0x0002_4908u32 | 0x5ff8_0000u32 == 0x5ffa_4908u32,
        0x0002_4908u32 | 0x54e0_0000u32 == 0x54e2_4908u32,
{
}

spec fn upload_calls(m: Methods, address: u32, offset: u32, data: Seq<u32>) -> Seq<Call> {
    push::run_of(0, m.cb_size as int, seq![256u32, 0u32, address]) + (seq![
        (Call { sub: 0, method: m.cb_pos as int, value: offset }),
    ] + Seq::new(data.len(), |i: int| Call { sub: 0, method: m.cb_pos + 4, value: data[i] }))
}

proof fn lemma_uploaded(
    m: Methods,
    part: Seq<Command>,
    at: int,
    address: u32,
    offset: u32,
    data: Seq<u32>,
)
    requires
        0 <= at,
        at + 2 <= part.len(),
        part[at] == push::method_spec(0, m.cb_size, seq![256u32, 0u32, address]),
        part[at + 1] == (Command { opcode: 5, sub: 0, method: m.cb_pos, data: seq![offset] + data }),
    ensures
        push::gets(push::all_calls(part), upload_calls(m, address, offset, data)),
{
    push::lemma_gets_some(part, at, at + 2);
    assert(part.subrange(at, at + 2) =~= seq![part[at]] + seq![part[at + 1]]);
    push::lemma_calls_add(seq![part[at]], seq![part[at + 1]]);
    push::lemma_one_packet(part[at]);
    push::lemma_one_packet(part[at + 1]);
    assert(push::calls_of(part[at]) + push::calls_of(part[at + 1]) =~= upload_calls(
        m,
        address,
        offset,
        data,
    ));
}

} // verus!
