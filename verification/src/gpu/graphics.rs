//! The command programs of the fixed-function pipeline: channel state, clears,
//! draws and copies.
use vstd::prelude::*;

use crate::gpu::push;
use crate::gpu::push::{Command, Program, Push};
use crate::gpu::submit::{find_pipeline, Pipeline, Shader, Variant};
use crate::gpu::submit;

verus! {

pub const PROGRAM_VA: u32 = 0x27_0000;

pub const AUX_VA: u32 = 0x28_0000;

pub const DESCRIPTOR_VA: u32 = 0x29_0000;

pub const CONTEXT_VA: u32 = 0x2a_0000;

pub const PATCH_VA: u32 = 0x3a_0000;

pub const VERTEX_VA: u32 = 0x3b_0000;

pub const IMAGE_VA: u32 = 0x3c_0000;

pub const TEXTURE_VA: u32 = 0x3d_0000;

pub const PUSH_VA: u32 = 0x40_0000;

pub const TILE_VA: u32 = 0x50_0000;

pub const FENCE_VA: u32 = 0x6000;

/// Surface format of a color target.
pub const BGRA8: u32 = 0xcf;

/// One half and one, as IEEE-754 singles.
pub const HALF: u32 = 0x3f00_0000;

pub const ONE: u32 = 0x3f80_0000;

/// Method numbers and field values of the graphics class, from the headers of
/// the hardware.
#[derive(Clone, Copy, Debug)]
pub struct Methods {
    pub cond_mode: u32,
    pub cond_mode_always: u32,
    pub watchdog_timer: u32,
    pub zeta_comp_enable: u32,
    pub rt_control: u32,
    pub csaa_enable: u32,
    pub multisample_enable: u32,
    pub multisample_mode: u32,
    pub multisample_ctrl: u32,
    pub blend_separate_alpha: u32,
    pub blend_enable_common: u32,
    pub shade_model: u32,
    pub shade_model_smooth: u32,
    pub tex_cb_index: u32,
    pub call_limit_log: u32,
    pub cache_split: u32,
    pub cache_split_48k_shared_16k_l1: u32,
    pub screen_y_control: u32,
    pub zcull_region: u32,
    pub clip_rects_en: u32,
    pub clipid_enable: u32,
    pub clear_flags: u32,
    pub viewport_transform_en: u32,
    pub view_volume_clip_ctrl: u32,
    pub view_volume_clip_ctrl_unk1_unk1: u32,
    pub rasterize_enable: u32,
    pub rt_separate_frag_data: u32,
    pub layer: u32,
    pub point_coord_replace: u32,
    pub edgeflag: u32,
    pub zeta_enable: u32,
    pub depth_test_enable: u32,
    pub depth_write_enable: u32,
    pub alpha_test_enable: u32,
    pub stencil_enable: u32,
    pub logic_op_enable: u32,
    pub color_mask: u32,
    pub polygon_mode_front: u32,
    pub polygon_mode_back: u32,
    pub local_base: u32,
    pub invalidate_shader_caches: u32,
    pub invalidate_shader_cache_reads: u32,
    pub rt_comp_enable: u32,
    pub window_offset_x: u32,
    pub vertex_id_gen_mode: u32,
    pub code_address_high: u32,
    pub vertex_runout_address_high: u32,
    pub tic_address_high: u32,
    pub tsc_address_high: u32,
    pub sp_select: u32,
    pub sp_gpr_alloc: u32,
    pub cb_size: u32,
    pub cb_bind: u32,
    pub cb_pos: u32,
    pub rt_address_high: u32,
    pub rt_tile_mode_linear: u32,
    pub screen_scissor_horiz: u32,
    pub scissor_enable: u32,
    pub clear_color: u32,
    pub clear_buffers: u32,
    pub serialize: u32,
    pub viewport_translate_x: u32,
    pub viewport_scale_x: u32,
    pub viewport_horiz: u32,
    pub viewport_swizzle: u32,
    pub depth_range_near: u32,
    pub cull_face_enable: u32,
    pub cull_face: u32,
    pub front_face: u32,
    pub blend_enable: u32,
    pub blend_equation_rgb: u32,
    pub blend_func_dst_alpha: u32,
    pub vertex_array_fetch: u32,
    pub vertex_array_fetch_enable: u32,
    pub vertex_array_limit_high: u32,
    pub vertex_array_per_instance: u32,
    pub vertex_attrib_format: u32,
    pub vertex_attrib_format_type_float: u32,
    pub vertex_attrib_format_size_32_32: u32,
    pub vertex_attrib_format_size_32_32_32: u32,
    pub vertex_attrib_format_size_32_32_32_32: u32,
    pub vertex_attrib_format_const: u32,
    pub tic_flush: u32,
    pub tsc_flush: u32,
    pub tex_cache_ctl: u32,
    pub vb_element_base: u32,
    pub index_array_start_high: u32,
    pub vertex_begin_gl: u32,
    pub vertex_buffer_first: u32,
    pub index_batch_first: u32,
    pub vertex_end_gl: u32,
    pub query_address_high: u32,
    pub query_get_fence: u32,
    pub query_get_short: u32,
}

impl Methods {
    /// Methods that are addressed with an offset leave room for it.
    pub open spec fn wf(self) -> bool {
        &&& self.sp_select <= 0x8000
        &&& self.sp_gpr_alloc <= 0x8000
        &&& self.cb_bind <= 0x8000
        &&& self.vertex_attrib_format <= 0x8000
        &&& self.vertex_array_fetch <= 0x8000
    }
}

/// One word each for the methods of a table.
pub open spec fn ones(table: Seq<(u32, u32)>) -> Seq<Command> {
    Seq::new(table.len(), |i: int| push::one_spec(table[i].0, table[i].1))
}

fn push_ones(p: &mut Program, table: &Vec<(u32, u32)>)
    ensures
        final(p)@ == old(p)@ + ones(table@),
{
    let ghost before = p@;
    let mut i: usize = 0;
    while i < table.len()
        invariant
            i <= table@.len(),
            p@ == before + ones(table@.take(i as int)),
        decreases table@.len() - i,
    {
        p.one(table[i].0, table[i].1);
        assert(ones(table@.take(i + 1)) =~= ones(table@.take(i as int)).push(
            push::one_spec(table@[i as int].0, table@[i as int].1),
        ));
        i += 1;
    }
    assert(table@.take(i as int) =~= table@);
}

/// Channel-wide state that no draw changes.
pub open spec fn fixed_state(m: Methods) -> Seq<(u32, u32)> {
    seq![
        (m.cond_mode, m.cond_mode_always),
        (m.watchdog_timer, 0x17u32),
        (m.zeta_comp_enable, 0u32),
        (m.rt_control, 1u32),
        (m.csaa_enable, 0u32),
        (m.multisample_enable, 0u32),
        (m.multisample_mode, 0u32),
        (m.multisample_ctrl, 0u32),
        (m.blend_separate_alpha, 1u32),
        (m.blend_enable_common, 0u32),
        (0x12e4u32, 0u32),
        (m.shade_model, m.shade_model_smooth),
        (m.tex_cb_index, 15u32),
        (m.call_limit_log, 8u32),
        (m.cache_split, m.cache_split_48k_shared_16k_l1),
        (m.screen_y_control, 0u32),
        (m.zcull_region, 0x3fu32),
        (m.clip_rects_en, 0u32),
        (m.clipid_enable, 0u32),
        (m.clear_flags, 0u32),
        (m.viewport_transform_en, 1u32),
        (m.view_volume_clip_ctrl, m.view_volume_clip_ctrl_unk1_unk1),
        (m.rasterize_enable, 1u32),
        (m.rt_separate_frag_data, 1u32),
        (m.layer, 0u32),
        (m.point_coord_replace, 0u32),
        (m.edgeflag, 1u32),
        (m.zeta_enable, 0u32),
        (m.depth_test_enable, 0u32),
        (m.depth_write_enable, 0u32),
        (m.alpha_test_enable, 0u32),
        (m.stencil_enable, 0u32),
        (m.logic_op_enable, 0u32),
        (0x1234u32, 0u32),
        (m.color_mask, 0x1111u32),
        (m.polygon_mode_front, 0x1b02u32),
        (m.polygon_mode_back, 0x1b02u32),
        (m.local_base, 0xff00_0000u32),
        (m.invalidate_shader_caches, m.invalidate_shader_cache_reads),
    ]
}

fn fixed_state_table(m: &Methods) -> (r: Vec<(u32, u32)>)
    ensures
        r@ == fixed_state(*m),
{
    let r: Vec<(u32, u32)> = vec![
        (m.cond_mode, m.cond_mode_always),
        (m.watchdog_timer, 0x17),
        (m.zeta_comp_enable, 0),
        (m.rt_control, 1),
        (m.csaa_enable, 0),
        (m.multisample_enable, 0),
        (m.multisample_mode, 0),
        (m.multisample_ctrl, 0),
        (m.blend_separate_alpha, 1),
        (m.blend_enable_common, 0),
        (0x12e4, 0),
        (m.shade_model, m.shade_model_smooth),
        (m.tex_cb_index, 15),
        (m.call_limit_log, 8),
        (m.cache_split, m.cache_split_48k_shared_16k_l1),
        (m.screen_y_control, 0),
        (m.zcull_region, 0x3f),
        (m.clip_rects_en, 0),
        (m.clipid_enable, 0),
        (m.clear_flags, 0),
        (m.viewport_transform_en, 1),
        (m.view_volume_clip_ctrl, m.view_volume_clip_ctrl_unk1_unk1),
        (m.rasterize_enable, 1),
        (m.rt_separate_frag_data, 1),
        (m.layer, 0),
        (m.point_coord_replace, 0),
        (m.edgeflag, 1),
        (m.zeta_enable, 0),
        (m.depth_test_enable, 0),
        (m.depth_write_enable, 0),
        (m.alpha_test_enable, 0),
        (m.stencil_enable, 0),
        (m.logic_op_enable, 0),
        (0x1234, 0),
        (m.color_mask, 0x1111),
        (m.polygon_mode_front, 0x1b02),
        (m.polygon_mode_back, 0x1b02),
        (m.local_base, 0xff00_0000),
        (m.invalidate_shader_caches, m.invalidate_shader_cache_reads),
    ];
    assert(r@ =~= fixed_state(*m));
    r
}

/// Settings of this generation of the class.
pub open spec fn generation_state(m: Methods) -> Seq<(u32, u32)> {
    seq![
        (0x10ccu32, 0xffu32),
        (0x10e0u32, 0xffu32),
        (0x10e4u32, 0xffu32),
        (0x10ecu32, 0xffu32),
        (0x10f0u32, 0xffu32),
        (0x74cu32, 0x3fu32),
        (0x16a8u32, 0x3_0003u32),
        (0x1794u32, 0x2_0002u32),
        (0x218u32, 0x10u32),
        (0x10fcu32, 0x10u32),
        (0x1290u32, 0x10u32),
        (0x12d8u32, 0x10u32),
        (0x12dcu32, 0x10u32),
        (0x1140u32, 0x10u32),
        (0x1610u32, 0xeu32),
        (m.vertex_id_gen_mode, 0x1000u32),
        (0x30cu32, 0u32),
        (0x300u32, 3u32),
        (0x2d0u32, 0x3f_ffffu32),
        (0xfdcu32, 1u32),
        (0x19c0u32, 1u32),
    ]
}

fn generation_state_table(m: &Methods) -> (r: Vec<(u32, u32)>)
    ensures
        r@ == generation_state(*m),
{
    let r: Vec<(u32, u32)> = vec![
        (0x10cc, 0xff),
        (0x10e0, 0xff),
        (0x10e4, 0xff),
        (0x10ec, 0xff),
        (0x10f0, 0xff),
        (0x74c, 0x3f),
        (0x16a8, 0x3_0003),
        (0x1794, 0x2_0002),
        (0x218, 0x10),
        (0x10fc, 0x10),
        (0x1290, 0x10),
        (0x12d8, 0x10),
        (0x12dc, 0x10),
        (0x1140, 0x10),
        (0x1610, 0xe),
        (m.vertex_id_gen_mode, 0x1000),
        (0x30c, 0),
        (0x300, 3),
        (0x2d0, 0x3f_ffff),
        (0xfdc, 1),
        (0x19c0, 1),
    ];
    assert(r@ =~= generation_state(*m));
    r
}

pub open spec fn cmd(sub: u32, method: u32, data: Seq<u32>) -> Command {
    push::method_spec(sub, method, data)
}

/// Binds the objects of the channel and sets up the two-dimensional engine.
pub open spec fn bind_objects() -> Seq<Command> {
    seq![
        cmd(0, 0, seq![0xb197u32]),
        cmd(3, 0, seq![0x902du32]),
        cmd(3, 0x260, seq![0u32]),
        cmd(3, 0x26c, seq![1u32]),
        cmd(3, 0x29c, seq![0u32]),
        cmd(3, 0x884, seq![0x3fu32]),
        cmd(3, 0x888, seq![1u32]),
        cmd(3, 0x290, seq![0u32]),
        cmd(3, 0x2ac, seq![3u32]),
    ]
}

/// Where programs, runout storage and texture descriptors stand.
pub open spec fn private_addresses(m: Methods) -> Seq<Command> {
    seq![
        push::address_spec(m.code_address_high, PROGRAM_VA as u64),
        push::address_spec(m.vertex_runout_address_high, 0x28_0f00u64),
        cmd(0, m.tic_address_high, seq![0u32, DESCRIPTOR_VA, 0u32]),
        cmd(0, m.tsc_address_high, seq![0u32, 0x29_0200u32, 0u32]),
    ]
}

/// All six shader stages, selected and disabled.
pub open spec fn disabled_stages(m: Methods) -> Seq<Command> {
    Seq::new(
        6,
        |stage: int|
            push::one_spec((m.sp_select + stage * 0x40) as u32, ((stage as u32) << 4)),
    )
}

/// The constant buffers of one stage: uniforms and texture handles.
pub open spec fn stage_buffers(m: Methods, stage: u32) -> Seq<Command> {
    seq![
        cmd(0, m.cb_size, seq![256u32, 0u32, AUX_VA]),
        push::one_spec((m.cb_bind + stage * 0x20) as u32, 1),
        cmd(0, m.cb_size, seq![256u32, 0u32, 0x28_0400u32]),
        push::one_spec((m.cb_bind + stage * 0x20) as u32, 0xf1),
    ]
}

/// Everything that precedes the first operation of a submission.
pub open spec fn initialize_spec(m: Methods) -> Seq<Command> {
    bind_objects() + ones(fixed_state(m)) + seq![
        cmd(0, m.rt_comp_enable, seq![0u32, 0u32, 0u32, 0u32, 0u32, 0u32, 0u32, 0u32]),
        cmd(0, m.window_offset_x, seq![0u32, 0u32]),
    ] + ones(generation_state(m)) + private_addresses(m) + disabled_stages(m) + stage_buffers(m, 0)
        + stage_buffers(m, 4) + seq![push::one_spec(0x0f90, 0)]
}

fn initialize_program(m: &Methods) -> (p: Program)
    requires
        m.wf(),
    ensures
        p@ == initialize_spec(*m),
{
    let mut p = Program::new();
    p.method1(0, 0, 0xb197);
    p.method1(3, 0, 0x902d);
    p.method1(3, 0x260, 0);
    p.method1(3, 0x26c, 1);
    p.method1(3, 0x29c, 0);
    p.method1(3, 0x884, 0x3f);
    p.method1(3, 0x888, 1);
    p.method1(3, 0x290, 0);
    p.method1(3, 0x2ac, 3);
    assert(p@ =~= bind_objects());
    push_ones(&mut p, &fixed_state_table(m));
    let ghost s1 = p@;
    p.method8(0, m.rt_comp_enable, 0, 0, 0, 0, 0, 0, 0, 0);
    p.method2(0, m.window_offset_x, 0, 0);
    assert(p@ =~= s1 + seq![
        cmd(0, m.rt_comp_enable, seq![0u32, 0u32, 0u32, 0u32, 0u32, 0u32, 0u32, 0u32]),
        cmd(0, m.window_offset_x, seq![0u32, 0u32]),
    ]);
    push_ones(&mut p, &generation_state_table(m));
    let ghost s2 = p@;
    p.address(m.code_address_high, PROGRAM_VA as u64);
    p.address(m.vertex_runout_address_high, (AUX_VA + 0xf00) as u64);
    p.method3(0, m.tic_address_high, 0, DESCRIPTOR_VA, 0);
    p.method3(0, m.tsc_address_high, 0, DESCRIPTOR_VA + 0x200, 0);
    assert(p@ =~= s2 + private_addresses(*m));
    let ghost s3 = p@;
    let mut stage: u32 = 0;
    while stage < 6
        invariant
            m.wf(),
            stage <= 6,
            p@ == s3 + disabled_stages(*m).take(stage as int),
        decreases 6 - stage,
    {
        p.one(m.sp_select + stage * 0x40, stage << 4);
        assert(disabled_stages(*m).take(stage + 1) =~= disabled_stages(*m).take(
            stage as int,
        ).push(disabled_stages(*m)[stage as int]));
        stage += 1;
    }
    assert(disabled_stages(*m).take(6) =~= disabled_stages(*m));
    push_stage_buffers(&mut p, m, 0);
    push_stage_buffers(&mut p, m, 4);
    let ghost s4 = p@;
    p.one(0x0f90, 0);
    assert(p@ =~= s4 + seq![push::one_spec(0x0f90, 0)]);
    p
}

fn push_stage_buffers(p: &mut Program, m: &Methods, stage: u32)
    requires
        m.wf(),
        stage < 8,
    ensures
        final(p)@ == old(p)@ + stage_buffers(*m, stage),
{
    let ghost before = p@;
    p.method3(0, m.cb_size, 256, 0, AUX_VA);
    p.one(m.cb_bind + stage * 0x20, 1);
    p.method3(0, m.cb_size, 256, 0, AUX_VA + 0x400);
    p.one(m.cb_bind + stage * 0x20, 0xf1);
    assert(p@ =~= before + stage_buffers(*m, stage));
}

/// Selects the color target and its render area.
pub open spec fn target_spec(m: Methods, w: Seq<u32>) -> Seq<Command> {
    let tiled = w[52] == 0x40;
    seq![
        cmd(
            0,
            m.rt_address_high,
            seq![
                w[3],
                w[2],
                if tiled { w[10] } else { w[12] },
                w[11],
                BGRA8,
                if tiled { 0x40u32 } else { m.rt_tile_mode_linear },
                1u32,
                0u32,
                0u32,
            ],
        ),
        cmd(0, m.screen_scissor_horiz, seq![(w[15] << 16) | w[13], (w[16] << 16) | w[14]]),
    ]
}

fn push_target(p: &mut Program, m: &Methods, w: &[u32; 64])
    ensures
        final(p)@ == old(p)@ + target_spec(*m, w@),
{
    let ghost before = p@;
    let tiled = w[52] == 0x40;
    let width: u32 = if tiled {
        w[10]
    } else {
        w[12]
    };
    let mode: u32 = if tiled {
        0x40
    } else {
        m.rt_tile_mode_linear
    };
    p.method9(0, m.rt_address_high, w[3], w[2], width, w[11], BGRA8, mode, 1, 0, 0);
    p.method2(0, m.screen_scissor_horiz, (w[15] << 16) | w[13], (w[16] << 16) | w[14]);
    assert(p@ =~= before + target_spec(*m, w@));
}

/// Clears the render area to the color in words 32 to 35.
pub open spec fn clear_spec(m: Methods, w: Seq<u32>) -> Seq<Command> {
    target_spec(m, w) + seq![
        push::one_spec(m.scissor_enable, 0),
        cmd(0, m.clear_color, seq![w[32], w[33], w[34], w[35]]),
        push::one_spec(m.clear_buffers, 0x3c),
    ]
}

fn clear_program(m: &Methods, w: &[u32; 64]) -> (p: Program)
    ensures
        p@ == clear_spec(*m, w@),
{
    let mut p = Program::new();
    push_target(&mut p, m, w);
    let ghost before = p@;
    p.one(m.scissor_enable, 0);
    p.method4(0, m.clear_color, w[32], w[33], w[34], w[35]);
    p.one(m.clear_buffers, 0x3c);
    assert(p@ =~= clear_spec(*m, w@));
    p
}

/// One surface of a copy: the target at method 0x200, the source at 0x230.
pub open spec fn copy_surface(
    method: u32,
    high: u32,
    low: u32,
    width: u32,
    height: u32,
    stride: u32,
    tile_mode: u32,
) -> Seq<Command> {
    if tile_mode == 0x40 {
        seq![
            cmd(3, method, seq![BGRA8, 0u32, tile_mode, 1u32, 0u32]),
            cmd(3, (method + 0x18) as u32, seq![width, height, high, low]),
        ]
    } else {
        seq![
            cmd(3, method, seq![BGRA8, 1u32]),
            cmd(3, (method + 0x14) as u32, seq![stride, width, height, high, low]),
        ]
    }
}

fn push_copy_surface(
    p: &mut Program,
    method: u32,
    high: u32,
    low: u32,
    width: u32,
    height: u32,
    stride: u32,
    tile_mode: u32,
)
    requires
        method <= 0x8000,
    ensures
        final(p)@ == old(p)@ + copy_surface(method, high, low, width, height, stride, tile_mode),
{
    let ghost before = p@;
    if tile_mode == 0x40 {
        p.method5(3, method, BGRA8, 0, tile_mode, 1, 0);
        p.method4(3, method + 0x18, width, height, high, low);
    } else {
        p.method2(3, method, BGRA8, 1);
        p.method5(3, method + 0x14, stride, width, height, high, low);
    }
    assert(p@ =~= before + copy_surface(method, high, low, width, height, stride, tile_mode));
}

/// A copy of one rectangle, serialized against what came before, with the caches
/// invalidated after it.
pub open spec fn copy_spec(m: Methods, w: Seq<u32>) -> Seq<Command> {
    seq![push::one_spec(m.serialize, 0)] + copy_surface(
        0x200,
        w[3],
        w[2],
        w[10],
        w[11],
        w[12],
        w[52],
    ) + copy_surface(0x230, w[5], w[4], w[29], w[30], w[31], w[53]) + seq![
        cmd(3, 0x88c, seq![0u32]),
        cmd(3, 0x8b0, seq![w[13], w[14], w[15], w[16]]),
        cmd(3, 0x8c0, seq![0u32, 1u32, 0u32, 1u32]),
        cmd(3, 0x8d0, seq![0u32, w[17], 0u32, w[18]]),
        push::one_spec(m.serialize, 0),
        push::one_spec(m.invalidate_shader_caches, m.invalidate_shader_cache_reads),
        push::one_spec(m.tex_cache_ctl, 0),
    ]
}

fn copy_program(m: &Methods, w: &[u32; 64]) -> (p: Program)
    ensures
        p@ == copy_spec(*m, w@),
{
    let mut p = Program::new();
    p.one(m.serialize, 0);
    assert(p@ =~= seq![push::one_spec(m.serialize, 0)]);
    push_copy_surface(&mut p, 0x200, w[3], w[2], w[10], w[11], w[12], w[52]);
    push_copy_surface(&mut p, 0x230, w[5], w[4], w[29], w[30], w[31], w[53]);
    let ghost before = p@;
    p.method1(3, 0x88c, 0);
    p.method4(3, 0x8b0, w[13], w[14], w[15], w[16]);
    p.method4(3, 0x8c0, 0, 1, 0, 1);
    p.method4(3, 0x8d0, 0, w[17], 0, w[18]);
    p.one(m.serialize, 0);
    p.one(m.invalidate_shader_caches, m.invalidate_shader_cache_reads);
    p.one(m.tex_cache_ctl, 0);
    assert(p@ =~= copy_spec(*m, w@));
    p
}

/// Half the width and half the height of the target, as IEEE-754 singles.
#[derive(Clone, Copy, Debug, PartialEq, Eq, Structural)]
pub struct Viewport {
    pub half_width: u32,
    pub half_height: u32,
}

/// Transforms, viewport and scissor of a draw. The viewport has its origin in the
/// upper left corner, and depth runs from minus one to one.
pub open spec fn draw_viewport(m: Methods, w: Seq<u32>, v: Viewport) -> Seq<Command> {
    seq![push::one_spec(m.serialize, 0)] + push::cb_spec(
        m.cb_size,
        m.cb_pos,
        AUX_VA as u64,
        0,
        w.subrange(32, 52),
    ) + seq![
        cmd(0, m.viewport_translate_x, seq![v.half_width, v.half_height, HALF]),
        cmd(0, m.viewport_scale_x, seq![v.half_width, v.half_height ^ 0x8000_0000, HALF]),
        cmd(0, m.viewport_horiz, seq![w[10] << 16, w[11] << 16]),
        push::one_spec(m.viewport_swizzle, 0x6420),
        cmd(0, m.depth_range_near, seq![0u32, ONE]),
        cmd(
            0,
            m.scissor_enable,
            seq![
                1u32,
                (((w[17] + w[19]) as u32) << 16) | w[17],
                (((w[18] + w[20]) as u32) << 16) | w[18],
            ],
        ),
    ]
}

pub open spec fn flag(b: bool) -> u32 {
    if b {
        1
    } else {
        0
    }
}

/// Culling and straight-alpha blending of a draw, from its state word.
pub open spec fn draw_raster(m: Methods, state: u32) -> Seq<Command> {
    let cull = (state >> 2) & 7;
    seq![
        push::one_spec(m.cull_face_enable, flag(cull & 3 != 0)),
        push::one_spec(m.cull_face, if cull & 3 == 1 { 0x404 } else { 0x405 }),
        push::one_spec(m.front_face, if cull & 4 != 0 { 0x900 } else { 0x901 }),
        push::one_spec(m.blend_enable, flag(state & 1 != 0)),
        cmd(0, m.blend_equation_rgb, seq![0x8006u32, 0x4302u32, 0x4303u32, 0x8006u32, 0x4001u32]),
        push::one_spec(m.blend_func_dst_alpha, 0x4303),
    ]
}

/// One shader stage and its program.
pub open spec fn shader_stage(m: Methods, stage: u32, shader: Shader) -> Seq<Command> {
    seq![
        cmd(0, (m.sp_select + stage * 0x40) as u32, seq![(stage << 4) | 1, shader.start]),
        push::one_spec((m.sp_gpr_alloc + stage * 0x40) as u32, shader.gprs),
    ]
}

/// Offset and component count of each attribute of a vertex.
pub open spec fn attributes_spec(v: Variant) -> Seq<(u32, u32)> {
    match v {
        Variant::Stride16Solid => seq![(0u32, 2u32)],
        Variant::Stride16TextureRgba | Variant::Stride16TextureAlphaMask => seq![
            (0u32, 2u32),
            (8u32, 2u32),
        ],
        Variant::Stride40VertexColor | Variant::Stride32VertexColor => seq![
            (0u32, 4u32),
            (16u32, 4u32),
        ],
        Variant::Stride40TextureVertexColorRgba => seq![(0u32, 4u32), (16u32, 4u32), (32u32, 2u32)],
        Variant::Stride28VertexColor => seq![(0u32, 4u32), (16u32, 3u32)],
        Variant::Stride24TextureRgba
        | Variant::Stride24TextureRgbIgnoreAlpha
        | Variant::Stride24TextureAlphaMask => seq![(0u32, 4u32), (16u32, 2u32)],
        Variant::Other => seq![(0u32, 4u32)],
    }
}

fn attributes(v: Variant) -> (r: Vec<(u32, u32)>)
    ensures
        r@ == attributes_spec(v),
{
    let r: Vec<(u32, u32)> = match v {
        Variant::Stride16Solid => vec![(0, 2)],
        Variant::Stride16TextureRgba | Variant::Stride16TextureAlphaMask => vec![(0, 2), (8, 2)],
        Variant::Stride40VertexColor | Variant::Stride32VertexColor => vec![(0, 4), (16, 4)],
        Variant::Stride40TextureVertexColorRgba => vec![(0, 4), (16, 4), (32, 2)],
        Variant::Stride28VertexColor => vec![(0, 4), (16, 3)],
        Variant::Stride24TextureRgba
        | Variant::Stride24TextureRgbIgnoreAlpha
        | Variant::Stride24TextureAlphaMask => vec![(0, 4), (16, 2)],
        Variant::Other => vec![(0, 4)],
    };
    assert(r@ =~= attributes_spec(v));
    r
}

/// Format word of attribute `i`: floats at their offset, or a constant.
pub open spec fn attribute_word(m: Methods, a: Seq<(u32, u32)>, i: int) -> u32 {
    if i < a.len() {
        m.vertex_attrib_format_type_float | (if a[i].1 == 2 {
            m.vertex_attrib_format_size_32_32
        } else if a[i].1 == 3 {
            m.vertex_attrib_format_size_32_32_32
        } else {
            m.vertex_attrib_format_size_32_32_32_32
        }) | (a[i].0 << 7)
    } else {
        m.vertex_attrib_format_type_float | m.vertex_attrib_format_size_32_32_32_32
            | m.vertex_attrib_format_const
    }
}

/// Formats of the first `n` attributes. All vertex arrays but the first are off.
pub open spec fn attribute_formats(m: Methods, a: Seq<(u32, u32)>, n: nat) -> Seq<Command>
    decreases n,
{
    if n == 0 {
        Seq::empty()
    } else {
        let i = n - 1;
        let before = attribute_formats(m, a, i as nat).push(
            push::one_spec((m.vertex_attrib_format + i * 4) as u32, attribute_word(m, a, i)),
        );
        if i > 0 {
            before.push(push::one_spec((m.vertex_array_fetch + i * 0x10) as u32, 0))
        } else {
            before
        }
    }
}

fn push_attribute_formats(p: &mut Program, m: &Methods, a: &Vec<(u32, u32)>)
    requires
        m.wf(),
    ensures
        final(p)@ == old(p)@ + attribute_formats(*m, a@, 16),
{
    let ghost before = p@;
    let mut i: u32 = 0;
    assert(p@ =~= before + attribute_formats(*m, a@, 0));
    while i < 16
        invariant
            m.wf(),
            i <= 16,
            p@ == before + attribute_formats(*m, a@, i as nat),
        decreases 16 - i,
    {
        let k: usize = i as usize;
        let word: u32 = if k < a.len() {
            let (offset, count): (u32, u32) = a[k];
            let size: u32 = if count == 2 {
                m.vertex_attrib_format_size_32_32
            } else if count == 3 {
                m.vertex_attrib_format_size_32_32_32
            } else {
                m.vertex_attrib_format_size_32_32_32_32
            };
            m.vertex_attrib_format_type_float | size | (offset << 7)
        } else {
            m.vertex_attrib_format_type_float | m.vertex_attrib_format_size_32_32_32_32
                | m.vertex_attrib_format_const
        };
        p.one(m.vertex_attrib_format + i * 4, word);
        if i > 0 {
            p.one(m.vertex_array_fetch + i * 0x10, 0);
        }
        assert(p@ =~= before + attribute_formats(*m, a@, (i + 1) as nat));
        i += 1;
    }
}

pub open spec fn words_to_address(low: u32, high: u32) -> u64 {
    ((high as u64) << 32) | low as u64
}

/// The vertex buffer of a draw and the formats of its attributes.
pub open spec fn draw_vertices(m: Methods, w: Seq<u32>, v: Variant) -> Seq<Command> {
    seq![
        cmd(0, m.vertex_array_fetch, seq![m.vertex_array_fetch_enable | w[23], w[5], w[4], 0u32]),
        push::address_spec(
            m.vertex_array_limit_high,
            (words_to_address(w[4], w[5]) + w[28] - 1) as u64,
        ),
        push::one_spec(m.vertex_array_per_instance, 0),
    ] + attribute_formats(m, attributes_spec(v), 16)
}

/// Descriptor of the sampled image. An alpha mask takes one from every color
/// channel and its own value for alpha.
pub open spec fn texture_descriptor(w: Seq<u32>) -> Seq<u32> {
    let tiled = w[53] == 0x40;
    let swizzle = if w[22] & 0x20 != 0 {
        0x5ff8_0000u32
    } else {
        0x54e0_0000u32
    };
    seq![
        0x0002_4908u32 | swizzle,
        w[6],
        w[7] | if tiled { 0x0060_0000u32 } else { 0x0040_0000u32 },
        0x1_0000u32 | if tiled { 0x20u32 } else { w[31] >> 5 },
        (if tiled { 0xe080_0000u32 } else { 0xe380_0000u32 }) | (w[29] - 1) as u32,
        0x8000_0000u32 | (w[30] - 1) as u32,
        0u32,
        0u32,
    ]
}

pub open spec fn sampler_descriptor(w: Seq<u32>) -> Seq<u32> {
    seq![
        0x0002_6092u32,
        if w[22] & 2 != 0 { 0x62u32 } else { 0x51u32 },
        0u32,
        0u32,
        0u32,
        0u32,
        0u32,
        0u32,
    ]
}

pub open spec fn draw_texture(m: Methods, w: Seq<u32>) -> Seq<Command> {
    if w[29] == 0 {
        Seq::empty()
    } else {
        push::cb_spec(m.cb_size, m.cb_pos, DESCRIPTOR_VA as u64, 0, texture_descriptor(w))
            + push::cb_spec(m.cb_size, m.cb_pos, 0x29_0200u64, 0, sampler_descriptor(w))
            + push::cb_spec(m.cb_size, m.cb_pos, 0x28_0400u64, 0x20, seq![0u32]) + seq![
            push::one_spec(m.tic_flush, 0),
            push::one_spec(m.tsc_flush, 0),
            push::one_spec(m.tex_cache_ctl, 0),
        ]
    }
}

/// Last byte of the indices of a draw.
pub open spec fn index_limit(w: Seq<u32>) -> int {
    words_to_address(w[8], w[9]) + (w[24] + w[25]) * submit::element_of(w[26]) - 1
}

/// The primitives of a draw: triangles from the vertices, or through indices.
pub open spec fn draw_primitives(m: Methods, w: Seq<u32>) -> Seq<Command> {
    seq![push::one_spec(m.vb_element_base, w[27])] + (if w[26] != 0 {
        seq![
            cmd(
                0,
                m.index_array_start_high,
                seq![
                    w[9],
                    w[8],
                    ((index_limit(w) as u64) >> 32) as u32,
                    (index_limit(w) as u64) as u32,
                    w[26],
                ],
            ),
        ]
    } else {
        Seq::empty()
    }) + seq![
        push::one_spec(m.vertex_begin_gl, 4),
        cmd(
            0,
            if w[26] == 0 { m.vertex_buffer_first } else { m.index_batch_first },
            seq![w[24], w[25]],
        ),
        push::one_spec(m.vertex_end_gl, 0),
    ]
}

/// A draw, retired before the next one writes the shared constant buffers.
pub open spec fn draw_program_spec(m: Methods, w: Seq<u32>, v: Viewport, p: Pipeline) -> Seq<
    Command,
> {
    target_spec(m, w) + draw_viewport(m, w, v) + draw_raster(m, w[22]) + shader_stage(
        m,
        1,
        p.vertex,
    ) + shader_stage(m, 5, p.fragment) + seq![cmd(0, 0x0360, seq![0x2016_4010u32, 0x20u32])]
        + draw_vertices(m, w, p.variant) + draw_texture(m, w) + draw_primitives(m, w)
}

/// The sums and differences that a draw needs stay in their words. Every draw
/// that a submission is accepted with is like this.
pub open spec fn drawable(w: Seq<u32>) -> bool {
    &&& w[17] + w[19] <= u32::MAX
    &&& w[18] + w[20] <= u32::MAX
    &&& 1 <= words_to_address(w[4], w[5]) + w[28] <= u64::MAX
    &&& w[26] != 0 ==> w[24] + w[25] <= u32::MAX && 0 <= index_limit(w) < u64::MAX
    &&& w[29] != 0 ==> w[30] != 0
}

/// Whether a draw can be encoded.
pub fn is_drawable(w: &[u32; 64]) -> (r: bool)
    ensures
        r == drawable(w@),
{
    let vertices: u64 = ((w[5] as u64) << 32) | w[4] as u64;
    let indices: u64 = ((w[9] as u64) << 32) | w[8] as u64;
    let element: u128 = if w[26] == 1 {
        2
    } else {
        4
    };
    let end: u128 = vertices as u128 + w[28] as u128;
    let count: u128 = w[24] as u128 + w[25] as u128;
    assert(count * element == (w@[24] + w@[25]) * submit::element_of(w@[26]));
    assert(0 <= count * element <= 0x8_0000_0000) by (nonlinear_arith)
        requires
            count <= 0x2_0000_0000,
            element <= 4,
    ;
    let limit: u128 = indices as u128 + count * element;
    let indexed: bool = count <= 0xffff_ffff && 1 <= limit && limit <= 0xffff_ffff_ffff_ffff;
    w[17].checked_add(w[19]).is_some() && w[18].checked_add(w[20]).is_some() && 1 <= end && end
        <= 0xffff_ffff_ffff_ffff && (w[26] == 0 || indexed) && (w[29] == 0 || w[30] != 0)
}

fn subwords(w: &[u32; 64], from: usize, to: usize) -> (r: Vec<u32>)
    requires
        from <= to <= 64,
    ensures
        r@ == w@.subrange(from as int, to as int),
{
    let mut r: Vec<u32> = Vec::new();
    let mut i: usize = from;
    while i < to
        invariant
            from <= i <= to <= 64,
            r@ == w@.subrange(from as int, i as int),
        decreases to - i,
    {
        r.push(w[i]);
        assert(w@.subrange(from as int, i + 1) =~= w@.subrange(from as int, i as int).push(
            w@[i as int],
        ));
        i += 1;
    }
    r
}

fn push_draw_viewport(p: &mut Program, m: &Methods, w: &[u32; 64], v: &Viewport)
    requires
        drawable(w@),
    ensures
        final(p)@ == old(p)@ + draw_viewport(*m, w@, *v),
{
    let ghost before = p@;
    p.one(m.serialize, 0);
    let uniforms: Vec<u32> = subwords(w, 32, 52);
    p.cb(m.cb_size, m.cb_pos, AUX_VA as u64, 0, &uniforms);
    p.method3(0, m.viewport_translate_x, v.half_width, v.half_height, HALF);
    p.method3(0, m.viewport_scale_x, v.half_width, v.half_height ^ 0x8000_0000, HALF);
    p.method2(0, m.viewport_horiz, w[10] << 16, w[11] << 16);
    p.one(m.viewport_swizzle, 0x6420);
    p.method2(0, m.depth_range_near, 0, ONE);
    p.method3(
        0,
        m.scissor_enable,
        1,
        ((w[17] + w[19]) << 16) | w[17],
        ((w[18] + w[20]) << 16) | w[18],
    );
    assert(p@ =~= before + draw_viewport(*m, w@, *v));
}

fn push_draw_raster(p: &mut Program, m: &Methods, state: u32)
    ensures
        final(p)@ == old(p)@ + draw_raster(*m, state),
{
    let ghost before = p@;
    let cull: u32 = (state >> 2) & 7;
    let culled: u32 = if cull & 3 != 0 {
        1
    } else {
        0
    };
    let face: u32 = if cull & 3 == 1 {
        0x404
    } else {
        0x405
    };
    let front: u32 = if cull & 4 != 0 {
        0x900
    } else {
        0x901
    };
    let blended: u32 = if state & 1 != 0 {
        1
    } else {
        0
    };
    p.one(m.cull_face_enable, culled);
    p.one(m.cull_face, face);
    p.one(m.front_face, front);
    p.one(m.blend_enable, blended);
    p.method5(0, m.blend_equation_rgb, 0x8006, 0x4302, 0x4303, 0x8006, 0x4001);
    p.one(m.blend_func_dst_alpha, 0x4303);
    assert(p@ =~= before + draw_raster(*m, state));
}

fn push_shader_stage(p: &mut Program, m: &Methods, stage: u32, shader: &Shader)
    requires
        m.wf(),
        stage < 8,
    ensures
        final(p)@ == old(p)@ + shader_stage(*m, stage, *shader),
{
    let ghost before = p@;
    p.method2(0, m.sp_select + stage * 0x40, (stage << 4) | 1, shader.start);
    p.one(m.sp_gpr_alloc + stage * 0x40, shader.gprs);
    assert(p@ =~= before + shader_stage(*m, stage, *shader));
}

fn join(low: u32, high: u32) -> (r: u64)
    ensures
        r == words_to_address(low, high),
{
    ((high as u64) << 32) | low as u64
}

fn push_draw_vertices(p: &mut Program, m: &Methods, w: &[u32; 64], v: Variant)
    requires
        m.wf(),
        drawable(w@),
    ensures
        final(p)@ == old(p)@ + draw_vertices(*m, w@, v),
{
    let ghost before = p@;
    p.method4(0, m.vertex_array_fetch, m.vertex_array_fetch_enable | w[23], w[5], w[4], 0);
    let vertex: u64 = join(w[4], w[5]);
    p.address(m.vertex_array_limit_high, vertex + w[28] as u64 - 1);
    p.one(m.vertex_array_per_instance, 0);
    push_attribute_formats(p, m, &attributes(v));
    assert(p@ =~= before + draw_vertices(*m, w@, v));
}

fn push_draw_texture(p: &mut Program, m: &Methods, w: &[u32; 64])
    requires
        drawable(w@),
    ensures
        final(p)@ == old(p)@ + draw_texture(*m, w@),
{
    let ghost before = p@;
    if w[29] == 0 {
        assert(p@ =~= before + draw_texture(*m, w@));
        return;
    }
    let tiled = w[53] == 0x40;
    let swizzle: u32 = if w[22] & 0x20 != 0 {
        0x5ff8_0000
    } else {
        0x54e0_0000
    };
    let layout: u32 = if tiled {
        0x0060_0000
    } else {
        0x0040_0000
    };
    let pitch: u32 = if tiled {
        0x20
    } else {
        w[31] >> 5
    };
    let extent: u32 = if tiled {
        0xe080_0000
    } else {
        0xe380_0000
    };
    let filter: u32 = if w[22] & 2 != 0 {
        0x62
    } else {
        0x51
    };
    let tic: Vec<u32> = vec![
        0x0002_4908 | swizzle,
        w[6],
        w[7] | layout,
        0x1_0000 | pitch,
        extent | (w[29] - 1),
        0x8000_0000 | (w[30] - 1),
        0,
        0,
    ];
    assert(tic@ =~= texture_descriptor(w@));
    let tsc: Vec<u32> = vec![0x0002_6092, filter, 0, 0, 0, 0, 0, 0];
    assert(tsc@ =~= sampler_descriptor(w@));
    let handle: Vec<u32> = vec![0];
    assert(handle@ =~= seq![0u32]);
    p.cb(m.cb_size, m.cb_pos, DESCRIPTOR_VA as u64, 0, &tic);
    p.cb(m.cb_size, m.cb_pos, (DESCRIPTOR_VA + 0x200) as u64, 0, &tsc);
    p.cb(m.cb_size, m.cb_pos, (AUX_VA + 0x400) as u64, 0x20, &handle);
    p.one(m.tic_flush, 0);
    p.one(m.tsc_flush, 0);
    p.one(m.tex_cache_ctl, 0);
    assert(p@ =~= before + draw_texture(*m, w@));
}

fn push_draw_primitives(p: &mut Program, m: &Methods, w: &[u32; 64])
    requires
        drawable(w@),
    ensures
        final(p)@ == old(p)@ + draw_primitives(*m, w@),
{
    let ghost before = p@;
    p.one(m.vb_element_base, w[27]);
    if w[26] != 0 {
        let index: u64 = join(w[8], w[9]);
        let element: u64 = if w[26] == 1 {
            2
        } else {
            4
        };
        let limit: u64 = index + (w[24] + w[25]) as u64 * element - 1;
        p.method5(
            0,
            m.index_array_start_high,
            w[9],
            w[8],
            (limit >> 32) as u32,
            limit as u32,
            w[26],
        );
    }
    p.one(m.vertex_begin_gl, 4);
    let first: u32 = if w[26] == 0 {
        m.vertex_buffer_first
    } else {
        m.index_batch_first
    };
    p.method2(0, first, w[24], w[25]);
    p.one(m.vertex_end_gl, 0);
    assert(p@ =~= before + draw_primitives(*m, w@));
}

fn draw_program(m: &Methods, w: &[u32; 64], v: &Viewport, pipeline: &Pipeline) -> (p: Program)
    requires
        m.wf(),
        drawable(w@),
    ensures
        p@ == draw_program_spec(*m, w@, *v, *pipeline),
{
    let mut p = Program::new();
    push_target(&mut p, m, w);
    push_draw_viewport(&mut p, m, w, v);
    push_draw_raster(&mut p, m, w[22]);
    push_shader_stage(&mut p, m, 1, &pipeline.vertex);
    push_shader_stage(&mut p, m, 5, &pipeline.fragment);
    let ghost before = p@;
    p.method2(0, 0x0360, 0x2016_4010, 0x20);
    assert(p@ =~= before + seq![cmd(0, 0x0360, seq![0x2016_4010u32, 0x20u32])]);
    push_draw_vertices(&mut p, m, w, pipeline.variant);
    push_draw_texture(&mut p, m, w);
    push_draw_primitives(&mut p, m, w);
    assert(p@ =~= draw_program_spec(*m, w@, *v, *pipeline));
    p
}

/// What one operation pushes, or why it has no program.
pub open spec fn operation_spec(
    m: Methods,
    pipelines: Seq<Pipeline>,
    w: Seq<u32>,
    v: Viewport,
) -> Result<Seq<Command>, &'static str> {
    if w[0] == 1 {
        Ok(clear_spec(m, w))
    } else if w[0] == 2 {
        match submit::pipeline_of(pipelines, w[21]) {
            None => Err("invalid pipeline variant"),
            Some(p) => Ok(draw_program_spec(m, w, v, p)),
        }
    } else if w[0] == 3 {
        Ok(copy_spec(m, w))
    } else {
        Err("unsupported canonical operation")
    }
}

impl Push {
    /// Pushes the state of the channel.
    pub fn initialize(&mut self, m: &Methods) -> (r: Result<(), &'static str>)
        requires
            m.wf(),
        ensures
            push::pushed(old(self).words@, final(self).words@, initialize_spec(*m), r),
    {
        let p = initialize_program(m);
        self.emit(&p)
    }

    /// Pushes the color target of an operation.
    pub fn target(&mut self, m: &Methods, w: &[u32; 64]) -> (r: Result<(), &'static str>)
        ensures
            push::pushed(old(self).words@, final(self).words@, target_spec(*m, w@), r),
    {
        let mut p = Program::new();
        push_target(&mut p, m, w);
        assert(p@ =~= target_spec(*m, w@));
        self.emit(&p)
    }

    /// Pushes one draw.
    pub fn draw(&mut self, m: &Methods, w: &[u32; 64], v: &Viewport, pipeline: &Pipeline) -> (r:
        Result<(), &'static str>)
        requires
            m.wf(),
            drawable(w@),
        ensures
            push::pushed(
                old(self).words@,
                final(self).words@,
                draw_program_spec(*m, w@, *v, *pipeline),
                r,
            ),
    {
        let p = draw_program(m, w, v, pipeline);
        self.emit(&p)
    }

    /// Pushes one copy.
    pub fn copy(&mut self, m: &Methods, w: &[u32; 64]) -> (r: Result<(), &'static str>)
        ensures
            push::pushed(old(self).words@, final(self).words@, copy_spec(*m, w@), r),
    {
        let p = copy_program(m, w);
        self.emit(&p)
    }

    /// Pushes one operation.
    pub fn operation(
        &mut self,
        m: &Methods,
        pipelines: &[Pipeline],
        w: &[u32; 64],
        v: &Viewport,
    ) -> (r: Result<(), &'static str>)
        requires
            m.wf(),
            w@[0] == 2 ==> drawable(w@),
        ensures
            match operation_spec(*m, pipelines@, w@, *v) {
                Ok(commands) => push::pushed(old(self).words@, final(self).words@, commands, r),
                Err(e) => r == Err::<(), &'static str>(e) && final(self).words@ == old(self).words@,
            },
    {
        if w[0] == 1 {
            let p = clear_program(m, w);
            return self.emit(&p);
        }
        if w[0] == 2 {
            return match find_pipeline(pipelines, w[21]) {
                None => Err("invalid pipeline variant"),
                Some(pipeline) => self.draw(m, w, v, &pipeline),
            };
        }
        if w[0] == 3 {
            return self.copy(m, w);
        }
        Err("unsupported canonical operation")
    }
}

/// Everything that one submission pushes: the state of the channel, the first `k`
/// operations, in order, up to the first without a program.
pub open spec fn operations_commands(
    m: Methods,
    pipelines: Seq<Pipeline>,
    operations: Seq<[u32; 64]>,
    viewports: Seq<Viewport>,
    k: nat,
) -> Result<Seq<Command>, &'static str>
    decreases k,
{
    if k == 0 {
        Ok(initialize_spec(m))
    } else {
        match operations_commands(m, pipelines, operations, viewports, (k - 1) as nat) {
            Err(e) => Err(e),
            Ok(before) => match operation_spec(
                m,
                pipelines,
                operations[k - 1]@,
                viewports[k - 1],
            ) {
                Err(e) => Err(e),
                Ok(commands) => Ok(before + commands),
            },
        }
    }
}

/// The fence that proves retirement: a query by the graphics engine, then a
/// reference by the channel.
pub open spec fn fence_spec(m: Methods, sequence: u32) -> Seq<Command> {
    seq![
        cmd(
            0,
            m.query_address_high,
            seq![
                0u32,
                FENCE_VA,
                sequence,
                m.query_get_fence | m.query_get_short | 0xf000,
            ],
        ),
        cmd(0, 0x50, seq![sequence]),
    ]
}

/// Why a submission came to nothing: its own fault, or that of the device.
#[derive(Clone, Copy, Debug)]
pub enum SubmitError {
    Rejected(&'static str),
    Unavailable(&'static str),
    DeviceLost(&'static str),
}

/// The reason that a submission error carries.
pub open spec fn reason_of(e: SubmitError) -> &'static str {
    match e {
        SubmitError::Rejected(reason) => reason,
        SubmitError::Unavailable(reason) => reason,
        SubmitError::DeviceLost(reason) => reason,
    }
}

pub fn proof_error(e: SubmitError) -> (r: &'static str)
    ensures
        r == reason_of(e),
{
    match e {
        SubmitError::Rejected(reason)
        | SubmitError::Unavailable(reason)
        | SubmitError::DeviceLost(reason) => reason,
    }
}

/// Fence value before the first submission.
pub const FIRST_SEQUENCE: u32 = 0x5347_4700;

/// Fence values of the graphics channel. Each submission has its own, and they
/// only grow.
#[derive(Debug)]
pub struct Sequencer {
    pub sequence: u32,
}

/// What the encoding of a submission is answered, and the words that it pushes.
/// A refused submission pushes nothing that is ever published.
pub open spec fn encode_spec(
    m: Methods,
    pipelines: Seq<Pipeline>,
    operations: Seq<[u32; 64]>,
    viewports: Seq<Viewport>,
    sequence: u32,
) -> Result<Seq<u32>, SubmitError> {
    if sequence == u32::MAX {
        Err(SubmitError::DeviceLost("graphics sequence exhausted"))
    } else {
        match operations_commands(m, pipelines, operations, viewports, operations.len()) {
            Ok(commands) => {
                let (words, fit) = push::run(
                    Seq::empty(),
                    commands + fence_spec(m, (sequence + 1) as u32),
                );
                if fit {
                    Ok(words)
                } else {
                    Err(SubmitError::Rejected(push::BUDGET_ERROR))
                }
            },
            Err(e) => if over_budget(m, pipelines, operations, viewports, operations.len()) {
                Err(SubmitError::Rejected(push::BUDGET_ERROR))
            } else {
                Err(SubmitError::Rejected(e))
            },
        }
    }
}

/// Whether the buffer is full before the first operation without a program.
pub open spec fn over_budget(
    m: Methods,
    pipelines: Seq<Pipeline>,
    operations: Seq<[u32; 64]>,
    viewports: Seq<Viewport>,
    k: nat,
) -> bool
    decreases k,
{
    match operations_commands(m, pipelines, operations, viewports, k) {
        Ok(commands) => !push::run(Seq::empty(), commands).1,
        Err(_) => k > 0 && over_budget(m, pipelines, operations, viewports, (k - 1) as nat),
    }
}

proof fn lemma_no_program(
    m: Methods,
    pipelines: Seq<Pipeline>,
    operations: Seq<[u32; 64]>,
    viewports: Seq<Viewport>,
    k: nat,
    n: nat,
)
    requires
        k <= n,
        operations_commands(m, pipelines, operations, viewports, k) is Err,
    ensures
        operations_commands(m, pipelines, operations, viewports, n) == operations_commands(
            m,
            pipelines,
            operations,
            viewports,
            k,
        ),
        over_budget(m, pipelines, operations, viewports, n) == over_budget(
            m,
            pipelines,
            operations,
            viewports,
            k,
        ),
    decreases n,
{
    if k < n {
        lemma_no_program(m, pipelines, operations, viewports, k, (n - 1) as nat);
    }
}

/// Once the buffer is full it stays full.
proof fn lemma_full(
    m: Methods,
    pipelines: Seq<Pipeline>,
    operations: Seq<[u32; 64]>,
    viewports: Seq<Viewport>,
    k: nat,
    n: nat,
)
    requires
        k <= n,
        operations_commands(m, pipelines, operations, viewports, k) is Ok,
        !push::run(
            Seq::empty(),
            operations_commands(m, pipelines, operations, viewports, k)->Ok_0,
        ).1,
    ensures
        over_budget(m, pipelines, operations, viewports, n),
        operations_commands(m, pipelines, operations, viewports, n) matches Ok(c) ==> !push::run(
            Seq::empty(),
            c,
        ).1,
    decreases n,
{
    if k < n {
        lemma_full(m, pipelines, operations, viewports, k, (n - 1) as nat);
        let before = operations_commands(m, pipelines, operations, viewports, (n - 1) as nat);
        if let Ok(c) = operations_commands(m, pipelines, operations, viewports, n) {
            let next = operation_spec(m, pipelines, operations[n - 1]@, viewports[n - 1])->Ok_0;
            push::run_is_sequential(Seq::empty(), before->Ok_0, next);
        }
    }
}

/// The words of a submission are never none, and never more than the buffer holds.
pub proof fn lemma_encoded(
    m: Methods,
    pipelines: Seq<Pipeline>,
    operations: Seq<[u32; 64]>,
    viewports: Seq<Viewport>,
    sequence: u32,
)
    ensures
        encode_spec(m, pipelines, operations, viewports, sequence) matches Ok(words) ==> 0
            < words.len() <= push::PUSH_WORDS,
{
    if let Ok(commands) = operations_commands(
        m,
        pipelines,
        operations,
        viewports,
        operations.len(),
    ) {
        let fence = fence_spec(m, (sequence + 1) as u32);
        push::run_is_sequential(Seq::empty(), commands, fence);
        push::pushing_only_appends(Seq::empty(), commands);
        push::pushing_only_appends(Seq::empty(), commands + fence);
        let (start, fit) = push::run(Seq::empty(), commands);
        if push::run(start, fence).1 {
            let first = fence.drop_last();
            assert(first.drop_last() =~= Seq::<Command>::empty());
            push::run_is_sequential(start, first, seq![fence.last()]);
            assert(first.last() == fence[0]);
            assert(push::run(start, first).1);
        }
    }
}

impl Sequencer {
    pub fn new() -> (r: Self)
        ensures
            r.sequence == FIRST_SEQUENCE,
    {
        Sequencer { sequence: FIRST_SEQUENCE }
    }

    /// Encodes one submission under the next fence value. The fence value is
    /// taken only where the whole submission could be encoded, so that a refused
    /// submission leaves a healthy queue as it was.
    pub fn encode(
        &mut self,
        m: &Methods,
        pipelines: &[Pipeline],
        operations: &Vec<[u32; 64]>,
        viewports: &Vec<Viewport>,
    ) -> (r: Result<Vec<u32>, SubmitError>)
        requires
            m.wf(),
            operations@.len() == viewports@.len(),
            forall|i: int|
                0 <= i < operations@.len() && operations@[i]@[0] == 2 ==> drawable(
                    (#[trigger] operations@[i])@,
                ),
        ensures
            match encode_spec(
                *m,
                pipelines@,
                operations@,
                viewports@,
                old(self).sequence,
            ) {
                Ok(words) => r matches Ok(v) && v@ == words && final(self).sequence == old(
                    self,
                ).sequence + 1,
                Err(e) => r matches Err(f) && f == e && final(self).sequence == old(self).sequence,
            },
    {
        let sequence: u32 = match self.sequence.checked_add(1) {
            None => {
                return Err(SubmitError::DeviceLost("graphics sequence exhausted"));
            },
            Some(sequence) => sequence,
        };
        let mut push = Push::new();
        let ghost n = operations@.len();
        proof {
            if !push::run(Seq::empty(), initialize_spec(*m)).1 {
                lemma_full(*m, pipelines@, operations@, viewports@, 0, n);
            }
            if let Ok(c) = operations_commands(*m, pipelines@, operations@, viewports@, n) {
                push::run_is_sequential(Seq::empty(), c, fence_spec(*m, sequence));
            }
        }
        if let Err(e) = push.initialize(m) {
            return Err(SubmitError::Rejected(e));
        }
        let mut k: usize = 0;
        while k < operations.len()
            invariant
                m.wf(),
                k <= operations@.len(),
                n == operations@.len(),
                operations@.len() == viewports@.len(),
                self.sequence == old(self).sequence,
                sequence == old(self).sequence + 1,
                forall|i: int|
                    0 <= i < operations@.len() && operations@[i]@[0] == 2 ==> drawable(
                        (#[trigger] operations@[i])@,
                    ),
                operations_commands(*m, pipelines@, operations@, viewports@, k as nat) is Ok,
                push::run(
                    Seq::empty(),
                    operations_commands(
                        *m,
                        pipelines@,
                        operations@,
                        viewports@,
                        k as nat,
                    )->Ok_0,
                ) == (push.words@, true),
                operations_commands(*m, pipelines@, operations@, viewports@, n) matches Ok(c)
                    ==> (push::run(Seq::empty(), c).1 ==> push::run(
                    Seq::empty(),
                    c + fence_spec(*m, sequence),
                ) == push::run(push::run(Seq::empty(), c).0, fence_spec(*m, sequence))) && (
                !push::run(Seq::empty(), c).1 ==> !push::run(
                    Seq::empty(),
                    c + fence_spec(*m, sequence),
                ).1),
            decreases operations@.len() - k,
        {
            let ghost before = operations_commands(
                *m,
                pipelines@,
                operations@,
                viewports@,
                k as nat,
            )->Ok_0;
            let ghost next = operation_spec(
                *m,
                pipelines@,
                operations@[k as int]@,
                viewports@[k as int],
            );
            proof {
                let now = operations_commands(
                    *m,
                    pipelines@,
                    operations@,
                    viewports@,
                    (k + 1) as nat,
                );
                if let Ok(commands) = next {
                    push::run_is_sequential(Seq::empty(), before, commands);
                    if !push::run(Seq::empty(), before + commands).1 {
                        lemma_full(*m, pipelines@, operations@, viewports@, (k + 1) as nat, n);
                    }
                } else {
                    assert(!over_budget(*m, pipelines@, operations@, viewports@, k as nat));
                    assert(!over_budget(*m, pipelines@, operations@, viewports@, (k + 1) as nat));
                    lemma_no_program(*m, pipelines@, operations@, viewports@, (k + 1) as nat, n);
                }
            }
            if let Err(e) = push.operation(m, pipelines, &operations[k], &viewports[k]) {
                return Err(SubmitError::Rejected(e));
            }
            k += 1;
        }
        let mut fence = Program::new();
        fence.method4(
            0,
            m.query_address_high,
            0,
            FENCE_VA,
            sequence,
            m.query_get_fence | m.query_get_short | 0xf000,
        );
        fence.method1(0, 0x50, sequence);
        assert(fence@ =~= fence_spec(*m, sequence));
        if let Err(e) = push.emit(&fence) {
            return Err(SubmitError::Rejected(e));
        }
        self.sequence = sequence;
        Ok(push.words)
    }
}

/// Whether block storage was written, which other engines read only after the
/// second-level cache was flushed.
pub open spec fn writes_blocks(operations: Seq<[u32; 64]>) -> bool {
    exists|i: int| 0 <= i < operations.len() && (#[trigger] operations[i])@[52] == 0x40
}

pub fn needs_cache_flush(operations: &Vec<[u32; 64]>) -> (r: bool)
    ensures
        r == writes_blocks(operations@),
{
    let mut i: usize = 0;
    while i < operations.len()
        invariant
            i <= operations@.len(),
            forall|j: int| 0 <= j < i ==> (#[trigger] operations@[j])@[52] != 0x40,
        decreases operations@.len() - i,
    {
        if operations[i][52] == 0x40 {
            assert(operations@[i as int]@[52] == 0x40);
            return true;
        }
        i += 1;
    }
    false
}

/// The second-level cache is flushed exactly if some operation has a target in blocks.
pub proof fn blocks_are_flushed(operations: Seq<[u32; 64]>, i: int)
    requires
        0 <= i < operations.len(),
    ensures
        operations[i]@[52] == 0x40 ==> writes_blocks(operations),
        (forall|j: int| 0 <= j < operations.len() ==> (#[trigger] operations[j])@[52] != 0x40)
            ==> !writes_blocks(operations),
{
    assert(operations[i]@[52] == operations[i]@[52]);
}

/// A channel starts plain: nothing is tested, masked, clipped or multiplied, every channel of
/// a color is written, triangles are filled, and alpha is blended by itself.
pub proof fn channels_start_plain(m: Methods)
    ensures
        ({
            let s = fixed_state(m);
            &&& s.len() == 39
            &&& s[0] == (m.cond_mode, m.cond_mode_always) && s[1] == (m.watchdog_timer, 0x17u32)
            &&& s[2] == (m.zeta_comp_enable, 0u32) && s[3] == (m.rt_control, 1u32)
            &&& s[4] == (m.csaa_enable, 0u32) && s[5] == (m.multisample_enable, 0u32)
            &&& s[6] == (m.multisample_mode, 0u32) && s[7] == (m.multisample_ctrl, 0u32)
            &&& s[8] == (m.blend_separate_alpha, 1u32) && s[9] == (m.blend_enable_common, 0u32)
            &&& s[10] == (0x12e4u32, 0u32) && s[11] == (m.shade_model, m.shade_model_smooth)
            &&& s[12] == (m.tex_cb_index, 15u32) && s[13] == (m.call_limit_log, 8u32)
            &&& s[14] == (m.cache_split, m.cache_split_48k_shared_16k_l1)
            &&& s[15] == (m.screen_y_control, 0u32) && s[16] == (m.zcull_region, 0x3fu32)
            &&& s[17] == (m.clip_rects_en, 0u32) && s[18] == (m.clipid_enable, 0u32)
            &&& s[19] == (m.clear_flags, 0u32) && s[20] == (m.viewport_transform_en, 1u32)
            &&& s[21] == (m.view_volume_clip_ctrl, m.view_volume_clip_ctrl_unk1_unk1)
            &&& s[22] == (m.rasterize_enable, 1u32) && s[23] == (m.rt_separate_frag_data, 1u32)
            &&& s[24] == (m.layer, 0u32) && s[25] == (m.point_coord_replace, 0u32)
            &&& s[26] == (m.edgeflag, 1u32) && s[27] == (m.zeta_enable, 0u32)
            &&& s[28] == (m.depth_test_enable, 0u32) && s[29] == (m.depth_write_enable, 0u32)
            &&& s[30] == (m.alpha_test_enable, 0u32) && s[31] == (m.stencil_enable, 0u32)
            &&& s[32] == (m.logic_op_enable, 0u32) && s[33] == (0x1234u32, 0u32)
            &&& s[34] == (m.color_mask, 0x1111u32)
            &&& s[35] == (m.polygon_mode_front, 0x1b02u32) && s[36] == (
                m.polygon_mode_back,
                0x1b02u32,
            )
            &&& s[37] == (m.local_base, 0xff00_0000u32)
            &&& s[38] == (m.invalidate_shader_caches, m.invalidate_shader_cache_reads)
        }),
{
}

/// The class has its settings, each method one.
pub proof fn classes_have_their_settings(m: Methods, i: int)
    requires
        0 <= i < 21,
    ensures
        generation_state(m).len() == 21,
        generation_state(m)[i].0 == seq![
            0x10ccu32,
            0x10e0,
            0x10e4,
            0x10ec,
            0x10f0,
            0x74c,
            0x16a8,
            0x1794,
            0x218,
            0x10fc,
            0x1290,
            0x12d8,
            0x12dc,
            0x1140,
            0x1610,
            m.vertex_id_gen_mode,
            0x30c,
            0x300,
            0x2d0,
            0xfdc,
            0x19c0,
        ][i],
        generation_state(m)[i].1 == seq![
            0xffu32,
            0xff,
            0xff,
            0xff,
            0xff,
            0x3f,
            0x3_0003,
            0x2_0002,
            0x10,
            0x10,
            0x10,
            0x10,
            0x10,
            0x10,
            0xe,
            0x1000,
            0,
            3,
            0x3f_ffff,
            1,
            1,
        ][i],
{
}

/// Both objects are bound to their subchannels, graphics to the first and the flat one to
/// the fourth, which copies as it is.
pub proof fn objects_have_their_subchannels(m: Methods)
    ensures
        ({
            let b = bind_objects();
            let p = private_addresses(m);
            &&& b.len() == 9
            &&& b[0].sub == 0 && b[0].method == 0 && b[0].data == seq![0xb197u32]
            &&& b[1].sub == 3 && b[1].method == 0 && b[1].data == seq![0x902du32]
            &&& b[8].sub == 3 && b[8].method == 0x2ac && b[8].data == seq![3u32]
            &&& b[7].method == 0x290 && b[7].data == seq![0u32]
            &&& b[6].method == 0x888 && b[6].data == seq![1u32]
            &&& b[5].method == 0x884 && b[5].data == seq![0x3fu32]
            &&& p.len() == 4
            &&& p[0].method == m.code_address_high && p[1].method == m.vertex_runout_address_high
            &&& p[2].method == m.tic_address_high && p[2].data == seq![0u32, 0x29_0000u32, 0u32]
            &&& p[3].method == m.tsc_address_high && p[3].data == seq![0u32, 0x29_0200u32, 0u32]
        }),
{
}

/// Each stage that is used has both its buffers of constants: its own values first, and the
/// textures' handles sixteenth.
pub proof fn stages_have_their_constants(m: Methods, stage: u32)
    requires
        m.wf(),
        stage < 6,
    ensures
        ({
            let s = stage_buffers(m, stage);
            &&& s.len() == 4
            &&& s[0].method == m.cb_size && s[0].data == seq![256u32, 0u32, 0x28_0000u32]
            &&& s[1].method == m.cb_bind + 0x20 * stage && s[1].data == seq![1u32]
            &&& s[2].method == m.cb_size && s[2].data == seq![256u32, 0u32, 0x28_0400u32]
            &&& s[3].method == m.cb_bind + 0x20 * stage && s[3].data == seq![0xf1u32]
        }),
{
}

} // verus!
