use wgpu_tiled::format::TextureFormat;
use wgpu_tiled::render::{
    is_depth_enabled, is_depth_read_only, is_depth_stencil_read_only, BlendComponent, BlendFactor, BlendOperation,
    BlendState, ColorTargetState, ColorWrites, CompareFunction, DispatchIndirectArgs, DrawIndexedIndirectArgs,
    DrawIndirectArgs, Face, FrontFace, IndexFormat, LoadOp, LoadOpDontCare, MultisampleState, Operations, PolygonMode,
    PrimitiveState, PrimitiveTopology, RenderBundleDescriptor, StencilFaceState, StencilOperation, StencilState, StoreOp,
};

fn writing_face() -> StencilFaceState {
    StencilFaceState {
        compare: CompareFunction::Always,
        fail_op: StencilOperation::Keep,
        depth_fail_op: StencilOperation::Keep,
        pass_op: StencilOperation::IncrementClamp,
    }
}

#[test]
fn second_blend_source_factors() {
    assert!(BlendFactor::Src1.ref_second_blend_source());
    assert!(BlendFactor::OneMinusSrc1Alpha.ref_second_blend_source());
    assert!(!BlendFactor::SrcAlpha.ref_second_blend_source());
    assert!(!BlendFactor::Constant.ref_second_blend_source());
}

#[test]
fn blend_component_uses_constant() {
    assert!(!BlendComponent::replace().uses_constant());
    assert!(!BlendComponent::over().uses_constant());
    let c = BlendComponent {
        src_factor: BlendFactor::One,
        dst_factor: BlendFactor::OneMinusConstant,
        operation: BlendOperation::Subtract,
    };
    assert!(c.uses_constant());
    let d = BlendComponent { src_factor: BlendFactor::Constant, dst_factor: BlendFactor::Zero, operation: BlendOperation::Add };
    assert!(d.uses_constant());
}

#[test]
fn blend_presets() {
    assert_eq!(
        BlendComponent::replace(),
        BlendComponent { src_factor: BlendFactor::One, dst_factor: BlendFactor::Zero, operation: BlendOperation::Add }
    );
    assert_eq!(BlendComponent::default(), BlendComponent::replace());
    assert_eq!(BlendState::replace(), BlendState { color: BlendComponent::replace(), alpha: BlendComponent::replace() });
    assert_eq!(BlendState::alpha_blending().color.src_factor, BlendFactor::SrcAlpha);
    assert_eq!(BlendState::alpha_blending().alpha, BlendComponent::over());
    assert_eq!(BlendState::premultiplied_alpha_blending(), BlendState { color: BlendComponent::over(), alpha: BlendComponent::over() });
    assert_eq!(BlendOperation::default(), BlendOperation::Add);
}

#[test]
fn color_writes_bits() {
    assert_eq!(ColorWrites::red().bits(), 1);
    assert_eq!(ColorWrites::green().bits(), 2);
    assert_eq!(ColorWrites::blue().bits(), 4);
    assert_eq!(ColorWrites::alpha().bits(), 8);
    assert_eq!(ColorWrites::color().bits(), 7);
    assert_eq!(ColorWrites::all().bits(), 15);
    assert_eq!(ColorWrites::empty().bits(), 0);
    assert_eq!(ColorWrites::default(), ColorWrites::all());
    assert_eq!(ColorWrites::from_bits_truncate(0xff).bits(), 15);
    assert_eq!(ColorWrites::from_bits_truncate(0x12), ColorWrites::green());
}

#[test]
fn color_target_from_format() {
    let target = ColorTargetState::from(TextureFormat::Bgra8Unorm);
    assert_eq!(target, ColorTargetState { format: TextureFormat::Bgra8Unorm, blend: None, write_mask: ColorWrites::all() });
}

#[test]
fn topology_classes() {
    assert!(PrimitiveTopology::LineStrip.is_strip());
    assert!(PrimitiveTopology::TriangleStrip.is_strip());
    assert!(!PrimitiveTopology::TriangleList.is_strip());
    assert!(!PrimitiveTopology::PointList.is_strip());
    assert!(PrimitiveTopology::TriangleList.is_triangles());
    assert!(PrimitiveTopology::TriangleStrip.is_triangles());
    assert!(!PrimitiveTopology::LineList.is_triangles());
    assert_eq!(PrimitiveTopology::default(), PrimitiveTopology::TriangleList);
}

#[test]
fn primitive_and_multisample_defaults() {
    let p = PrimitiveState::default();
    assert_eq!(p.topology, PrimitiveTopology::TriangleList);
    assert_eq!(p.front_face, FrontFace::Ccw);
    assert_eq!(p.cull_mode, None);
    assert_eq!(p.polygon_mode, PolygonMode::Fill);
    assert!(!p.unclipped_depth && !p.conservative);
    assert_eq!(MultisampleState::default(), MultisampleState { count: 1, mask: u64::MAX, alpha_to_coverage_enabled: false });
}

#[test]
fn index_format_sizes() {
    assert_eq!(IndexFormat::Uint16.byte_size(), 2);
    assert_eq!(IndexFormat::Uint32.byte_size(), 4);
    assert_eq!(IndexFormat::default(), IndexFormat::Uint32);
}

#[test]
fn compare_functions_needing_reference() {
    assert!(!CompareFunction::Never.needs_ref_value());
    assert!(!CompareFunction::Always.needs_ref_value());
    assert!(CompareFunction::Less.needs_ref_value());
    assert!(CompareFunction::NotEqual.needs_ref_value());
    assert_eq!(CompareFunction::default(), CompareFunction::Always);
}

#[test]
fn stencil_face_queries() {
    assert_eq!(StencilFaceState::default(), StencilFaceState::ignore());
    assert!(StencilFaceState::ignore().is_read_only());
    assert!(!StencilFaceState::ignore().needs_ref_value());
    assert!(!writing_face().is_read_only());
    let replace = StencilFaceState { pass_op: StencilOperation::Replace, ..StencilFaceState::ignore() };
    assert!(replace.needs_ref_value());
    let equal = StencilFaceState { compare: CompareFunction::Equal, ..StencilFaceState::ignore() };
    assert!(equal.needs_ref_value());
    assert!(equal.is_read_only());
}

#[test]
fn stencil_state_queries() {
    let off = StencilState::default();
    assert!(!off.is_enabled());
    assert!(off.is_read_only(None));
    assert!(!off.needs_ref_value());

    let front_writes = StencilState { front: writing_face(), back: StencilFaceState::ignore(), read_mask: 0xff, write_mask: 0xff };
    assert!(front_writes.is_enabled());
    assert!(!front_writes.is_read_only(None));
    assert!(!front_writes.is_read_only(Some(Face::Back)));
    assert!(front_writes.is_read_only(Some(Face::Front)));

    let masked = StencilState { write_mask: 0, ..front_writes.clone() };
    assert!(masked.is_read_only(None));
    assert!(masked.is_enabled());

    let no_masks = StencilState { read_mask: 0, write_mask: 0, ..front_writes };
    assert!(!no_masks.is_enabled());
}

#[test]
fn depth_queries() {
    assert!(!is_depth_enabled(None, None));
    assert!(!is_depth_enabled(Some(CompareFunction::Always), Some(false)));
    assert!(is_depth_enabled(Some(CompareFunction::Less), None));
    assert!(is_depth_enabled(None, Some(true)));
    assert!(is_depth_read_only(None));
    assert!(is_depth_read_only(Some(false)));
    assert!(!is_depth_read_only(Some(true)));
    let writes = StencilState { front: writing_face(), back: writing_face(), read_mask: 1, write_mask: 1 };
    assert!(is_depth_stencil_read_only(Some(false), &StencilState::default(), None));
    assert!(!is_depth_stencil_read_only(Some(true), &StencilState::default(), None));
    assert!(!is_depth_stencil_read_only(None, &writes, Some(Face::Front)));
}

#[test]
fn load_op_variants() {
    let clear: LoadOp<u32> = LoadOp::Clear(5);
    assert!(clear.eq_variant(LoadOp::Clear(1.5f32)));
    assert!(!clear.eq_variant(LoadOp::<u32>::Load));
    let dont_care: LoadOp<u8> = LoadOp::DontCare(LoadOpDontCare::enabled());
    assert!(dont_care.eq_variant(LoadOp::<u64>::DontCare(LoadOpDontCare::enabled())));
    assert!(!dont_care.eq_variant(LoadOp::<u8>::Load));
    assert_eq!(LoadOp::<u32>::default(), LoadOp::Clear(0));
}

#[test]
fn operations_default_clears_and_stores() {
    let ops = Operations::<u32>::default();
    assert_eq!(ops, Operations { load: LoadOp::Clear(0), store: StoreOp::Store });
    assert_eq!(StoreOp::default(), StoreOp::Store);
}

#[test]
fn bundle_descriptor_map_label() {
    let desc = RenderBundleDescriptor { label: Some("bundle") };
    let mapped = desc.map_label(|label| label.map(|s| s.len()));
    assert_eq!(mapped.label, Some(6));
    let empty: RenderBundleDescriptor<Option<&str>> = RenderBundleDescriptor::default();
    assert_eq!(empty.label, None);
}

#[test]
fn indirect_args_defaults() {
    assert_eq!(DrawIndirectArgs::default(), DrawIndirectArgs { vertex_count: 0, instance_count: 0, first_vertex: 0, first_instance: 0 });
    assert_eq!(
        DrawIndexedIndirectArgs::default(),
        DrawIndexedIndirectArgs { index_count: 0, instance_count: 0, first_index: 0, base_vertex: 0, first_instance: 0 }
    );
    assert_eq!(DispatchIndirectArgs::default(), DispatchIndirectArgs { x: 0, y: 0, z: 0 });
}
