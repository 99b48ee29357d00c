use std::collections::hash_map::DefaultHasher;
use std::hash::{Hash, Hasher};

use wgpu_tiled::active_mask::ActiveSubpassMask;
use wgpu_tiled::format::TextureFormat;
use wgpu_tiled::subpass::{
    SubpassDependency, SubpassDependencyType, SubpassIndex, SubpassInputAttachment, SubpassInputSource,
    SubpassLayout, SubpassTarget, SubpassTargetDesc, TransientAttachmentDescriptor, TransientDispatchDescriptor,
    TransientLoadOp, TransientMemoryHint, TransientOps, TransientSize,
};

fn hash_of<T: Hash>(value: T) -> u64 {
    let mut hasher = DefaultHasher::new();
    value.hash(&mut hasher);
    hasher.finish()
}

#[test]
fn transient_size_default_is_match_target() {
    assert_eq!(TransientSize::default(), TransientSize::MatchTarget);
}

#[test]
fn transient_size_explicit_roundtrip() {
    let size = TransientSize::Explicit { width: 64, height: 32 };
    assert_eq!(size, TransientSize::Explicit { width: 64, height: 32 });
}

#[test]
fn transient_attachment_descriptor_equality() {
    let a = TransientAttachmentDescriptor {
        format: TextureFormat::Rgba8Unorm,
        size: TransientSize::MatchTarget,
        sample_count: 1,
    };
    let b = a;
    assert_eq!(a, b);
}

#[test]
fn transient_load_op_default_is_clear() {
    assert_eq!(TransientLoadOp::<u32>::default(), TransientLoadOp::Clear(0));
}

#[test]
fn transient_load_op_equality() {
    assert_eq!(TransientLoadOp::DontCare::<u32>, TransientLoadOp::DontCare);
}

#[test]
fn transient_ops_default_uses_clear() {
    assert_eq!(TransientOps::<u32>::default(), TransientOps { load: TransientLoadOp::Clear(0) });
}

#[test]
fn transient_ops_hash_matches_equal_values() {
    let a = TransientOps { load: TransientLoadOp::Clear(7u32) };
    let b = TransientOps { load: TransientLoadOp::Clear(7u32) };
    assert_eq!(hash_of(a), hash_of(b));
}

#[test]
fn subpass_index_ordering() {
    assert!(SubpassIndex(1) > SubpassIndex(0));
}

#[test]
fn subpass_index_hash_matches_equal_values() {
    assert_eq!(hash_of(SubpassIndex(9)), hash_of(SubpassIndex(9)));
}

#[test]
fn subpass_input_source_color_equality() {
    let source = SubpassInputSource::Color { subpass: SubpassIndex(2), attachment_index: 1 };
    assert_eq!(source, SubpassInputSource::Color { subpass: SubpassIndex(2), attachment_index: 1 });
}

#[test]
fn subpass_input_source_depth_equality() {
    assert_eq!(
        SubpassInputSource::Depth { subpass: SubpassIndex(1) },
        SubpassInputSource::Depth { subpass: SubpassIndex(1) }
    );
}

#[test]
fn subpass_input_attachment_equality() {
    let input = SubpassInputAttachment { binding: 3, source: SubpassInputSource::Depth { subpass: SubpassIndex(0) } };
    assert_eq!(input, input);
}

#[test]
fn subpass_dependency_type_equality() {
    assert_eq!(SubpassDependencyType::ColorDepthToInput, SubpassDependencyType::ColorDepthToInput);
}

#[test]
fn subpass_dependency_equality() {
    let dep = SubpassDependency {
        src_subpass: SubpassIndex(0),
        dst_subpass: SubpassIndex(1),
        dependency_type: SubpassDependencyType::ColorToInput,
        by_region: true,
    };
    assert_eq!(dep, dep);
}

#[test]
fn subpass_layout_default_is_empty_sample_count_one() {
    let layout = SubpassLayout::default();
    assert!(layout.color_formats.is_empty());
    assert!(layout.input_attachment_formats.is_empty());
    assert_eq!(layout.depth_stencil_format, None);
    assert_eq!(layout.sample_count, 1);
}

#[test]
fn subpass_layout_hash_matches_equal_values() {
    let a = SubpassLayout {
        color_formats: vec![Some(TextureFormat::Rgba8Unorm)],
        depth_stencil_format: Some(TextureFormat::Depth32Float),
        sample_count: 4,
        input_attachment_formats: vec![TextureFormat::Rgba8Unorm],
    };
    let b = a.clone();
    assert_eq!(hash_of(a), hash_of(b));
}

#[test]
fn subpass_target_desc_default() {
    let desc = SubpassTargetDesc::default();
    assert!(desc.color_attachment_indices.is_empty());
    assert!(!desc.uses_depth_stencil);
    assert!(desc.input_attachment_indices.is_empty());
}

#[test]
fn subpass_target_default() {
    let target = SubpassTarget::default();
    assert_eq!(target.index, 0);
    assert!(target.color_attachment_formats.is_empty());
    assert_eq!(target.depth_stencil_format, None);
    assert!(target.subpass_descs.is_empty());
    assert!(target.dependencies.is_empty());
}

#[test]
fn subpass_target_hash_matches_equal_values() {
    let target = SubpassTarget {
        index: 1,
        color_attachment_formats: vec![Some(TextureFormat::Rgba8Unorm)],
        depth_stencil_format: None,
        subpass_descs: vec![SubpassTargetDesc {
            color_attachment_indices: vec![0],
            uses_depth_stencil: false,
            input_attachment_indices: vec![],
        }],
        dependencies: vec![SubpassDependency {
            src_subpass: SubpassIndex(0),
            dst_subpass: SubpassIndex(1),
            dependency_type: SubpassDependencyType::ColorToInput,
            by_region: true,
        }],
    };
    assert_eq!(hash_of(target.clone()), hash_of(target));
}

#[test]
fn transient_memory_hint_default_is_auto() {
    assert_eq!(TransientMemoryHint::default(), TransientMemoryHint::Auto);
}

#[test]
fn transient_dispatch_descriptor_equality() {
    let dispatch = TransientDispatchDescriptor { tile_width: 8, tile_height: 16 };
    assert_eq!(dispatch, dispatch);
}

#[test]
fn active_subpass_mask_constants() {
    assert_eq!(ActiveSubpassMask::none().0, 0);
    assert_eq!(ActiveSubpassMask::all().0, u32::MAX);
}

#[test]
fn active_subpass_mask_with_sets_bit() {
    let mask = ActiveSubpassMask::none().with(SubpassIndex(3));
    assert!(mask.is_active(SubpassIndex(3)));
}

#[test]
fn active_subpass_mask_without_clears_bit() {
    let mask = ActiveSubpassMask::all().without(SubpassIndex(5));
    assert!(!mask.is_active(SubpassIndex(5)));
}

#[test]
fn active_subpass_mask_count_active() {
    let mask = ActiveSubpassMask::none().with(SubpassIndex(0)).with(SubpassIndex(7)).with(SubpassIndex(31));
    assert_eq!(mask.count_active(), 3);
}

#[test]
fn active_subpass_mask_from_indices_empty() {
    assert_eq!(ActiveSubpassMask::from_indices(&[]), ActiveSubpassMask::none());
}

#[test]
fn active_subpass_mask_from_indices_multiple() {
    let mask = ActiveSubpassMask::from_indices(&[SubpassIndex(0), SubpassIndex(2), SubpassIndex(2), SubpassIndex(30)]);
    assert!(mask.is_active(SubpassIndex(0)));
    assert!(mask.is_active(SubpassIndex(2)));
    assert!(mask.is_active(SubpassIndex(30)));
    assert_eq!(mask.count_active(), 3);
}

#[test]
fn active_subpass_mask_from_indices_max_index() {
    let mask = ActiveSubpassMask::from_indices(&[SubpassIndex(31)]);
    assert!(mask.is_active(SubpassIndex(31)));
    assert_eq!(mask.count_active(), 1);
}

#[test]
fn active_subpass_mask_with_chain() {
    let mask = ActiveSubpassMask::none().with(SubpassIndex(1)).with(SubpassIndex(4)).without(SubpassIndex(1));
    assert!(!mask.is_active(SubpassIndex(1)));
    assert!(mask.is_active(SubpassIndex(4)));
}

#[test]
fn active_subpass_mask_without_unset_is_noop() {
    let mask = ActiveSubpassMask::none().without(SubpassIndex(8));
    assert_eq!(mask, ActiveSubpassMask::none());
}

#[test]
fn active_subpass_mask_hash_matches_equal_values() {
    assert_eq!(
        hash_of(ActiveSubpassMask::from_indices(&[SubpassIndex(0), SubpassIndex(4)])),
        hash_of(ActiveSubpassMask::from_indices(&[SubpassIndex(4), SubpassIndex(0)]))
    );
}

#[test]
fn active_subpass_mask_is_active_false_for_unset_bits() {
    let mask = ActiveSubpassMask::from_indices(&[SubpassIndex(1)]);
    assert!(!mask.is_active(SubpassIndex(0)));
}

// Laws of the mask on concrete values.

#[test]
fn mask_with_then_without_restores_unset_bit() {
    let base = ActiveSubpassMask::from_indices(&[SubpassIndex(2), SubpassIndex(9)]);
    assert_eq!(base.with(SubpassIndex(17)).without(SubpassIndex(17)), base);
}

#[test]
fn mask_with_is_idempotent() {
    let once = ActiveSubpassMask::none().with(SubpassIndex(6));
    assert_eq!(once.with(SubpassIndex(6)), once);
    assert_eq!(once.0, 1 << 6);
}

#[test]
fn mask_with_leaves_other_bits() {
    let mask = ActiveSubpassMask::from_indices(&[SubpassIndex(0), SubpassIndex(31)]).with(SubpassIndex(15));
    assert!(mask.is_active(SubpassIndex(0)));
    assert!(mask.is_active(SubpassIndex(31)));
    assert!(mask.is_active(SubpassIndex(15)));
    assert!(!mask.is_active(SubpassIndex(14)));
    assert_eq!(mask.0, 1 | (1 << 15) | (1 << 31));
}

#[test]
fn mask_count_matches_distinct_indices() {
    let mask = ActiveSubpassMask::from_indices(&[SubpassIndex(3), SubpassIndex(3), SubpassIndex(5), SubpassIndex(3)]);
    assert_eq!(mask.count_active(), 2);
    assert_eq!(ActiveSubpassMask::all().count_active(), 32);
    assert_eq!(ActiveSubpassMask::none().count_active(), 0);
}

#[test]
fn mask_from_indices_order_independent() {
    let a = ActiveSubpassMask::from_indices(&[SubpassIndex(1), SubpassIndex(12), SubpassIndex(20)]);
    let b = ActiveSubpassMask::from_indices(&[SubpassIndex(20), SubpassIndex(1), SubpassIndex(12)]);
    assert_eq!(a, b);
    assert_eq!(a.0, (1 << 1) | (1 << 12) | (1 << 20));
}

#[test]
fn mask_default_is_none_active() {
    assert_eq!(ActiveSubpassMask::default(), ActiveSubpassMask::none());
}

#[test]
fn input_source_reports_its_producer() {
    let color = SubpassInputSource::Color { subpass: SubpassIndex(4), attachment_index: 2 };
    let depth = SubpassInputSource::Depth { subpass: SubpassIndex(7) };
    assert_ne!(color, depth);
    assert_eq!(SubpassIndex::default(), SubpassIndex(0));
}

#[test]
fn transient_defaults() {
    assert_eq!(TransientDispatchDescriptor::default(), TransientDispatchDescriptor { tile_width: 0, tile_height: 0 });
    let layout = SubpassLayout::default();
    assert_eq!(layout, SubpassLayout {
        color_formats: vec![],
        depth_stencil_format: None,
        sample_count: 1,
        input_attachment_formats: vec![],
    });
}

#[test]
fn stencil_aspect_of_formats() {
    assert!(TextureFormat::Depth24PlusStencil8.has_stencil_aspect());
    assert!(TextureFormat::Stencil8.has_stencil_aspect());
    assert!(TextureFormat::Depth32FloatStencil8.has_stencil_aspect());
    assert!(!TextureFormat::Depth32Float.has_stencil_aspect());
    assert!(!TextureFormat::Rgba8Unorm.has_stencil_aspect());
}
