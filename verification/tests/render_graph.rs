use wgpu_tiled::format::TextureFormat;
use wgpu_tiled::render_graph::{AttachmentId, RenderGraph, RenderGraphBuilder, RenderGraphError, SubpassCullError};
use wgpu_tiled::subpass::{SubpassDependency, SubpassDependencyType, SubpassIndex, SubpassInputSource};

fn assert_send_sync<T: Send + Sync>() {}

fn three_ids() -> Vec<AttachmentId> {
    let mut builder = RenderGraphBuilder::new();
    vec![
        builder.add_transient_color("a0", TextureFormat::Rgba8Unorm),
        builder.add_transient_color("a1", TextureFormat::Rgba8Unorm),
        builder.add_transient_color("a2", TextureFormat::Rgba8Unorm),
    ]
}

#[test]
fn build_without_subpasses_fails() {
    let mut builder = RenderGraphBuilder::new();
    let _ = builder.add_transient_color("a", TextureFormat::Rgba8Unorm);
    let err = builder.build().unwrap_err();
    assert!(matches!(err, RenderGraphError::NoSubpasses));
}

#[test]
fn build_read_before_write_fails() {
    let mut builder = RenderGraphBuilder::new();
    let albedo = builder.add_transient_color("albedo", TextureFormat::Rgba8Unorm);
    let _ = builder.add_subpass("lighting").reads(albedo);
    let err = builder.build().unwrap_err();
    assert!(matches!(
        err,
        RenderGraphError::ReadBeforeWrite { subpass: SubpassIndex(0), attachment } if attachment == albedo
    ));
}

#[test]
fn build_persistent_never_written_fails() {
    let mut builder = RenderGraphBuilder::new();
    let transient = builder.add_transient_color("transient", TextureFormat::Rgba8Unorm);
    let persistent = builder.add_persistent_color("out", TextureFormat::Rgba8Unorm);
    let _ = builder.add_subpass("pass").writes_color(transient);
    let err = builder.build().unwrap_err();
    assert!(matches!(
        err,
        RenderGraphError::PersistentNeverWritten { attachment } if attachment == persistent
    ));
}

#[test]
fn build_two_subpasses_generates_expected_dependency() {
    let mut builder = RenderGraphBuilder::new();
    let albedo = builder.add_transient_color("albedo", TextureFormat::Rgba8Unorm);
    let _ = builder.add_subpass("gbuffer").writes_color(albedo);
    let _ = builder.add_subpass("lighting").reads(albedo);

    let graph = builder.build().unwrap();
    assert_eq!(graph.dependencies.len(), 1);
    assert_eq!(
        graph.dependencies[0],
        SubpassDependency {
            src_subpass: SubpassIndex(0),
            dst_subpass: SubpassIndex(1),
            dependency_type: SubpassDependencyType::ColorToInput,
            by_region: true,
        }
    );
}

#[test]
fn build_three_subpasses_generates_by_region_dependencies() {
    let mut builder = RenderGraphBuilder::new();
    let gbuffer = builder.add_transient_color("gbuffer", TextureFormat::Rgba8Unorm);
    let hdr = builder.add_transient_color("hdr", TextureFormat::Rgba16Float);
    let out = builder.add_persistent_color("out", TextureFormat::Rgba8Unorm);
    let _ = builder.add_subpass("gbuffer").writes_color(gbuffer);
    let _ = builder.add_subpass("lighting").reads(gbuffer).writes_color(hdr);
    let _ = builder.add_subpass("composite").reads(hdr).writes_color(out);

    let graph = builder.build().unwrap();
    assert_eq!(graph.dependencies.len(), 2);
    assert!(graph.dependencies.iter().all(|dependency| dependency.by_region));
    assert_eq!(graph.dependencies[0].src_subpass, SubpassIndex(0));
    assert_eq!(graph.dependencies[0].dst_subpass, SubpassIndex(1));
    assert_eq!(graph.dependencies[1].src_subpass, SubpassIndex(1));
    assert_eq!(graph.dependencies[1].dst_subpass, SubpassIndex(2));
}

#[test]
fn sample_count_propagates_to_layouts() {
    let mut builder = RenderGraphBuilder::new();
    builder.sample_count(4);
    let albedo = builder.add_transient_color("albedo", TextureFormat::Rgba8Unorm);
    let _ = builder.add_subpass("gbuffer").writes_color(albedo);

    let graph = builder.build().unwrap();
    assert_eq!(graph.sample_count, 4);
    assert_eq!(graph.subpass_layouts.len(), 1);
    assert_eq!(graph.subpass_layouts[0].sample_count, 4);
}

#[test]
fn resolve_active_accepts_empty_and_partial_masks_when_valid() {
    let mut builder = RenderGraphBuilder::new();
    let a = builder.add_transient_color("a", TextureFormat::Rgba8Unorm);
    let b = builder.add_transient_color("b", TextureFormat::Rgba8Unorm);
    let c = builder.add_transient_color("c", TextureFormat::Rgba8Unorm);
    let _ = builder.add_subpass("s0").writes_color(a);
    let _ = builder.add_subpass("s1").writes_color(b);
    let _ = builder.add_subpass("s2").writes_color(c);
    let graph = builder.build().unwrap();

    let none_active = graph.resolve_active(&[]).unwrap();
    assert!(!none_active.is_active(SubpassIndex(0)));
    assert!(!none_active.is_active(SubpassIndex(1)));
    assert!(!none_active.is_active(SubpassIndex(2)));

    let partial = graph.resolve_active(&[SubpassIndex(0), SubpassIndex(2)]).unwrap();
    assert!(partial.is_active(SubpassIndex(0)));
    assert!(!partial.is_active(SubpassIndex(1)));
    assert!(partial.is_active(SubpassIndex(2)));
}

#[test]
fn resolve_active_rejects_active_reads_from_culled() {
    let mut builder = RenderGraphBuilder::new();
    let gbuffer = builder.add_transient_color("gbuffer", TextureFormat::Rgba8Unorm);
    let hdr = builder.add_transient_color("hdr", TextureFormat::Rgba16Float);
    let _ = builder.add_subpass("gbuffer").writes_color(gbuffer);
    let _ = builder.add_subpass("lighting").reads(gbuffer).writes_color(hdr);
    let _ = builder.add_subpass("composite").reads(hdr);
    let graph = builder.build().unwrap();

    let err = graph.resolve_active(&[SubpassIndex(0), SubpassIndex(2)]).unwrap_err();
    assert!(matches!(
        err,
        SubpassCullError::ActiveReadsFromCulled { active: SubpassIndex(2), culled: SubpassIndex(1) }
    ));
}

#[test]
fn resolve_active_rejects_culling_last_persistent_writer() {
    let mut builder = RenderGraphBuilder::new();
    let gbuffer = builder.add_transient_color("gbuffer", TextureFormat::Rgba8Unorm);
    let out = builder.add_persistent_color("out", TextureFormat::Rgba8Unorm);
    let _ = builder.add_subpass("gbuffer").writes_color(gbuffer);
    let _ = builder.add_subpass("composite").writes_color(out);
    let graph = builder.build().unwrap();

    let err = graph.resolve_active(&[SubpassIndex(0)]).unwrap_err();
    assert!(matches!(
        err,
        SubpassCullError::PersistentOutputCulled { attachment } if attachment == out
    ));
}

#[test]
fn resolve_active_rejects_invalid_subpass_index() {
    let mut builder = RenderGraphBuilder::new();
    let color = builder.add_transient_color("color", TextureFormat::Rgba8Unorm);
    let _ = builder.add_subpass("s0").writes_color(color);
    let graph = builder.build().unwrap();

    let err = graph.resolve_active(&[SubpassIndex(9)]).unwrap_err();
    assert!(matches!(
        err,
        SubpassCullError::InvalidSubpassIndex { subpass: SubpassIndex(9), subpass_count: 1 }
    ));
}

#[test]
fn resolve_active_accepts_all_subpasses() {
    let mut builder = RenderGraphBuilder::new();
    let color = builder.add_transient_color("color", TextureFormat::Rgba8Unorm);
    let _ = builder.add_subpass("s0").writes_color(color);
    let graph = builder.build().unwrap();

    let mask = graph.resolve_active(&[SubpassIndex(0)]).unwrap();
    assert!(mask.is_active(SubpassIndex(0)));
}

#[test]
fn send_sync_assertion_compiles() {
    assert_send_sync::<RenderGraph>();
}

#[test]
fn attachment_id_is_opaque_but_comparable() {
    let ids = three_ids();
    assert_eq!(ids[2], ids[2]);
    assert_ne!(ids[1], ids[2]);
}

#[test]
fn build_duplicate_color_write_is_rejected() {
    let mut builder = RenderGraphBuilder::new();
    let color = builder.add_transient_color("color", TextureFormat::Rgba8Unorm);
    let _ = builder.add_subpass("dup").writes_color(color).writes_color(color);
    let err = builder.build().unwrap_err();
    assert!(matches!(
        err,
        RenderGraphError::DuplicateAttachmentWrite { subpass: SubpassIndex(0), attachment } if attachment == color
    ));
}

#[test]
fn descriptor_views_expose_subpass_and_dependency_data() {
    let mut builder = RenderGraphBuilder::new();
    let gbuffer = builder.add_transient_color("gbuffer", TextureFormat::Rgba8Unorm);
    let out = builder.add_persistent_color("out", TextureFormat::Rgba8Unorm);
    let _ = builder.add_subpass("s0").writes_color(gbuffer);
    let _ = builder.add_subpass("s1").reads(gbuffer).writes_color(out);
    let graph = builder.build().unwrap();
    let views = graph.descriptor_views();

    assert_eq!(views.subpasses.len(), 2);
    assert_eq!(views.subpass_dependencies.len(), 1);
    assert_eq!(views.subpass_layouts.len(), 2);
    assert_eq!(views.subpasses[0].color_attachment_indices, &[0]);
    assert_eq!(views.subpasses[1].color_attachment_indices, &[1]);
    assert_eq!(views.subpasses[1].input_attachments.len(), 1);
}

#[test]
fn make_subpass_target_matches_graph_metadata() {
    let mut builder = RenderGraphBuilder::new();
    let gbuffer = builder.add_transient_color("gbuffer", TextureFormat::Rgba8Unorm);
    let out = builder.add_persistent_color("out", TextureFormat::Rgba8Unorm);
    let _ = builder.add_subpass("s0").writes_color(gbuffer);
    let _ = builder.add_subpass("s1").reads(gbuffer).writes_color(out);
    let graph = builder.build().unwrap();

    let target = graph.make_subpass_target(1, &[Some(TextureFormat::Rgba8Unorm), Some(TextureFormat::Rgba8Unorm)], None);
    assert_eq!(target.index, 1);
    assert_eq!(target.subpass_descs.len(), 2);
    assert_eq!(target.subpass_descs[0].color_attachment_indices, vec![0]);
    assert_eq!(target.subpass_descs[1].color_attachment_indices, vec![1]);
    assert_eq!(target.subpass_descs[1].input_attachment_indices, vec![0]);
    assert_eq!(target.dependencies, graph.dependencies);
}

#[test]
fn labels_are_preserved_in_render_graph() {
    let mut builder = RenderGraphBuilder::new();
    let color = builder.add_transient_color("color-label", TextureFormat::Rgba8Unorm);
    let _ = builder.add_subpass("subpass-label").writes_color(color);
    let graph = builder.build().unwrap();

    assert_eq!(graph.attachment_label(color), Some("color-label"));
    assert_eq!(graph.subpass_label(SubpassIndex(0)), Some("subpass-label"));
}

// Every build error, on an input that gives it.

#[test]
fn build_zero_sample_count_fails() {
    let mut builder = RenderGraphBuilder::new();
    builder.sample_count(0);
    let color = builder.add_transient_color("color", TextureFormat::Rgba8Unorm);
    let _ = builder.add_subpass("s0").writes_color(color);
    let err = builder.build().unwrap_err();
    assert!(matches!(err, RenderGraphError::InvalidSampleCount { sample_count: 0 }));
}

#[test]
fn build_too_many_subpasses_fails() {
    let mut builder = RenderGraphBuilder::new();
    let color = builder.add_transient_color("color", TextureFormat::Rgba8Unorm);
    for _ in 0..33 {
        let _ = builder.add_subpass("s").writes_color(color);
    }
    let err = builder.build().unwrap_err();
    assert!(matches!(err, RenderGraphError::TooManySubpasses { count: 33, maximum: 32 }));
}

#[test]
fn build_thirty_two_subpasses_succeeds() {
    let mut builder = RenderGraphBuilder::new();
    let color = builder.add_transient_color("color", TextureFormat::Rgba8Unorm);
    for _ in 0..32 {
        let _ = builder.add_subpass("s").writes_color(color);
    }
    let graph = builder.build().unwrap();
    assert_eq!(graph.subpass_count, 32);
    let all: Vec<SubpassIndex> = (0..32).map(SubpassIndex).collect();
    let mask = graph.resolve_active(&all).unwrap();
    assert_eq!(mask.0, u32::MAX);
}

#[test]
fn build_unknown_attachment_fails() {
    let foreign = three_ids()[2];
    let mut builder = RenderGraphBuilder::new();
    let color = builder.add_transient_color("color", TextureFormat::Rgba8Unorm);
    let _ = builder.add_subpass("s0").writes_color(color).writes_color(foreign);
    let err = builder.build().unwrap_err();
    assert!(matches!(err, RenderGraphError::InvalidAttachmentId { attachment } if attachment == foreign));
}

#[test]
fn build_color_write_of_depth_attachment_fails() {
    let mut builder = RenderGraphBuilder::new();
    let depth = builder.add_transient_depth("depth", TextureFormat::Depth32Float);
    let _ = builder.add_subpass("s0").writes_color(depth);
    let err = builder.build().unwrap_err();
    assert!(matches!(
        err,
        RenderGraphError::AttachmentRoleMismatch { attachment, expected: "color", found: "depth" } if attachment == depth
    ));
}

#[test]
fn build_depth_read_of_color_attachment_fails() {
    let mut builder = RenderGraphBuilder::new();
    let color = builder.add_transient_color("color", TextureFormat::Rgba8Unorm);
    let _ = builder.add_subpass("s0").writes_color(color);
    let _ = builder.add_subpass("s1").reads_depth(color);
    let err = builder.build().unwrap_err();
    assert!(matches!(
        err,
        RenderGraphError::AttachmentRoleMismatch { attachment, expected: "depth", found: "color" } if attachment == color
    ));
}

#[test]
fn build_multiple_depth_writes_fails() {
    let mut builder = RenderGraphBuilder::new();
    let d0 = builder.add_transient_depth("d0", TextureFormat::Depth32Float);
    let d1 = builder.add_transient_depth("d1", TextureFormat::Depth32Float);
    let _ = builder.add_subpass("s0").writes_depth(d0).writes_depth(d1);
    let err = builder.build().unwrap_err();
    assert!(matches!(err, RenderGraphError::MultipleDepthWrites { subpass: SubpassIndex(0) }));
}

#[test]
fn build_multiple_depth_reads_fails() {
    let mut builder = RenderGraphBuilder::new();
    let d0 = builder.add_transient_depth("d0", TextureFormat::Depth32Float);
    let d1 = builder.add_transient_depth("d1", TextureFormat::Depth32Float);
    let _ = builder.add_subpass("s0").writes_depth(d0);
    let _ = builder.add_subpass("s1").writes_depth(d1);
    let _ = builder.add_subpass("s2").reads_depth(d0).reads_depth(d1);
    let err = builder.build().unwrap_err();
    assert!(matches!(err, RenderGraphError::MultipleDepthReads { subpass: SubpassIndex(2) }));
}

// Laws of the build on concrete values.

#[test]
fn reads_of_one_producer_share_one_dependency() {
    let mut builder = RenderGraphBuilder::new();
    let a = builder.add_transient_color("a", TextureFormat::Rgba8Unorm);
    let b = builder.add_transient_color("b", TextureFormat::Rgba8Unorm);
    let depth = builder.add_transient_depth("depth", TextureFormat::Depth24PlusStencil8);
    let _ = builder.add_subpass("s0").writes_color(a).writes_color(b).writes_depth(depth);
    let _ = builder.add_subpass("s1").reads(a).reads(b).reads_depth(depth);
    let graph = builder.build().unwrap();
    assert_eq!(
        graph.dependencies,
        vec![SubpassDependency {
            src_subpass: SubpassIndex(0),
            dst_subpass: SubpassIndex(1),
            dependency_type: SubpassDependencyType::ColorDepthToInput,
            by_region: true,
        }]
    );
    let layout = &graph.subpass_layouts[1];
    assert_eq!(layout.depth_stencil_format, Some(TextureFormat::Depth24PlusStencil8));
    assert_eq!(
        layout.input_attachment_formats,
        vec![TextureFormat::Rgba8Unorm, TextureFormat::Rgba8Unorm, TextureFormat::Depth24PlusStencil8]
    );
    let views = graph.descriptor_views();
    let inputs = views.subpasses[1].input_attachments;
    assert_eq!(inputs.len(), 3);
    assert_eq!(inputs[0].binding, 0);
    assert_eq!(inputs[2].binding, 2);
    assert_eq!(inputs[1].source, SubpassInputSource::Color { subpass: SubpassIndex(0), attachment_index: 1 });
    assert_eq!(inputs[2].source, SubpassInputSource::Depth { subpass: SubpassIndex(0) });
    assert!(views.subpasses[1].uses_depth_stencil);
}

#[test]
fn input_comes_from_latest_writer() {
    let mut builder = RenderGraphBuilder::new();
    let a = builder.add_transient_color("a", TextureFormat::Rgba8Unorm);
    let other = builder.add_transient_color("other", TextureFormat::Rgba8Unorm);
    let _ = builder.add_subpass("s0").writes_color(a);
    let _ = builder.add_subpass("s1").writes_color(other).writes_color(a);
    let _ = builder.add_subpass("s2").reads(a);
    let graph = builder.build().unwrap();
    let views = graph.descriptor_views();
    assert_eq!(
        views.subpasses[2].input_attachments[0].source,
        SubpassInputSource::Color { subpass: SubpassIndex(1), attachment_index: 1 }
    );
    assert_eq!(graph.dependencies.len(), 1);
    assert_eq!(graph.dependencies[0].src_subpass, SubpassIndex(1));
    assert_eq!(graph.dependencies[0].dst_subpass, SubpassIndex(2));
}

#[test]
fn subpass_reading_only_its_own_write_fails() {
    let mut builder = RenderGraphBuilder::new();
    let a = builder.add_transient_color("a", TextureFormat::Rgba8Unorm);
    let _ = builder.add_subpass("s0").writes_color(a).reads(a);
    let err = builder.build().unwrap_err();
    assert!(matches!(
        err,
        RenderGraphError::ReadBeforeWrite { subpass: SubpassIndex(0), attachment } if attachment == a
    ));
}

#[test]
fn subpass_rewriting_its_input_reads_the_earlier_write() {
    let mut builder = RenderGraphBuilder::new();
    let a = builder.add_transient_color("a", TextureFormat::Rgba8Unorm);
    let _ = builder.add_subpass("s0").writes_color(a);
    let _ = builder.add_subpass("s1").writes_color(a).reads(a);
    let graph = builder.build().unwrap();
    assert_eq!(graph.dependencies.len(), 1);
    assert_eq!(graph.dependencies[0].src_subpass, SubpassIndex(0));
    assert_eq!(graph.dependencies[0].dst_subpass, SubpassIndex(1));
    let views = graph.descriptor_views();
    assert_eq!(
        views.subpasses[1].input_attachments[0].source,
        SubpassInputSource::Color { subpass: SubpassIndex(0), attachment_index: 0 }
    );
}

#[test]
fn color_slots_count_color_attachments_in_registration_order() {
    let mut builder = RenderGraphBuilder::new();
    let depth = builder.add_transient_depth("depth", TextureFormat::Depth32Float);
    let c0 = builder.add_transient_color("c0", TextureFormat::Rgba8Unorm);
    let c1 = builder.add_persistent_color("c1", TextureFormat::Bgra8Unorm);
    let _ = builder.add_subpass("s0").writes_depth(depth).writes_color(c1).writes_color(c0);
    let graph = builder.build().unwrap();
    let views = graph.descriptor_views();
    assert_eq!(views.subpasses[0].color_attachment_indices, &[1, 0]);
    assert_eq!(
        graph.subpass_layouts[0].color_formats,
        vec![Some(TextureFormat::Bgra8Unorm), Some(TextureFormat::Rgba8Unorm)]
    );
    assert_eq!(graph.subpass_layouts[0].depth_stencil_format, Some(TextureFormat::Depth32Float));
    assert_eq!(graph.subpass_layouts[0].sample_count, 1);
}

#[test]
fn resolving_every_subpass_keeps_all_active() {
    let mut builder = RenderGraphBuilder::new();
    let gbuffer = builder.add_transient_color("gbuffer", TextureFormat::Rgba8Unorm);
    let out = builder.add_persistent_color("out", TextureFormat::Rgba8Unorm);
    let _ = builder.add_subpass("s0").writes_color(gbuffer);
    let _ = builder.add_subpass("s1").reads(gbuffer).writes_color(out);
    let _ = builder.add_subpass("s2").writes_color(out);
    let graph = builder.build().unwrap();
    let mask = graph.resolve_active(&[SubpassIndex(2), SubpassIndex(0), SubpassIndex(1)]).unwrap();
    assert_eq!(mask.0, 0b111);
    assert_eq!(mask.count_active(), 3);
    let culled_reader = graph.resolve_active(&[SubpassIndex(2)]).unwrap();
    assert_eq!(culled_reader.0, 0b100);
}

#[test]
fn labels_of_unknown_ids_are_none() {
    let mut builder = RenderGraphBuilder::new();
    let color = builder.add_transient_color("color", TextureFormat::Rgba8Unorm);
    let _ = builder.add_subpass("only").writes_color(color);
    let graph = builder.build().unwrap();
    assert_eq!(graph.attachment_label(three_ids()[2]), None);
    assert_eq!(graph.subpass_label(SubpassIndex(1)), None);
}

#[test]
fn builder_ids_follow_registration_order() {
    let ids = three_ids();
    let mut builder = RenderGraphBuilder::new();
    let first = builder.add_persistent_depth("d", TextureFormat::Depth32Float);
    let second = builder.add_transient_color("c", TextureFormat::Rgba8Unorm);
    let third = builder.add_persistent_color("p", TextureFormat::Rgba8Unorm);
    assert_eq!(first, ids[0]);
    assert_eq!(second, ids[1]);
    assert_eq!(third, ids[2]);
}

#[test]
fn make_subpass_target_copies_formats() {
    let mut builder = RenderGraphBuilder::new();
    let depth = builder.add_transient_depth("depth", TextureFormat::Depth32Float);
    let color = builder.add_transient_color("color", TextureFormat::Rgba8Unorm);
    let _ = builder.add_subpass("s0").writes_depth(depth).writes_color(color);
    let _ = builder.add_subpass("s1").reads_depth(depth).reads(color);
    let graph = builder.build().unwrap();
    let target = graph.make_subpass_target(0, &[None], Some(TextureFormat::Depth32Float));
    assert_eq!(target.index, 0);
    assert_eq!(target.color_attachment_formats, vec![None]);
    assert_eq!(target.depth_stencil_format, Some(TextureFormat::Depth32Float));
    assert!(target.subpass_descs[0].uses_depth_stencil);
    assert_eq!(target.subpass_descs[1].input_attachment_indices, vec![0, 0]);
    assert_eq!(graph.dependencies[0].dependency_type, SubpassDependencyType::ColorDepthToInput);
    assert_eq!(graph.dependencies.len(), 1);
}

#[test]
fn dependencies_follow_first_read_order_and_merge_kinds() {
    let mut builder = RenderGraphBuilder::new();
    let a = builder.add_transient_color("a", TextureFormat::Rgba8Unorm);
    let b = builder.add_transient_color("b", TextureFormat::Rgba8Unorm);
    let d = builder.add_transient_depth("d", TextureFormat::Depth32Float);
    let _ = builder.add_subpass("s0").writes_color(a).writes_depth(d);
    let _ = builder.add_subpass("s1").writes_color(b);
    let _ = builder.add_subpass("s2").reads(b).reads(a).reads_depth(d);
    let graph = builder.build().unwrap();
    assert_eq!(
        graph.dependencies,
        vec![
            SubpassDependency {
                src_subpass: SubpassIndex(1),
                dst_subpass: SubpassIndex(2),
                dependency_type: SubpassDependencyType::ColorToInput,
                by_region: true,
            },
            SubpassDependency {
                src_subpass: SubpassIndex(0),
                dst_subpass: SubpassIndex(2),
                dependency_type: SubpassDependencyType::ColorDepthToInput,
                by_region: true,
            },
        ]
    );
}

#[test]
fn graph_accessors_match_fields() {
    let mut builder = RenderGraphBuilder::new();
    builder.sample_count(2);
    let a = builder.add_transient_color("a", TextureFormat::Rgba8Unorm);
    let _ = builder.add_subpass("s0").writes_color(a);
    let _ = builder.add_subpass("s1").reads(a);
    let graph = builder.build().unwrap();
    assert_eq!(graph.subpass_count(), 2);
    assert_eq!(graph.sample_count(), 2);
    assert_eq!(graph.dependencies(), &graph.dependencies[..]);
    assert_eq!(graph.subpass_layouts(), &graph.subpass_layouts[..]);
    assert_eq!(graph.subpass_layouts()[1].sample_count, 2);
}
