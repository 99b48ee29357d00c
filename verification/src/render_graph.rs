//! Declarative planner for multi-subpass render passes.
//!
//! A [`RenderGraphBuilder`] collects attachments and subpasses; [`RenderGraphBuilder::build`]
//! validates them and derives the per-subpass layouts, input attachments and the
//! dependencies between subpasses. [`RenderGraph::resolve_active`] checks that a
//! set of active subpasses can be culled from the rest without breaking the pass.

use vstd::prelude::*;

use crate::active_mask::ActiveSubpassMask;
use crate::format::TextureFormat;
use crate::subpass::{
    SubpassDependency, SubpassDependencyType, SubpassIndex, SubpassInputAttachment,
    SubpassInputSource, SubpassLayout, SubpassLayoutView, SubpassTarget, SubpassTargetDesc,
};

verus! {

#[derive(Clone, Copy, Debug, PartialEq, Eq, Structural)]
enum AttachmentRole {
    Color,
    Depth,
}

#[derive(Clone, Copy, Debug, PartialEq, Eq, Structural)]
enum AttachmentLifetime {
    Transient,
    Persistent,
}

#[derive(Clone, Debug)]
struct AttachmentSpec {
    label: String,
    format: TextureFormat,
    role: AttachmentRole,
    lifetime: AttachmentLifetime,
}

#[derive(Clone, Copy, Debug, PartialEq, Eq, Structural)]
enum ReadKind {
    Color,
    Depth,
}

#[derive(Clone, Copy, Debug)]
struct ReadSpec {
    attachment: AttachmentId,
    kind: ReadKind,
}

#[derive(Clone, Debug)]
struct SubpassSpec {
    label: String,
    writes_color: Vec<AttachmentId>,
    writes_depth: Vec<AttachmentId>,
    reads: Vec<ReadSpec>,
}

#[derive(Clone, Copy, Debug)]
struct ResolvedRead {
    source_subpass: SubpassIndex,
}

#[derive(Clone, Debug)]
struct BuiltSubpass {
    reads: Vec<ResolvedRead>,
    color_attachment_indices: Vec<u32>,
    uses_depth_stencil: bool,
    input_attachments: Vec<SubpassInputAttachment>,
}

/// Opaque identifier returned by [`RenderGraphBuilder`] when registering an attachment.
///
/// The inner numeric value is intentionally private.
#[derive(Clone, Copy, Debug, PartialEq, Eq, Hash, Structural)]
pub struct AttachmentId(u32);

impl AttachmentId {
    /// Registration order of the attachment inside its builder.
    pub closed spec fn index(self) -> u32 {
        self.0
    }

    /// The identifier of the attachment registered at position `i`.
    pub closed spec fn from_index(i: u32) -> AttachmentId {
        AttachmentId(i)
    }

    /// An identifier is exactly its registration index.
    pub proof fn lemma_index(self, other: AttachmentId, i: u32)
        ensures
            Self::from_index(i).index() == i,
            self.index() == other.index() <==> self == other,
    {
    }
}

/// Error returned when building a [`RenderGraph`] from [`RenderGraphBuilder`].
#[derive(Clone, Debug, PartialEq, Eq)]
pub enum RenderGraphError {
    /// The graph has no subpasses.
    NoSubpasses,
    /// The requested sample count is invalid.
    InvalidSampleCount {
        /// Invalid sample count.
        sample_count: u32,
    },
    /// The graph exceeds [`ActiveSubpassMask::MAX_SUBPASSES`].
    TooManySubpasses {
        /// Number of declared subpasses.
        count: u32,
        /// Maximum supported number of subpasses.
        maximum: u32,
    },
    /// A referenced attachment id is not part of the graph.
    InvalidAttachmentId {
        /// Invalid attachment id.
        attachment: AttachmentId,
    },
    /// An attachment was used in the wrong role.
    AttachmentRoleMismatch {
        /// Attachment id with the mismatch.
        attachment: AttachmentId,
        /// Expected role (`"color"` or `"depth"`).
        expected: &'static str,
        /// Actual role (`"color"` or `"depth"`).
        found: &'static str,
    },
    /// A read references an attachment that has no earlier writer.
    ReadBeforeWrite {
        /// Subpass that performed the read.
        subpass: SubpassIndex,
        /// Attachment that was read.
        attachment: AttachmentId,
    },
    /// A persistent attachment has no writer in any subpass.
    PersistentNeverWritten {
        /// Persistent attachment missing a writer.
        attachment: AttachmentId,
    },
    /// A subpass declares more than one depth write attachment.
    MultipleDepthWrites {
        /// Subpass that declares multiple depth writes.
        subpass: SubpassIndex,
    },
    /// A subpass declares more than one depth input attachment.
    MultipleDepthReads {
        /// Subpass that declares multiple depth reads.
        subpass: SubpassIndex,
    },
    /// A subpass writes the same attachment more than once.
    DuplicateAttachmentWrite {
        /// Subpass with the duplicate write.
        subpass: SubpassIndex,
        /// Attachment written multiple times.
        attachment: AttachmentId,
    },
}

/// Error returned by [`RenderGraph::resolve_active`] when a culling mask is invalid.
#[derive(Clone, Debug, PartialEq, Eq)]
pub enum SubpassCullError {
    /// One entry in the `active` list is outside the graph's subpass range.
    InvalidSubpassIndex {
        /// Out-of-range subpass index.
        subpass: SubpassIndex,
        /// Total number of subpasses in the graph.
        subpass_count: u32,
    },
    /// An active subpass reads from a culled producer subpass.
    ActiveReadsFromCulled {
        /// Active subpass index.
        active: SubpassIndex,
        /// Culled producer subpass index.
        culled: SubpassIndex,
    },
    /// Culling removes all active writers for a persistent output attachment.
    PersistentOutputCulled {
        /// Persistent attachment that lost all active writers.
        attachment: AttachmentId,
    },
}

// ---------------------------------------------------------------------------
// Mathematical model of a builder
// ---------------------------------------------------------------------------

/// A registered attachment, as the builder sees it.
pub struct AttachmentView {
    /// Diagnostic label.
    pub label: Seq<char>,
    /// Texture format.
    pub format: TextureFormat,
    /// Registered as a depth/stencil attachment (otherwise color).
    pub is_depth: bool,
    /// Registered as a persistent attachment (otherwise transient).
    pub persistent: bool,
}

/// An input attachment read declared by a subpass.
pub struct ReadView {
    /// The attachment that is read.
    pub attachment: AttachmentId,
    /// Read as a depth input (otherwise as a color input).
    pub depth: bool,
}

/// A declared subpass, as the builder sees it.
pub struct SubpassView {
    /// Diagnostic label.
    pub label: Seq<char>,
    /// Color attachments written, in declaration order.
    pub writes_color: Seq<AttachmentId>,
    /// Depth attachments written, in declaration order.
    pub writes_depth: Seq<AttachmentId>,
    /// Input attachment reads, in declaration order.
    pub reads: Seq<ReadView>,
}

/// Mathematical value of a [`RenderGraphBuilder`].
pub struct BuilderView {
    /// Sample count for every subpass layout.
    pub sample_count: u32,
    /// Registered attachments; an [`AttachmentId`] is an index into this sequence.
    pub attachments: Seq<AttachmentView>,
    /// Declared subpasses; a [`SubpassIndex`] is an index into this sequence.
    pub subpasses: Seq<SubpassView>,
}

impl BuilderView {
    /// The builder after registering one more attachment.
    pub open spec fn add_attachment(self, a: AttachmentView) -> BuilderView {
        BuilderView {
            sample_count: self.sample_count,
            attachments: self.attachments.push(a),
            subpasses: self.subpasses,
        }
    }

    /// The builder with subpass `i` replaced by `sp`.
    pub open spec fn set_subpass(self, i: int, sp: SubpassView) -> BuilderView {
        BuilderView {
            sample_count: self.sample_count,
            attachments: self.attachments,
            subpasses: self.subpasses.update(i, sp),
        }
    }

    /// The builder after declaring one more subpass labelled `label`, with no
    /// writes and no reads.
    pub open spec fn add_subpass(self, label: Seq<char>) -> BuilderView {
        BuilderView {
            sample_count: self.sample_count,
            attachments: self.attachments,
            subpasses: self.subpasses.push(
                SubpassView {
                    label,
                    writes_color: Seq::empty(),
                    writes_depth: Seq::empty(),
                    reads: Seq::empty(),
                },
            ),
        }
    }
}

impl SubpassView {
    /// This subpass with one more color write.
    pub open spec fn add_color_write(self, a: AttachmentId) -> SubpassView {
        SubpassView { writes_color: self.writes_color.push(a), ..self }
    }

    /// This subpass with one more depth write.
    pub open spec fn add_depth_write(self, a: AttachmentId) -> SubpassView {
        SubpassView { writes_depth: self.writes_depth.push(a), ..self }
    }

    /// This subpass with one more input read.
    pub open spec fn add_read(self, r: ReadView) -> SubpassView {
        SubpassView { reads: self.reads.push(r), ..self }
    }
}

/// `"depth"` for the depth role, `"color"` otherwise.
pub open spec fn role_name_of(is_depth: bool) -> &'static str {
    if is_depth {
        "depth"
    } else {
        "color"
    }
}

/// True when `a` names a registered attachment.
pub open spec fn att_valid(b: BuilderView, a: AttachmentId) -> bool {
    (a.index() as int) < b.attachments.len()
}

/// The registered attachment named by `a`.
pub open spec fn att(b: BuilderView, a: AttachmentId) -> AttachmentView {
    b.attachments[a.index() as int]
}

/// The latest subpass among the first `upto` that writes `a` as a color target,
/// with the color slot it writes it to.
pub open spec fn color_writer(b: BuilderView, upto: nat, a: AttachmentId) -> Option<(SubpassIndex, u32)>
    decreases upto,
{
    if upto == 0 {
        None
    } else {
        let j = (upto - 1) as nat;
        let wc = b.subpasses[j as int].writes_color;
        if wc.contains(a) {
            Some((SubpassIndex(j as u32), wc.index_of(a) as u32))
        } else {
            color_writer(b, j, a)
        }
    }
}

/// The latest subpass among the first `upto` whose depth write is `a`.
pub open spec fn depth_writer(b: BuilderView, upto: nat, a: AttachmentId) -> Option<SubpassIndex>
    decreases upto,
{
    if upto == 0 {
        None
    } else {
        let j = (upto - 1) as nat;
        let wd = b.subpasses[j as int].writes_depth;
        if wd.len() > 0 && wd[0] == a {
            Some(SubpassIndex(j as u32))
        } else {
            depth_writer(b, j, a)
        }
    }
}

/// The check of the color write in slot `k` of subpass `i`.
pub open spec fn color_write_check(b: BuilderView, i: int, k: int) -> Option<RenderGraphError> {
    let wc = b.subpasses[i].writes_color;
    let a = wc[k];
    if wc.subrange(0, k).contains(a) {
        Some(RenderGraphError::DuplicateAttachmentWrite { subpass: SubpassIndex(i as u32), attachment: a })
    } else if !att_valid(b, a) {
        Some(RenderGraphError::InvalidAttachmentId { attachment: a })
    } else if att(b, a).is_depth {
        Some(RenderGraphError::AttachmentRoleMismatch { attachment: a, expected: "color", found: "depth" })
    } else {
        None
    }
}

/// The first failing color write of subpass `i` from slot `k` on.
pub open spec fn first_color_write_error(b: BuilderView, i: int, k: nat) -> Option<RenderGraphError>
    decreases b.subpasses[i].writes_color.len() - k,
{
    if k >= b.subpasses[i].writes_color.len() {
        None
    } else if color_write_check(b, i, k as int) is Some {
        color_write_check(b, i, k as int)
    } else {
        first_color_write_error(b, i, k + 1)
    }
}

/// The check of the depth write of subpass `i`.
pub open spec fn depth_write_check(b: BuilderView, i: int) -> Option<RenderGraphError> {
    let wd = b.subpasses[i].writes_depth;
    if wd.len() == 0 {
        None
    } else if !att_valid(b, wd[0]) {
        Some(RenderGraphError::InvalidAttachmentId { attachment: wd[0] })
    } else if !att(b, wd[0]).is_depth {
        Some(RenderGraphError::AttachmentRoleMismatch { attachment: wd[0], expected: "depth", found: "color" })
    } else {
        None
    }
}

/// The check of read `k` of subpass `i`.
pub open spec fn read_check(b: BuilderView, i: int, k: int) -> Option<RenderGraphError> {
    let r = b.subpasses[i].reads[k];
    let a = r.attachment;
    if !att_valid(b, a) {
        Some(RenderGraphError::InvalidAttachmentId { attachment: a })
    } else if att(b, a).is_depth != r.depth {
        Some(RenderGraphError::AttachmentRoleMismatch {
            attachment: a,
            expected: role_name_of(r.depth),
            found: role_name_of(att(b, a).is_depth),
        })
    } else if (!r.depth && color_writer(b, i as nat, a) is None)
        || (r.depth && depth_writer(b, i as nat, a) is None) {
        Some(RenderGraphError::ReadBeforeWrite { subpass: SubpassIndex(i as u32), attachment: a })
    } else {
        None
    }
}

/// The first failing read of subpass `i` from read `k` on.
pub open spec fn first_read_error(b: BuilderView, i: int, k: nat) -> Option<RenderGraphError>
    decreases b.subpasses[i].reads.len() - k,
{
    if k >= b.subpasses[i].reads.len() {
        None
    } else if read_check(b, i, k as int) is Some {
        read_check(b, i, k as int)
    } else {
        first_read_error(b, i, k + 1)
    }
}

/// The depth reads of a subpass, in declaration order.
pub open spec fn depth_reads(sp: SubpassView) -> Seq<ReadView> {
    sp.reads.filter(|r: ReadView| r.depth)
}

/// The first depth read among `reads[k..]`.
pub open spec fn find_depth_read(reads: Seq<ReadView>, k: nat) -> Option<ReadView>
    decreases reads.len() - k,
{
    if k >= reads.len() {
        None
    } else if reads[k as int].depth {
        Some(reads[k as int])
    } else {
        find_depth_read(reads, k + 1)
    }
}

/// The first rule that subpass `i` breaks, given that the subpasses before it passed.
pub open spec fn subpass_error(b: BuilderView, i: int) -> Option<RenderGraphError> {
    let sp = b.subpasses[i];
    if sp.writes_depth.len() > 1 {
        Some(RenderGraphError::MultipleDepthWrites { subpass: SubpassIndex(i as u32) })
    } else if depth_reads(sp).len() > 1 {
        Some(RenderGraphError::MultipleDepthReads { subpass: SubpassIndex(i as u32) })
    } else if first_color_write_error(b, i, 0) is Some {
        first_color_write_error(b, i, 0)
    } else if depth_write_check(b, i) is Some {
        depth_write_check(b, i)
    } else {
        first_read_error(b, i, 0)
    }
}

/// The first failing subpass from subpass `i` on.
pub open spec fn first_subpass_error(b: BuilderView, i: nat) -> Option<RenderGraphError>
    decreases b.subpasses.len() - i,
{
    if i >= b.subpasses.len() {
        None
    } else if subpass_error(b, i as int) is Some {
        subpass_error(b, i as int)
    } else {
        first_subpass_error(b, i + 1)
    }
}

/// Subpass `j` writes attachment `a`, as a color target or as its depth target.
pub open spec fn writes_attachment(b: BuilderView, j: int, a: AttachmentId) -> bool {
    let sp = b.subpasses[j];
    sp.writes_color.contains(a) || (sp.writes_depth.len() > 0 && sp.writes_depth[0] == a)
}

/// Some subpass writes attachment `a`.
pub open spec fn is_written(b: BuilderView, a: AttachmentId) -> bool {
    exists|j: int| 0 <= j < b.subpasses.len() && writes_attachment(b, j, a)
}

/// The first attachment among `ps[k..]` that no subpass writes.
pub open spec fn first_unwritten(b: BuilderView, ps: Seq<AttachmentId>, k: nat) -> Option<RenderGraphError>
    decreases ps.len() - k,
{
    if k >= ps.len() {
        None
    } else if !is_written(b, ps[k as int]) {
        Some(RenderGraphError::PersistentNeverWritten { attachment: ps[k as int] })
    } else {
        first_unwritten(b, ps, k + 1)
    }
}

/// The error that building `b` reports, or `None` when the graph is valid.
///
/// Checks run in this order: the sample count, the subpass count, each subpass
/// in order (see [`subpass_error`]), and last the persistent attachments.
pub open spec fn build_error(b: BuilderView) -> Option<RenderGraphError> {
    if b.sample_count == 0 {
        Some(RenderGraphError::InvalidSampleCount { sample_count: 0 })
    } else if b.subpasses.len() == 0 {
        Some(RenderGraphError::NoSubpasses)
    } else if b.subpasses.len() > 32 {
        Some(RenderGraphError::TooManySubpasses { count: b.subpasses.len() as u32, maximum: 32 })
    } else if first_subpass_error(b, 0) is Some {
        first_subpass_error(b, 0)
    } else {
        first_unwritten(b, persistents_upto(b, b.attachments.len()), 0)
    }
}

// ---------------------------------------------------------------------------
// Mathematical model of a built graph
// ---------------------------------------------------------------------------

/// Mathematical value of one built subpass.
#[verifier::ext_equal]
pub struct BuiltSubpassView {
    /// The producer subpass of each input read, in read order.
    pub read_sources: Seq<SubpassIndex>,
    /// The render pass color slot of each color write.
    pub color_attachment_indices: Seq<u32>,
    /// Whether the subpass writes or reads a depth attachment.
    pub uses_depth_stencil: bool,
    /// One input attachment per read; the binding is the read's position.
    pub input_attachments: Seq<SubpassInputAttachment>,
}

/// Mathematical value of a [`RenderGraph`].
#[verifier::ext_equal]
pub struct RenderGraphView {
    /// Number of subpasses.
    pub subpass_count: u32,
    /// Per-subpass compatibility metadata.
    pub subpass_layouts: Seq<SubpassLayoutView>,
    /// Dependencies between subpasses.
    pub dependencies: Seq<SubpassDependency>,
    /// Sample count.
    pub sample_count: u32,
    /// The built subpasses.
    pub subpasses: Seq<BuiltSubpassView>,
    /// For each attachment, the subpasses that write it, in increasing order.
    pub writer_subpasses: Seq<Seq<SubpassIndex>>,
    /// The persistent attachments, in registration order.
    pub persistent_outputs: Seq<AttachmentId>,
    /// Attachment labels, by attachment index.
    pub attachment_labels: Seq<Seq<char>>,
    /// Subpass labels, by subpass index.
    pub subpass_labels: Seq<Seq<char>>,
}

/// Number of color attachments among the first `k` registered ones.
pub open spec fn color_count(b: BuilderView, k: nat) -> nat
    decreases k,
{
    if k == 0 {
        0
    } else {
        color_count(b, (k - 1) as nat) + if b.attachments[k - 1].is_depth {
            0nat
        } else {
            1nat
        }
    }
}

/// The render pass color slot of color attachment `a`: the number of color
/// attachments registered before it.
pub open spec fn color_slot(b: BuilderView, a: AttachmentId) -> u32 {
    color_count(b, a.index() as nat) as u32
}

/// Where read `r` of subpass `i` takes its input from: the latest earlier
/// subpass that writes the attachment in the read's role.
pub open spec fn input_source(b: BuilderView, i: int, r: ReadView) -> SubpassInputSource {
    if r.depth {
        SubpassInputSource::Depth { subpass: depth_writer(b, i as nat, r.attachment)->0 }
    } else {
        let w = color_writer(b, i as nat, r.attachment)->0;
        SubpassInputSource::Color { subpass: w.0, attachment_index: w.1 }
    }
}

/// The layout of subpass `i`.
pub open spec fn layout_of(b: BuilderView, i: int) -> SubpassLayoutView {
    let sp = b.subpasses[i];
    SubpassLayoutView {
        color_formats: sp.writes_color.map_values(|a: AttachmentId| Some(att(b, a).format)),
        depth_stencil_format: if sp.writes_depth.len() > 0 {
            Some(att(b, sp.writes_depth[0]).format)
        } else {
            match find_depth_read(sp.reads, 0) {
                Some(r) => Some(att(b, r.attachment).format),
                None => None,
            }
        },
        sample_count: b.sample_count,
        input_attachment_formats: sp.reads.map_values(|r: ReadView| att(b, r.attachment).format),
    }
}

/// Subpass `i` as the built graph holds it.
pub open spec fn built_of(b: BuilderView, i: int) -> BuiltSubpassView {
    let sp = b.subpasses[i];
    BuiltSubpassView {
        read_sources: sp.reads.map_values(|r: ReadView| input_source(b, i, r).source_subpass()),
        color_attachment_indices: sp.writes_color.map_values(|a: AttachmentId| color_slot(b, a)),
        uses_depth_stencil: sp.writes_depth.len() > 0 || find_depth_read(sp.reads, 0) is Some,
        input_attachments: sp.reads.map(
            |k: int, r: ReadView|
                SubpassInputAttachment { binding: k as u32, source: input_source(b, i, r) },
        ),
    }
}

/// The dependency kind that one read contributes.
pub open spec fn read_dependency_type(r: ReadView) -> SubpassDependencyType {
    if r.depth {
        SubpassDependencyType::DepthToInput
    } else {
        SubpassDependencyType::ColorToInput
    }
}

/// Two dependency kinds on the same subpass pair combine to their union.
pub open spec fn merge_type(a: SubpassDependencyType, b: SubpassDependencyType) -> SubpassDependencyType {
    if a == b {
        a
    } else {
        SubpassDependencyType::ColorDepthToInput
    }
}

/// Position of the first dependency from `src` to `dst` among `deps[k..]`.
pub open spec fn find_dependency(
    deps: Seq<SubpassDependency>,
    src: SubpassIndex,
    dst: SubpassIndex,
    k: nat,
) -> Option<nat>
    decreases deps.len() - k,
{
    if k >= deps.len() {
        None
    } else if deps[k as int].src_subpass == src && deps[k as int].dst_subpass == dst {
        Some(k)
    } else {
        find_dependency(deps, src, dst, k + 1)
    }
}

/// `deps` after recording a dependency of kind `ty` from `src` to `dst`: an
/// existing dependency between the pair has its kind merged, otherwise a new
/// by-region dependency is appended.
pub open spec fn upsert(
    deps: Seq<SubpassDependency>,
    src: SubpassIndex,
    dst: SubpassIndex,
    ty: SubpassDependencyType,
) -> Seq<SubpassDependency> {
    match find_dependency(deps, src, dst, 0) {
        Some(k) => deps.update(
            k as int,
            SubpassDependency {
                src_subpass: deps[k as int].src_subpass,
                dst_subpass: deps[k as int].dst_subpass,
                dependency_type: merge_type(deps[k as int].dependency_type, ty),
                by_region: deps[k as int].by_region,
            },
        ),
        None => deps.push(
            SubpassDependency { src_subpass: src, dst_subpass: dst, dependency_type: ty, by_region: true },
        ),
    }
}

/// The dependencies recorded after every read of the subpasses before `i`, and
/// the first `k` reads of subpass `i`.
pub open spec fn deps_after(b: BuilderView, i: nat, k: nat) -> Seq<SubpassDependency>
    decreases i, k,
{
    if k == 0 {
        if i == 0 {
            Seq::empty()
        } else {
            deps_after(b, (i - 1) as nat, b.subpasses[i - 1].reads.len())
        }
    } else {
        let r = b.subpasses[i as int].reads[k - 1];
        upsert(
            deps_after(b, i, (k - 1) as nat),
            input_source(b, i as int, r).source_subpass(),
            SubpassIndex(i as u32),
            read_dependency_type(r),
        )
    }
}

/// The subpasses among the first `upto` that write attachment `a`, in order.
pub open spec fn writers_upto(b: BuilderView, upto: nat, a: AttachmentId) -> Seq<SubpassIndex>
    decreases upto,
{
    if upto == 0 {
        Seq::empty()
    } else {
        let prev = writers_upto(b, (upto - 1) as nat, a);
        if writes_attachment(b, upto - 1, a) {
            prev.push(SubpassIndex((upto - 1) as u32))
        } else {
            prev
        }
    }
}

/// The persistent attachments among the first `k` registered ones, in order.
pub open spec fn persistents_upto(b: BuilderView, k: nat) -> Seq<AttachmentId>
    decreases k,
{
    if k == 0 {
        Seq::empty()
    } else {
        let prev = persistents_upto(b, (k - 1) as nat);
        if b.attachments[k - 1].persistent {
            prev.push(AttachmentId::from_index((k - 1) as u32))
        } else {
            prev
        }
    }
}

/// The graph that building a valid `b` produces.
pub open spec fn planned_graph(b: BuilderView) -> RenderGraphView {
    let n = b.subpasses.len();
    RenderGraphView {
        subpass_count: n as u32,
        subpass_layouts: Seq::new(n, |i: int| layout_of(b, i)),
        dependencies: deps_after(b, n, 0),
        sample_count: b.sample_count,
        subpasses: Seq::new(n, |i: int| built_of(b, i)),
        writer_subpasses: Seq::new(
            b.attachments.len(),
            |a: int| writers_upto(b, n, AttachmentId::from_index(a as u32)),
        ),
        persistent_outputs: persistents_upto(b, b.attachments.len()),
        attachment_labels: b.attachments.map_values(|x: AttachmentView| x.label),
        subpass_labels: b.subpasses.map_values(|s: SubpassView| s.label),
    }
}

// ---------------------------------------------------------------------------
// Builder
// ---------------------------------------------------------------------------

spec fn attachment_view(a: AttachmentSpec) -> AttachmentView {
    AttachmentView {
        label: a.label@,
        format: a.format,
        is_depth: a.role == AttachmentRole::Depth,
        persistent: a.lifetime == AttachmentLifetime::Persistent,
    }
}

spec fn read_view(r: ReadSpec) -> ReadView {
    ReadView { attachment: r.attachment, depth: r.kind == ReadKind::Depth }
}

spec fn subpass_view(s: SubpassSpec) -> SubpassView {
    SubpassView {
        label: s.label@,
        writes_color: s.writes_color@,
        writes_depth: s.writes_depth@,
        reads: s.reads@.map_values(|r: ReadSpec| read_view(r)),
    }
}

impl SubpassSpec {
    fn new(label: &str) -> (res: Self)
        ensures
            subpass_view(res) == (SubpassView {
                label: label@,
                writes_color: Seq::empty(),
                writes_depth: Seq::empty(),
                reads: Seq::empty(),
            }),
    {
        let res = SubpassSpec {
            label: label.to_owned(),
            writes_color: Vec::new(),
            writes_depth: Vec::new(),
            reads: Vec::new(),
        };
        assert(subpass_view(res).reads =~= Seq::<ReadView>::empty());
        res
    }
}

/// Declarative builder for multi-subpass render graphs.
#[derive(Debug)]
pub struct RenderGraphBuilder {
    sample_count: u32,
    attachments: Vec<AttachmentSpec>,
    subpasses: Vec<SubpassSpec>,
}

impl View for RenderGraphBuilder {
    type V = BuilderView;

    closed spec fn view(&self) -> BuilderView {
        BuilderView {
            sample_count: self.sample_count,
            attachments: self.attachments@.map_values(|a: AttachmentSpec| attachment_view(a)),
            subpasses: self.subpasses@.map_values(|s: SubpassSpec| subpass_view(s)),
        }
    }
}

impl Default for RenderGraphBuilder {
    /// An empty builder whose sample count is 0 (which [`RenderGraphBuilder::build`] rejects).
    fn default() -> (res: Self)
        ensures
            res@.sample_count == 0,
            res@.attachments.len() == 0,
            res@.subpasses.len() == 0,
    {
        RenderGraphBuilder { sample_count: 0, attachments: Vec::new(), subpasses: Vec::new() }
    }
}

impl RenderGraphBuilder {
    /// Creates a new builder with `sample_count = 1`.
    pub fn new() -> (res: Self)
        ensures
            res@.sample_count == 1,
            res@.attachments.len() == 0,
            res@.subpasses.len() == 0,
    {
        RenderGraphBuilder { sample_count: 1, attachments: Vec::new(), subpasses: Vec::new() }
    }

    /// Sets the sample count used by all generated subpass layouts.
    pub fn sample_count(&mut self, n: u32) -> (res: &mut Self)
        ensures
            (*res)@ == (BuilderView { sample_count: n, ..old(self)@ }),
            *final(self) == *final(res),
    {
        self.sample_count = n;
        self
    }

    /// Registers a transient color attachment.
    pub fn add_transient_color(&mut self, label: &str, format: TextureFormat) -> (id: AttachmentId)
        requires
            old(self)@.attachments.len() < u32::MAX,
        ensures
            id.index() == old(self)@.attachments.len(),
            final(self)@ == old(self)@.add_attachment(
                AttachmentView { label: label@, format, is_depth: false, persistent: false },
            ),
    {
        self.push_attachment(label, format, AttachmentRole::Color, AttachmentLifetime::Transient)
    }

    /// Registers a transient depth/stencil attachment.
    pub fn add_transient_depth(&mut self, label: &str, format: TextureFormat) -> (id: AttachmentId)
        requires
            old(self)@.attachments.len() < u32::MAX,
        ensures
            id.index() == old(self)@.attachments.len(),
            final(self)@ == old(self)@.add_attachment(
                AttachmentView { label: label@, format, is_depth: true, persistent: false },
            ),
    {
        self.push_attachment(label, format, AttachmentRole::Depth, AttachmentLifetime::Transient)
    }

    /// Registers a persistent color attachment.
    pub fn add_persistent_color(&mut self, label: &str, format: TextureFormat) -> (id: AttachmentId)
        requires
            old(self)@.attachments.len() < u32::MAX,
        ensures
            id.index() == old(self)@.attachments.len(),
            final(self)@ == old(self)@.add_attachment(
                AttachmentView { label: label@, format, is_depth: false, persistent: true },
            ),
    {
        self.push_attachment(label, format, AttachmentRole::Color, AttachmentLifetime::Persistent)
    }

    /// Registers a persistent depth/stencil attachment.
    pub fn add_persistent_depth(&mut self, label: &str, format: TextureFormat) -> (id: AttachmentId)
        requires
            old(self)@.attachments.len() < u32::MAX,
        ensures
            id.index() == old(self)@.attachments.len(),
            final(self)@ == old(self)@.add_attachment(
                AttachmentView { label: label@, format, is_depth: true, persistent: true },
            ),
    {
        self.push_attachment(label, format, AttachmentRole::Depth, AttachmentLifetime::Persistent)
    }

    fn push_attachment(
        &mut self,
        label: &str,
        format: TextureFormat,
        role: AttachmentRole,
        lifetime: AttachmentLifetime,
    ) -> (id: AttachmentId)
        requires
            old(self)@.attachments.len() < u32::MAX,
        ensures
            id.index() == old(self)@.attachments.len(),
            final(self)@ == old(self)@.add_attachment(
                AttachmentView {
                    label: label@,
                    format,
                    is_depth: role == AttachmentRole::Depth,
                    persistent: lifetime == AttachmentLifetime::Persistent,
                },
            ),
    {
        let id = AttachmentId(self.attachments.len() as u32);
        let spec = AttachmentSpec { label: label.to_owned(), format, role, lifetime };
        self.attachments.push(spec);
        assert(self@.attachments =~= old(self)@.attachments.push(attachment_view(spec)));
        id
    }

    /// Adds a subpass and returns a fluent subpass builder for it.
    pub fn add_subpass(&mut self, label: &str) -> (res: SubpassBuilder<'_>)
        requires
            old(self)@.subpasses.len() < u32::MAX,
        ensures
            res.subpass == old(self)@.subpasses.len(),
            (*res.graph)@ == old(self)@.add_subpass(label@),
            *final(self) == *final(res.graph),
    {
        let subpass = self.subpasses.len();
        let spec = SubpassSpec::new(label);
        self.subpasses.push(spec);
        assert(self@.subpasses =~= old(self)@.add_subpass(label@).subpasses);
        SubpassBuilder { graph: self, subpass }
    }
}

/// Fluent builder used to define one subpass in a [`RenderGraphBuilder`].
#[derive(Debug)]
pub struct SubpassBuilder<'g> {
    /// The builder that owns the subpass.
    pub graph: &'g mut RenderGraphBuilder,
    /// Index of the subpass being defined.
    pub subpass: usize,
}

impl SubpassBuilder<'_> {
    /// Marks a color attachment as written by this subpass.
    pub fn writes_color(self, id: AttachmentId) -> (res: Self)
        requires
            self.subpass < (*self.graph)@.subpasses.len(),
        ensures
            res.subpass == self.subpass,
            (*res.graph)@ == (*old(self.graph))@.set_subpass(
                self.subpass as int,
                (*old(self.graph))@.subpasses[self.subpass as int].add_color_write(id),
            ),
            *final(res.graph) == *final(self.graph),
    {
        let ghost before = (*self.graph)@;
        self.graph.subpasses[self.subpass].writes_color.push(id);
        assert((*self.graph)@.subpasses =~= before.subpasses.update(
            self.subpass as int,
            before.subpasses[self.subpass as int].add_color_write(id),
        ));
        self
    }

    /// Marks a depth attachment as written by this subpass.
    pub fn writes_depth(self, id: AttachmentId) -> (res: Self)
        requires
            self.subpass < (*self.graph)@.subpasses.len(),
        ensures
            res.subpass == self.subpass,
            (*res.graph)@ == (*old(self.graph))@.set_subpass(
                self.subpass as int,
                (*old(self.graph))@.subpasses[self.subpass as int].add_depth_write(id),
            ),
            *final(res.graph) == *final(self.graph),
    {
        let ghost before = (*self.graph)@;
        self.graph.subpasses[self.subpass].writes_depth.push(id);
        assert((*self.graph)@.subpasses =~= before.subpasses.update(
            self.subpass as int,
            before.subpasses[self.subpass as int].add_depth_write(id),
        ));
        self
    }

    /// Adds a color input attachment read.
    pub fn reads(self, id: AttachmentId) -> (res: Self)
        requires
            self.subpass < (*self.graph)@.subpasses.len(),
        ensures
            res.subpass == self.subpass,
            (*res.graph)@ == (*old(self.graph))@.set_subpass(
                self.subpass as int,
                (*old(self.graph))@.subpasses[self.subpass as int].add_read(
                    ReadView { attachment: id, depth: false },
                ),
            ),
            *final(res.graph) == *final(self.graph),
    {
        let ghost before = (*self.graph)@;
        self.graph.subpasses[self.subpass].reads.push(ReadSpec { attachment: id, kind: ReadKind::Color });
        assert((*self.graph)@.subpasses[self.subpass as int].reads =~= before.subpasses[self.subpass as int].reads.push(
            ReadView { attachment: id, depth: false },
        ));
        assert((*self.graph)@.subpasses =~= before.subpasses.update(
            self.subpass as int,
            before.subpasses[self.subpass as int].add_read(ReadView { attachment: id, depth: false }),
        ));
        self
    }

    /// Adds a depth input attachment read.
    pub fn reads_depth(self, id: AttachmentId) -> (res: Self)
        requires
            self.subpass < (*self.graph)@.subpasses.len(),
        ensures
            res.subpass == self.subpass,
            (*res.graph)@ == (*old(self.graph))@.set_subpass(
                self.subpass as int,
                (*old(self.graph))@.subpasses[self.subpass as int].add_read(
                    ReadView { attachment: id, depth: true },
                ),
            ),
            *final(res.graph) == *final(self.graph),
    {
        let ghost before = (*self.graph)@;
        self.graph.subpasses[self.subpass].reads.push(ReadSpec { attachment: id, kind: ReadKind::Depth });
        assert((*self.graph)@.subpasses[self.subpass as int].reads =~= before.subpasses[self.subpass as int].reads.push(
            ReadView { attachment: id, depth: true },
        ));
        assert((*self.graph)@.subpasses =~= before.subpasses.update(
            self.subpass as int,
            before.subpasses[self.subpass as int].add_read(ReadView { attachment: id, depth: true }),
        ));
        self
    }
}

// ---------------------------------------------------------------------------
// Built graph
// ---------------------------------------------------------------------------

spec fn built_view(s: BuiltSubpass) -> BuiltSubpassView {
    BuiltSubpassView {
        read_sources: s.reads@.map_values(|r: ResolvedRead| r.source_subpass),
        color_attachment_indices: s.color_attachment_indices@,
        uses_depth_stencil: s.uses_depth_stencil,
        input_attachments: s.input_attachments@,
    }
}

/// Immutable render graph produced by [`RenderGraphBuilder`].
#[derive(Clone, Debug)]
pub struct RenderGraph {
    /// Number of subpasses in this graph.
    pub subpass_count: u32,
    /// Per-subpass compatibility metadata.
    pub subpass_layouts: Vec<SubpassLayout>,
    /// Auto-generated dependencies between subpasses.
    pub dependencies: Vec<SubpassDependency>,
    /// Sample count propagated to all subpass layouts.
    pub sample_count: u32,
    subpasses: Vec<BuiltSubpass>,
    writer_subpasses: Vec<Vec<SubpassIndex>>,
    persistent_outputs: Vec<AttachmentId>,
    attachment_labels: Vec<String>,
    subpass_labels: Vec<String>,
}

impl View for RenderGraph {
    type V = RenderGraphView;

    closed spec fn view(&self) -> RenderGraphView {
        RenderGraphView {
            subpass_count: self.subpass_count,
            subpass_layouts: self.subpass_layouts@.map_values(|l: SubpassLayout| l@),
            dependencies: self.dependencies@,
            sample_count: self.sample_count,
            subpasses: self.subpasses@.map_values(|s: BuiltSubpass| built_view(s)),
            writer_subpasses: self.writer_subpasses@.map_values(|v: Vec<SubpassIndex>| v@),
            persistent_outputs: self.persistent_outputs@,
            attachment_labels: self.attachment_labels@.map_values(|l: String| l@),
            subpass_labels: self.subpass_labels@.map_values(|l: String| l@),
        }
    }
}

// ---------------------------------------------------------------------------
// Building
// ---------------------------------------------------------------------------

spec fn color_writers_state(b: BuilderView, upto: nat, lcw: Seq<Option<(SubpassIndex, u32)>>) -> bool {
    &&& lcw.len() == b.attachments.len()
    &&& forall|a: int| 0 <= a < lcw.len() ==> #[trigger] lcw[a] == color_writer(b, upto, AttachmentId(a as u32))
}

spec fn depth_writers_state(b: BuilderView, upto: nat, ldw: Seq<Option<SubpassIndex>>) -> bool {
    &&& ldw.len() == b.attachments.len()
    &&& forall|a: int| 0 <= a < ldw.len() ==> #[trigger] ldw[a] == depth_writer(b, upto, AttachmentId(a as u32))
}

spec fn writers_state(b: BuilderView, upto: nat, ws: Seq<Vec<SubpassIndex>>) -> bool {
    &&& ws.len() == b.attachments.len()
    &&& forall|a: int| 0 <= a < ws.len() ==> (#[trigger] ws[a])@ == writers_upto(b, upto, AttachmentId(a as u32))
}

spec fn color_slots_state(b: BuilderView, slots: Seq<Option<u32>>) -> bool {
    &&& slots.len() == b.attachments.len()
    &&& forall|a: int| 0 <= a < slots.len() ==> #[trigger] slots[a] == if b.attachments[a].is_depth {
        None
    } else {
        Some(color_slot(b, AttachmentId(a as u32)))
    }
}

proof fn lemma_index_of_unique<A>(s: Seq<A>, p: int)
    requires
        s.no_duplicates(),
        0 <= p < s.len(),
    ensures
        s.index_of(s[p]) == p,
{
    assert(s.contains(s[p]));
}

proof fn lemma_color_count_bound(b: BuilderView, k: nat)
    requires
        k <= b.attachments.len(),
    ensures
        color_count(b, k) <= k,
    decreases k,
{
    if k > 0 {
        lemma_color_count_bound(b, (k - 1) as nat);
    }
}

proof fn lemma_writers_empty(b: BuilderView, upto: nat, a: AttachmentId)
    ensures
        writers_upto(b, upto, a).len() == 0 <==> !(exists|j: int| 0 <= j < upto && writes_attachment(b, j, a)),
    decreases upto,
{
    if upto > 0 {
        lemma_writers_empty(b, (upto - 1) as nat, a);
        if writes_attachment(b, upto - 1, a) {
            assert(writers_upto(b, upto, a).len() > 0);
        } else {
            assert forall|j: int| 0 <= j < upto && writes_attachment(b, j, a) implies j < upto - 1 by {}
        }
    }
}

proof fn lemma_persistents_bound(b: BuilderView, k: nat)
    requires
        k <= b.attachments.len(),
        b.attachments.len() <= u32::MAX,
    ensures
        forall|m: int| 0 <= m < persistents_upto(b, k).len() ==> (#[trigger] persistents_upto(b, k)[m]).0 < k,
    decreases k,
{
    if k > 0 {
        lemma_persistents_bound(b, (k - 1) as nat);
        let prev = persistents_upto(b, (k - 1) as nat);
        assert forall|m: int| 0 <= m < persistents_upto(b, k).len() implies (#[trigger] persistents_upto(b, k)[m]).0 < k by {
            if m < prev.len() {
                assert(persistents_upto(b, k)[m] == prev[m]);
            }
        }
    }
}

fn role_name(role: AttachmentRole) -> (res: &'static str)
    ensures
        res == role_name_of(role == AttachmentRole::Depth),
{
    match role {
        AttachmentRole::Color => "color",
        AttachmentRole::Depth => "depth",
    }
}

fn get_attachment(attachments: &Vec<AttachmentSpec>, attachment_id: AttachmentId) -> (res: Result<&AttachmentSpec, RenderGraphError>)
    ensures
        match res {
            Ok(a) => (attachment_id.0 as int) < attachments@.len() && *a == attachments@[attachment_id.0 as int],
            Err(e) => (attachment_id.0 as int) >= attachments@.len()
                && e == RenderGraphError::InvalidAttachmentId { attachment: attachment_id },
        },
{
    if (attachment_id.0 as usize) < attachments.len() {
        Ok(&attachments[attachment_id.0 as usize])
    } else {
        Err(RenderGraphError::InvalidAttachmentId { attachment: attachment_id })
    }
}

fn ensure_role(attachment: &AttachmentSpec, attachment_id: AttachmentId, expected: AttachmentRole) -> (res: Result<(), RenderGraphError>)
    ensures
        match res {
            Ok(_) => attachment.role == expected,
            Err(e) => attachment.role != expected && e == (RenderGraphError::AttachmentRoleMismatch {
                attachment: attachment_id,
                expected: role_name_of(expected == AttachmentRole::Depth),
                found: role_name_of(attachment.role == AttachmentRole::Depth),
            }),
        },
{
    if attachment.role == expected {
        return Ok(());
    }
    Err(RenderGraphError::AttachmentRoleMismatch {
        attachment: attachment_id,
        expected: role_name(expected),
        found: role_name(attachment.role),
    })
}

fn merge_dependency_type(a: SubpassDependencyType, b: SubpassDependencyType) -> (res: SubpassDependencyType)
    ensures
        res == merge_type(a, b),
{
    if a == b {
        return a;
    }
    SubpassDependencyType::ColorDepthToInput
}

fn upsert_dependency(
    dependencies: &mut Vec<SubpassDependency>,
    src_subpass: SubpassIndex,
    dst_subpass: SubpassIndex,
    dependency_type: SubpassDependencyType,
)
    ensures
        final(dependencies)@ == upsert(old(dependencies)@, src_subpass, dst_subpass, dependency_type),
{
    let mut k: usize = 0;
    while k < dependencies.len()
        invariant
            k <= dependencies@.len(),
            dependencies@ == old(dependencies)@,
            find_dependency(dependencies@, src_subpass, dst_subpass, 0)
                == find_dependency(dependencies@, src_subpass, dst_subpass, k as nat),
        decreases dependencies@.len() - k,
    {
        let existing = dependencies[k];
        if existing.src_subpass == src_subpass && existing.dst_subpass == dst_subpass {
            let merged = SubpassDependency {
                src_subpass: existing.src_subpass,
                dst_subpass: existing.dst_subpass,
                dependency_type: merge_dependency_type(existing.dependency_type, dependency_type),
                by_region: existing.by_region,
            };
            dependencies.set(k, merged);
            return;
        }
        k = k + 1;
    }
    dependencies.push(SubpassDependency { src_subpass, dst_subpass, dependency_type, by_region: true });
}

fn contains_id(ids: &Vec<AttachmentId>, id: AttachmentId) -> (res: bool)
    ensures
        res == ids@.contains(id),
{
    let mut k: usize = 0;
    while k < ids.len()
        invariant
            k <= ids@.len(),
            forall|j: int| 0 <= j < k ==> ids@[j] != id,
        decreases ids@.len() - k,
    {
        if ids[k] == id {
            return true;
        }
        k = k + 1;
    }
    false
}

impl RenderGraphBuilder {
    fn attachment_labels(&self) -> (res: Vec<String>)
        ensures
            res@.map_values(|l: String| l@) == self@.attachments.map_values(|x: AttachmentView| x.label),
    {
        let mut res: Vec<String> = Vec::new();
        let mut k: usize = 0;
        while k < self.attachments.len()
            invariant
                k <= self.attachments@.len(),
                res@.len() == k,
                forall|j: int| 0 <= j < k ==> (#[trigger] res@[j])@ == self.attachments@[j].label@,
            decreases self.attachments@.len() - k,
        {
            res.push(self.attachments[k].label.clone());
            k = k + 1;
        }
        assert(res@.map_values(|l: String| l@) =~= self@.attachments.map_values(|x: AttachmentView| x.label));
        res
    }

    fn subpass_labels(&self) -> (res: Vec<String>)
        ensures
            res@.map_values(|l: String| l@) == self@.subpasses.map_values(|s: SubpassView| s.label),
    {
        let mut res: Vec<String> = Vec::new();
        let mut k: usize = 0;
        while k < self.subpasses.len()
            invariant
                k <= self.subpasses@.len(),
                res@.len() == k,
                forall|j: int| 0 <= j < k ==> (#[trigger] res@[j])@ == self.subpasses@[j].label@,
            decreases self.subpasses@.len() - k,
        {
            res.push(self.subpasses[k].label.clone());
            k = k + 1;
        }
        assert(res@.map_values(|l: String| l@) =~= self@.subpasses.map_values(|s: SubpassView| s.label));
        res
    }

    fn color_attachment_slots(&self) -> (res: Vec<Option<u32>>)
        requires
            self@.attachments.len() <= u32::MAX,
        ensures
            color_slots_state(self@, res@),
    {
        let ghost b = self@;
        let mut res: Vec<Option<u32>> = Vec::new();
        let mut next: u32 = 0;
        let mut k: usize = 0;
        while k < self.attachments.len()
            invariant
                b == self@,
                b.attachments.len() <= u32::MAX,
                k <= self.attachments@.len(),
                res@.len() == k,
                next == color_count(b, k as nat),
                forall|a: int| 0 <= a < k ==> #[trigger] res@[a] == if b.attachments[a].is_depth {
                    None
                } else {
                    Some(color_slot(b, AttachmentId(a as u32)))
                },
            decreases self.attachments@.len() - k,
        {
            proof {
                lemma_color_count_bound(b, k as nat);
            }
            if self.attachments[k].role == AttachmentRole::Color {
                res.push(Some(next));
                next = next.saturating_add(1);
            } else {
                res.push(None);
            }
            k = k + 1;
        }
        res
    }

    fn persistent_attachments(&self) -> (res: Vec<AttachmentId>)
        requires
            self@.attachments.len() <= u32::MAX,
        ensures
            res@ == persistents_upto(self@, self@.attachments.len()),
    {
        let ghost b = self@;
        let mut res: Vec<AttachmentId> = Vec::new();
        let mut k: usize = 0;
        while k < self.attachments.len()
            invariant
                b == self@,
                b.attachments.len() <= u32::MAX,
                k <= self.attachments@.len(),
                res@ == persistents_upto(b, k as nat),
            decreases self.attachments@.len() - k,
        {
            if self.attachments[k].lifetime == AttachmentLifetime::Persistent {
                res.push(AttachmentId(k as u32));
            }
            k = k + 1;
        }
        res
    }
}

/// The writer lists after subpass `i` recorded its color writes.
spec fn writers_after_colors(b: BuilderView, i: int, ws: Seq<Vec<SubpassIndex>>) -> bool {
    &&& ws.len() == b.attachments.len()
    &&& forall|a: int| 0 <= a < ws.len() ==> (#[trigger] ws[a])@ == {
        let prev = writers_upto(b, i as nat, AttachmentId(a as u32));
        if b.subpasses[i].writes_color.contains(AttachmentId(a as u32)) {
            prev.push(SubpassIndex(i as u32))
        } else {
            prev
        }
    }
}

/// Every color write of subpass `i` names a registered color attachment.
spec fn color_writes_valid(b: BuilderView, i: int) -> bool {
    forall|j: int| 0 <= j < b.subpasses[i].writes_color.len() ==> {
        &&& att_valid(b, #[trigger] b.subpasses[i].writes_color[j])
        &&& !att(b, b.subpasses[i].writes_color[j]).is_depth
    }
}

impl RenderGraphBuilder {
    proof fn lemma_subpass_view(&self, i: int)
        requires
            0 <= i < self.subpasses@.len(),
        ensures
            self@.subpasses[i] == subpass_view(self.subpasses@[i]),
            self@.subpasses[i].writes_color == self.subpasses@[i].writes_color@,
            self@.subpasses[i].writes_depth == self.subpasses@[i].writes_depth@,
            self@.subpasses[i].reads.len() == self.subpasses@[i].reads@.len(),
            forall|k: int| 0 <= k < self.subpasses@[i].reads@.len()
                ==> #[trigger] self@.subpasses[i].reads[k] == read_view(self.subpasses@[i].reads@[k]),
    {
    }

    proof fn lemma_attachment_view(&self, id: AttachmentId)
        requires
            (id.0 as int) < self.attachments@.len(),
        ensures
            att_valid(self@, id),
            att(self@, id) == attachment_view(self.attachments@[id.0 as int]),
    {
    }

    fn check_depth_counts(&self, i: usize) -> (res: Result<(), RenderGraphError>)
        requires
            i < self@.subpasses.len(),
            self@.subpasses.len() <= 32,
        ensures
            match res {
                Ok(_) => self@.subpasses[i as int].writes_depth.len() <= 1
                    && depth_reads(self@.subpasses[i as int]).len() <= 1,
                Err(e) => subpass_error(self@, i as int) == Some(e),
            },
    {
        let ghost b = self@;
        proof {
            self.lemma_subpass_view(i as int);
        }
        let subpass = &self.subpasses[i];
        if subpass.writes_depth.len() > 1 {
            return Err(RenderGraphError::MultipleDepthWrites { subpass: SubpassIndex(i as u32) });
        }
        let ghost reads = b.subpasses[i as int].reads;
        let mut depth_reads: usize = 0;
        let mut k: usize = 0;
        while k < subpass.reads.len()
            invariant
                b == self@,
                i < b.subpasses.len(),
                subpass == &self.subpasses@[i as int],
                reads == b.subpasses[i as int].reads,
                reads.len() == subpass.reads@.len(),
                forall|j: int| 0 <= j < subpass.reads@.len() ==> #[trigger] reads[j] == read_view(subpass.reads@[j]),
                k <= reads.len(),
                depth_reads <= k,
                depth_reads == reads.subrange(0, k as int).filter(|r: ReadView| r.depth).len(),
            decreases reads.len() - k,
        {
            proof {
                reveal_with_fuel(Seq::<ReadView>::filter, 1);
                assert(reads.subrange(0, k + 1).drop_last() =~= reads.subrange(0, k as int));
                assert(reads.subrange(0, k + 1).last() == reads[k as int]);
            }
            if subpass.reads[k].kind == ReadKind::Depth {
                depth_reads = depth_reads + 1;
            }
            k = k + 1;
        }
        assert(reads.subrange(0, k as int) =~= reads);
        if depth_reads > 1 {
            return Err(RenderGraphError::MultipleDepthReads { subpass: SubpassIndex(i as u32) });
        }
        Ok(())
    }

    fn write_colors(
        &self,
        i: usize,
        slots: &Vec<Option<u32>>,
        lcw: &mut Vec<Option<(SubpassIndex, u32)>>,
        writers: &mut Vec<Vec<SubpassIndex>>,
    ) -> (res: Result<(Vec<Option<TextureFormat>>, Vec<u32>), RenderGraphError>)
        requires
            i < self@.subpasses.len(),
            self@.subpasses.len() <= 32,
            self@.attachments.len() <= u32::MAX,
            color_slots_state(self@, slots@),
            color_writers_state(self@, i as nat, old(lcw)@),
            writers_state(self@, i as nat, old(writers)@),
        ensures
            match res {
                Ok((formats, indices)) => {
                    &&& first_color_write_error(self@, i as int, 0) is None
                    &&& color_writes_valid(self@, i as int)
                    &&& formats@ == layout_of(self@, i as int).color_formats
                    &&& indices@ == built_of(self@, i as int).color_attachment_indices
                    &&& color_writers_state(self@, (i + 1) as nat, final(lcw)@)
                    &&& writers_after_colors(self@, i as int, final(writers)@)
                },
                Err(e) => first_color_write_error(self@, i as int, 0) == Some(e),
            },
    {
        let ghost b = self@;
        proof {
            self.lemma_subpass_view(i as int);
        }
        let ghost wc = b.subpasses[i as int].writes_color;
        let subpass = &self.subpasses[i];
        let mut formats: Vec<Option<TextureFormat>> = Vec::new();
        let mut indices: Vec<u32> = Vec::new();
        let mut seen: Vec<AttachmentId> = Vec::new();
        let mut k: usize = 0;
        while k < subpass.writes_color.len()
            invariant
                b == self@,
                i < b.subpasses.len(),
                b.subpasses.len() <= 32,
                b.attachments.len() <= u32::MAX,
                subpass == &self.subpasses@[i as int],
                wc == subpass.writes_color@,
                wc == b.subpasses[i as int].writes_color,
                color_slots_state(b, slots@),
                k <= wc.len(),
                seen@ == wc.subrange(0, k as int),
                wc.subrange(0, k as int).no_duplicates(),
                forall|j: int| 0 <= j < k ==> att_valid(b, #[trigger] wc[j]) && !att(b, wc[j]).is_depth,
                first_color_write_error(b, i as int, 0) == first_color_write_error(b, i as int, k as nat),
                formats@.len() == k,
                forall|j: int| 0 <= j < k ==> #[trigger] formats@[j] == Some(att(b, wc[j]).format),
                indices@.len() == k,
                forall|j: int| 0 <= j < k ==> #[trigger] indices@[j] == color_slot(b, wc[j]),
                lcw@.len() == b.attachments.len(),
                forall|a: int| 0 <= a < lcw@.len() ==> #[trigger] lcw@[a] == if wc.subrange(0, k as int).contains(AttachmentId(a as u32)) {
                    Some((SubpassIndex(i as u32), wc.subrange(0, k as int).index_of(AttachmentId(a as u32)) as u32))
                } else {
                    color_writer(b, i as nat, AttachmentId(a as u32))
                },
                writers@.len() == b.attachments.len(),
                forall|a: int| 0 <= a < writers@.len() ==> (#[trigger] writers@[a])@ == {
                    let prev = writers_upto(b, i as nat, AttachmentId(a as u32));
                    if wc.subrange(0, k as int).contains(AttachmentId(a as u32)) {
                        prev.push(SubpassIndex(i as u32))
                    } else {
                        prev
                    }
                },
            decreases wc.len() - k,
        {
            let attachment_id = subpass.writes_color[k];
            let ghost prefix = wc.subrange(0, k as int);
            let ghost next = wc.subrange(0, k + 1);
            assert(next =~= prefix.push(attachment_id));
            if contains_id(&seen, attachment_id) {
                return Err(RenderGraphError::DuplicateAttachmentWrite {
                    subpass: SubpassIndex(i as u32),
                    attachment: attachment_id,
                });
            }
            seen.push(attachment_id);
            let attachment = match get_attachment(&self.attachments, attachment_id) {
                Ok(attachment) => attachment,
                Err(e) => return Err(e),
            };
            proof {
                self.lemma_attachment_view(attachment_id);
            }
            match ensure_role(attachment, attachment_id, AttachmentRole::Color) {
                Ok(_) => {},
                Err(e) => return Err(e),
            }
            formats.push(Some(attachment.format));
            let a = attachment_id.0 as usize;
            assert(AttachmentId(a as u32) == attachment_id);
            writers[a].push(SubpassIndex(i as u32));
            lcw.set(a, Some((SubpassIndex(i as u32), k as u32)));
            let slot = match slots[a] {
                Some(slot) => slot,
                None => {
                    proof {
                        assert(slots@[a as int] == Some(color_slot(b, attachment_id)));
                    }
                    unreached()
                },
            };
            indices.push(slot);
            proof {
                assert(next.no_duplicates());
                lemma_index_of_unique(next, k as int);
                assert forall|x: int| 0 <= x < lcw@.len() implies #[trigger] lcw@[x] == if next.contains(AttachmentId(x as u32)) {
                    Some((SubpassIndex(i as u32), next.index_of(AttachmentId(x as u32)) as u32))
                } else {
                    color_writer(b, i as nat, AttachmentId(x as u32))
                } by {
                    let id = AttachmentId(x as u32);
                    if x != a {
                        assert(id != attachment_id);
                        if prefix.contains(id) {
                            let p = prefix.index_of(id);
                            assert(next[p] == id);
                            lemma_index_of_unique(next, p);
                        }
                        assert(next.contains(id) ==> prefix.contains(id)) by {
                            if next.contains(id) {
                                let q = choose|q: int| 0 <= q < next.len() && next[q] == id;
                                assert(prefix[q] == id);
                            }
                        }
                    }
                }
                assert forall|x: int| 0 <= x < writers@.len() implies (#[trigger] writers@[x])@ == {
                    let prev = writers_upto(b, i as nat, AttachmentId(x as u32));
                    if next.contains(AttachmentId(x as u32)) {
                        prev.push(SubpassIndex(i as u32))
                    } else {
                        prev
                    }
                } by {
                    let id = AttachmentId(x as u32);
                    if x != a {
                        assert(id != attachment_id);
                        assert(next.contains(id) ==> prefix.contains(id)) by {
                            if next.contains(id) {
                                let q = choose|q: int| 0 <= q < next.len() && next[q] == id;
                                assert(prefix[q] == id);
                            }
                        }
                    } else {
                        assert(next[k as int] == id);
                    }
                }
            }
            k = k + 1;
        }
        assert(wc.subrange(0, k as int) =~= wc);
        assert(formats@ =~= layout_of(b, i as int).color_formats);
        assert(indices@ =~= built_of(b, i as int).color_attachment_indices);
        Ok((formats, indices))
    }
}

/// A copy of the latest color writer of every attachment.
fn copy_color_writers(lcw: &Vec<Option<(SubpassIndex, u32)>>) -> (res: Vec<Option<(SubpassIndex, u32)>>)
    ensures
        res@ == lcw@,
{
    let mut res: Vec<Option<(SubpassIndex, u32)>> = Vec::new();
    let mut k: usize = 0;
    while k < lcw.len()
        invariant
            k <= lcw@.len(),
            res@ == lcw@.subrange(0, k as int),
        decreases lcw@.len() - k,
    {
        res.push(lcw[k]);
        k = k + 1;
        assert(res@ =~= lcw@.subrange(0, k as int));
    }
    assert(lcw@.subrange(0, k as int) =~= lcw@);
    res
}

/// Every read of subpass `i` names a registered attachment.
spec fn reads_valid(b: BuilderView, i: int) -> bool {
    forall|k: int| 0 <= k < b.subpasses[i].reads.len() ==> att_valid(b, (#[trigger] b.subpasses[i].reads[k]).attachment)
}

impl RenderGraphBuilder {
    fn write_depth(
        &self,
        i: usize,
        ldw: &mut Vec<Option<SubpassIndex>>,
        writers: &mut Vec<Vec<SubpassIndex>>,
    ) -> (res: Result<Option<TextureFormat>, RenderGraphError>)
        requires
            i < self@.subpasses.len(),
            self@.subpasses.len() <= 32,
            self@.attachments.len() <= u32::MAX,
            self@.subpasses[i as int].writes_depth.len() <= 1,
            color_writes_valid(self@, i as int),
            depth_writers_state(self@, i as nat, old(ldw)@),
            writers_after_colors(self@, i as int, old(writers)@),
        ensures
            match res {
                Ok(format) => {
                    &&& depth_write_check(self@, i as int) is None
                    &&& format == if self@.subpasses[i as int].writes_depth.len() > 0 {
                        Some(att(self@, self@.subpasses[i as int].writes_depth[0]).format)
                    } else {
                        None
                    }
                    &&& depth_writers_state(self@, (i + 1) as nat, final(ldw)@)
                    &&& writers_state(self@, (i + 1) as nat, final(writers)@)
                },
                Err(e) => depth_write_check(self@, i as int) == Some(e),
            },
    {
        let ghost b = self@;
        proof {
            self.lemma_subpass_view(i as int);
        }
        let ghost wc = b.subpasses[i as int].writes_color;
        let ghost wd = b.subpasses[i as int].writes_depth;
        let subpass = &self.subpasses[i];
        if subpass.writes_depth.len() > 0 {
            let attachment_id = subpass.writes_depth[0];
            let attachment = match get_attachment(&self.attachments, attachment_id) {
                Ok(attachment) => attachment,
                Err(e) => return Err(e),
            };
            proof {
                self.lemma_attachment_view(attachment_id);
            }
            match ensure_role(attachment, attachment_id, AttachmentRole::Depth) {
                Ok(_) => {},
                Err(e) => return Err(e),
            }
            let a = attachment_id.0 as usize;
            assert(AttachmentId(a as u32) == attachment_id);
            writers[a].push(SubpassIndex(i as u32));
            ldw.set(a, Some(SubpassIndex(i as u32)));
            proof {
                assert(!wc.contains(attachment_id)) by {
                    if wc.contains(attachment_id) {
                        let q = choose|q: int| 0 <= q < wc.len() && wc[q] == attachment_id;
                        assert(!att(b, wc[q]).is_depth);
                    }
                }
                assert forall|x: int| 0 <= x < writers@.len() implies (#[trigger] writers@[x])@
                    == writers_upto(b, (i + 1) as nat, AttachmentId(x as u32)) by {
                    let id = AttachmentId(x as u32);
                    if x != a {
                        assert(id != attachment_id);
                    }
                }
                assert forall|x: int| 0 <= x < ldw@.len() implies #[trigger] ldw@[x]
                    == depth_writer(b, (i + 1) as nat, AttachmentId(x as u32)) by {
                    let id = AttachmentId(x as u32);
                    if x != a {
                        assert(id != attachment_id);
                    }
                }
            }
            Ok(Some(attachment.format))
        } else {
            proof {
                assert forall|x: int| 0 <= x < writers@.len() implies (#[trigger] writers@[x])@
                    == writers_upto(b, (i + 1) as nat, AttachmentId(x as u32)) by {}
                assert forall|x: int| 0 <= x < ldw@.len() implies #[trigger] ldw@[x]
                    == depth_writer(b, (i + 1) as nat, AttachmentId(x as u32)) by {}
            }
            Ok(None)
        }
    }

    fn resolve_reads(
        &self,
        i: usize,
        lcw: &Vec<Option<(SubpassIndex, u32)>>,
        ldw: &Vec<Option<SubpassIndex>>,
        dependencies: &mut Vec<SubpassDependency>,
    ) -> (res: Result<(Vec<ResolvedRead>, Vec<SubpassInputAttachment>, Vec<TextureFormat>), RenderGraphError>)
        requires
            i < self@.subpasses.len(),
            self@.subpasses.len() <= 32,
            self@.attachments.len() <= u32::MAX,
            color_writers_state(self@, i as nat, lcw@),
            depth_writers_state(self@, i as nat, ldw@),
            old(dependencies)@ == deps_after(self@, i as nat, 0),
        ensures
            match res {
                Ok((resolved, inputs, formats)) => {
                    &&& first_read_error(self@, i as int, 0) is None
                    &&& reads_valid(self@, i as int)
                    &&& resolved@.map_values(|r: ResolvedRead| r.source_subpass) == built_of(self@, i as int).read_sources
                    &&& inputs@ == built_of(self@, i as int).input_attachments
                    &&& formats@ == layout_of(self@, i as int).input_attachment_formats
                    &&& final(dependencies)@ == deps_after(self@, (i + 1) as nat, 0)
                },
                Err(e) => first_read_error(self@, i as int, 0) == Some(e),
            },
    {
        let ghost b = self@;
        proof {
            self.lemma_subpass_view(i as int);
        }
        let ghost reads = b.subpasses[i as int].reads;
        let subpass = &self.subpasses[i];
        let mut resolved: Vec<ResolvedRead> = Vec::new();
        let mut inputs: Vec<SubpassInputAttachment> = Vec::new();
        let mut formats: Vec<TextureFormat> = Vec::new();
        let mut k: usize = 0;
        while k < subpass.reads.len()
            invariant
                b == self@,
                i < b.subpasses.len(),
                b.subpasses.len() <= 32,
                b.attachments.len() <= u32::MAX,
                subpass == &self.subpasses@[i as int],
                reads == b.subpasses[i as int].reads,
                reads.len() == subpass.reads@.len(),
                forall|j: int| 0 <= j < subpass.reads@.len() ==> #[trigger] reads[j] == read_view(subpass.reads@[j]),
                color_writers_state(b, i as nat, lcw@),
                depth_writers_state(b, i as nat, ldw@),
                k <= reads.len(),
                first_read_error(b, i as int, 0) == first_read_error(b, i as int, k as nat),
                forall|j: int| 0 <= j < k ==> att_valid(b, (#[trigger] reads[j]).attachment),
                dependencies@ == deps_after(b, i as nat, k as nat),
                resolved@.len() == k,
                forall|j: int| 0 <= j < k ==> (#[trigger] resolved@[j]).source_subpass
                    == input_source(b, i as int, reads[j]).source_subpass(),
                inputs@.len() == k,
                forall|j: int| 0 <= j < k ==> #[trigger] inputs@[j]
                    == (SubpassInputAttachment { binding: j as u32, source: input_source(b, i as int, reads[j]) }),
                formats@.len() == k,
                forall|j: int| 0 <= j < k ==> #[trigger] formats@[j] == att(b, reads[j].attachment).format,
            decreases reads.len() - k,
        {
            let read = subpass.reads[k];
            let ghost r = reads[k as int];
            assert(r == read_view(read));
            let attachment = match get_attachment(&self.attachments, read.attachment) {
                Ok(attachment) => attachment,
                Err(e) => return Err(e),
            };
            proof {
                self.lemma_attachment_view(read.attachment);
            }
            let expected_role = match read.kind {
                ReadKind::Color => AttachmentRole::Color,
                ReadKind::Depth => AttachmentRole::Depth,
            };
            match ensure_role(attachment, read.attachment, expected_role) {
                Ok(_) => {},
                Err(e) => return Err(e),
            }
            let a = read.attachment.0 as usize;
            assert(AttachmentId(a as u32) == read.attachment);
            let source = match read.kind {
                ReadKind::Color => {
                    match lcw[a] {
                        Some((source_subpass, attachment_index)) => {
                            upsert_dependency(
                                dependencies,
                                source_subpass,
                                SubpassIndex(i as u32),
                                SubpassDependencyType::ColorToInput,
                            );
                            SubpassInputSource::Color { subpass: source_subpass, attachment_index }
                        },
                        None => {
                            return Err(RenderGraphError::ReadBeforeWrite {
                                subpass: SubpassIndex(i as u32),
                                attachment: read.attachment,
                            });
                        },
                    }
                },
                ReadKind::Depth => {
                    match ldw[a] {
                        Some(source_subpass) => {
                            upsert_dependency(
                                dependencies,
                                source_subpass,
                                SubpassIndex(i as u32),
                                SubpassDependencyType::DepthToInput,
                            );
                            SubpassInputSource::Depth { subpass: source_subpass }
                        },
                        None => {
                            return Err(RenderGraphError::ReadBeforeWrite {
                                subpass: SubpassIndex(i as u32),
                                attachment: read.attachment,
                            });
                        },
                    }
                },
            };
            assert(source == input_source(b, i as int, r));
            let source_subpass = match source {
                SubpassInputSource::Color { subpass, .. } => subpass,
                SubpassInputSource::Depth { subpass } => subpass,
            };
            resolved.push(ResolvedRead { source_subpass });
            let binding = inputs.len() as u32;
            inputs.push(SubpassInputAttachment { binding, source });
            formats.push(attachment.format);
            k = k + 1;
        }
        assert(resolved@.map_values(|r: ResolvedRead| r.source_subpass) =~= built_of(b, i as int).read_sources);
        assert(inputs@ =~= built_of(b, i as int).input_attachments);
        assert(formats@ =~= layout_of(b, i as int).input_attachment_formats);
        Ok((resolved, inputs, formats))
    }

    fn depth_read_format(&self, i: usize) -> (res: Option<TextureFormat>)
        requires
            i < self@.subpasses.len(),
            reads_valid(self@, i as int),
        ensures
            res == match find_depth_read(self@.subpasses[i as int].reads, 0) {
                Some(r) => Some(att(self@, r.attachment).format),
                None => None,
            },
    {
        let ghost b = self@;
        proof {
            self.lemma_subpass_view(i as int);
        }
        let ghost reads = b.subpasses[i as int].reads;
        let subpass = &self.subpasses[i];
        let mut k: usize = 0;
        while k < subpass.reads.len()
            invariant
                b == self@,
                i < b.subpasses.len(),
                subpass == &self.subpasses@[i as int],
                reads == b.subpasses[i as int].reads,
                reads.len() == subpass.reads@.len(),
                forall|j: int| 0 <= j < subpass.reads@.len() ==> #[trigger] reads[j] == read_view(subpass.reads@[j]),
                reads_valid(b, i as int),
                k <= reads.len(),
                find_depth_read(reads, 0) == find_depth_read(reads, k as nat),
            decreases reads.len() - k,
        {
            let read = subpass.reads[k];
            assert(reads[k as int] == read_view(read));
            if read.kind == ReadKind::Depth {
                proof {
                    self.lemma_attachment_view(read.attachment);
                }
                return Some(self.attachments[read.attachment.0 as usize].format);
            }
            k = k + 1;
        }
        None
    }
}

impl RenderGraphBuilder {
    fn build_subpass(
        &self,
        i: usize,
        slots: &Vec<Option<u32>>,
        lcw: &mut Vec<Option<(SubpassIndex, u32)>>,
        ldw: &mut Vec<Option<SubpassIndex>>,
        writers: &mut Vec<Vec<SubpassIndex>>,
        dependencies: &mut Vec<SubpassDependency>,
    ) -> (res: Result<(SubpassLayout, BuiltSubpass), RenderGraphError>)
        requires
            i < self@.subpasses.len(),
            self@.subpasses.len() <= 32,
            self@.attachments.len() <= u32::MAX,
            color_slots_state(self@, slots@),
            color_writers_state(self@, i as nat, old(lcw)@),
            depth_writers_state(self@, i as nat, old(ldw)@),
            writers_state(self@, i as nat, old(writers)@),
            old(dependencies)@ == deps_after(self@, i as nat, 0),
        ensures
            match res {
                Ok((layout, built)) => {
                    &&& subpass_error(self@, i as int) is None
                    &&& layout@ == layout_of(self@, i as int)
                    &&& built_view(built) == built_of(self@, i as int)
                    &&& color_writers_state(self@, (i + 1) as nat, final(lcw)@)
                    &&& depth_writers_state(self@, (i + 1) as nat, final(ldw)@)
                    &&& writers_state(self@, (i + 1) as nat, final(writers)@)
                    &&& final(dependencies)@ == deps_after(self@, (i + 1) as nat, 0)
                },
                Err(e) => subpass_error(self@, i as int) == Some(e),
            },
    {
        let ghost b = self@;
        match self.check_depth_counts(i) {
            Ok(_) => {},
            Err(e) => return Err(e),
        }
        let earlier_color_writers = copy_color_writers(lcw);
        let earlier_depth_writers = ldw.clone();
        let (color_formats, color_attachment_indices) = match self.write_colors(i, slots, lcw, writers) {
            Ok(written) => written,
            Err(e) => return Err(e),
        };
        let mut depth_stencil_format = match self.write_depth(i, ldw, writers) {
            Ok(format) => format,
            Err(e) => return Err(e),
        };
        let mut uses_depth_stencil = depth_stencil_format.is_some();
        let (reads, input_attachments, input_attachment_formats) = match self.resolve_reads(
            i,
            &earlier_color_writers,
            &earlier_depth_writers,
            dependencies,
        ) {
            Ok(resolved) => resolved,
            Err(e) => return Err(e),
        };
        if depth_stencil_format.is_none() {
            depth_stencil_format = self.depth_read_format(i);
            if depth_stencil_format.is_some() {
                uses_depth_stencil = true;
            }
        }
        let layout = SubpassLayout {
            color_formats,
            depth_stencil_format,
            sample_count: self.sample_count,
            input_attachment_formats,
        };
        let built = BuiltSubpass { reads, color_attachment_indices, uses_depth_stencil, input_attachments };
        assert(layout@ =~= layout_of(b, i as int));
        assert(built_view(built) =~= built_of(b, i as int));
        Ok((layout, built))
    }

    /// Builds an immutable render graph.
    ///
    /// The result is `Err` exactly when [`build_error`] names an error for the
    /// builder, and that error is the one returned; otherwise the graph is the
    /// [`planned_graph`] of the builder.
    pub fn build(self) -> (res: Result<RenderGraph, RenderGraphError>)
        requires
            self@.attachments.len() <= u32::MAX,
            self@.subpasses.len() <= u32::MAX,
        ensures
            match res {
                Ok(graph) => build_error(self@) is None && graph@ == planned_graph(self@) && graph.wf(),
                Err(e) => build_error(self@) == Some(e),
            },
    {
        let ghost b = self@;
        if self.sample_count == 0 {
            return Err(RenderGraphError::InvalidSampleCount { sample_count: 0 });
        }
        if self.subpasses.len() == 0 {
            return Err(RenderGraphError::NoSubpasses);
        }
        let subpass_count = self.subpasses.len() as u32;
        if subpass_count > ActiveSubpassMask::MAX_SUBPASSES {
            return Err(RenderGraphError::TooManySubpasses {
                count: subpass_count,
                maximum: ActiveSubpassMask::MAX_SUBPASSES,
            });
        }
        let n = self.subpasses.len();
        let natt = self.attachments.len();

        let attachment_labels = self.attachment_labels();
        let subpass_labels = self.subpass_labels();
        let color_attachment_indices = self.color_attachment_slots();

        let mut dependencies: Vec<SubpassDependency> = Vec::new();
        let mut subpass_layouts: Vec<SubpassLayout> = Vec::new();
        let mut built_subpasses: Vec<BuiltSubpass> = Vec::new();
        let mut last_color_writer: Vec<Option<(SubpassIndex, u32)>> = Vec::new();
        let mut last_depth_writer: Vec<Option<SubpassIndex>> = Vec::new();
        let mut writer_subpasses: Vec<Vec<SubpassIndex>> = Vec::new();
        let mut a: usize = 0;
        while a < natt
            invariant
                b == self@,
                natt == b.attachments.len(),
                a <= natt,
                last_color_writer@.len() == a,
                last_depth_writer@.len() == a,
                writer_subpasses@.len() == a,
                forall|x: int| 0 <= x < a ==> (#[trigger] last_color_writer@[x]) is None,
                forall|x: int| 0 <= x < a ==> (#[trigger] last_depth_writer@[x]) is None,
                forall|x: int| 0 <= x < a ==> (#[trigger] writer_subpasses@[x])@.len() == 0,
            decreases natt - a,
        {
            last_color_writer.push(None);
            last_depth_writer.push(None);
            writer_subpasses.push(Vec::new());
            a = a + 1;
        }
        let persistent_outputs = self.persistent_attachments();
        proof {
            assert forall|x: int| 0 <= x < natt implies (#[trigger] writer_subpasses@[x])@
                == writers_upto(b, 0, AttachmentId(x as u32)) by {
                assert(writer_subpasses@[x]@ =~= Seq::<SubpassIndex>::empty());
            }
        }

        let mut i: usize = 0;
        while i < n
            invariant
                b == self@,
                n == b.subpasses.len(),
                natt == b.attachments.len(),
                0 < n <= 32,
                natt <= u32::MAX,
                b.sample_count != 0,
                i <= n,
                color_slots_state(b, color_attachment_indices@),
                color_writers_state(b, i as nat, last_color_writer@),
                depth_writers_state(b, i as nat, last_depth_writer@),
                writers_state(b, i as nat, writer_subpasses@),
                dependencies@ == deps_after(b, i as nat, 0),
                first_subpass_error(b, 0) == first_subpass_error(b, i as nat),
                subpass_layouts@.len() == i,
                forall|j: int| 0 <= j < i ==> (#[trigger] subpass_layouts@[j])@ == layout_of(b, j),
                built_subpasses@.len() == i,
                forall|j: int| 0 <= j < i ==> built_view(#[trigger] built_subpasses@[j]) == built_of(b, j),
            decreases n - i,
        {
            let (layout, built) = match self.build_subpass(
                i,
                &color_attachment_indices,
                &mut last_color_writer,
                &mut last_depth_writer,
                &mut writer_subpasses,
                &mut dependencies,
            ) {
                Ok(subpass) => subpass,
                Err(e) => return Err(e),
            };
            subpass_layouts.push(layout);
            built_subpasses.push(built);
            i = i + 1;
        }

        let mut k: usize = 0;
        proof {
            lemma_persistents_bound(b, natt as nat);
            assert(first_subpass_error(b, n as nat) is None);
            assert(build_error(b) == first_unwritten(b, persistent_outputs@, 0));
        }
        while k < persistent_outputs.len()
            invariant
                b == self@,
                n == b.subpasses.len(),
                natt == b.attachments.len(),
                natt <= u32::MAX,
                writers_state(b, n as nat, writer_subpasses@),
                persistent_outputs@ == persistents_upto(b, natt as nat),
                forall|m: int| 0 <= m < persistent_outputs@.len() ==> (#[trigger] persistent_outputs@[m]).0 < natt,
                k <= persistent_outputs@.len(),
                build_error(b) == first_unwritten(b, persistent_outputs@, k as nat),
            decreases persistent_outputs@.len() - k,
        {
            let attachment = persistent_outputs[k];
            let a = attachment.0 as usize;
            assert(AttachmentId(a as u32) == attachment);
            proof {
                lemma_writers_empty(b, n as nat, attachment);
            }
            if writer_subpasses[a].len() == 0 {
                return Err(RenderGraphError::PersistentNeverWritten { attachment });
            }
            k = k + 1;
        }

        let graph = RenderGraph {
            subpass_count,
            subpass_layouts,
            dependencies,
            sample_count: self.sample_count,
            subpasses: built_subpasses,
            writer_subpasses,
            persistent_outputs,
            attachment_labels,
            subpass_labels,
        };
        proof {
            let g = planned_graph(b);
            assert(graph@.subpass_layouts =~= g.subpass_layouts);
            assert(graph@.subpasses =~= g.subpasses);
            assert(graph@.writer_subpasses =~= g.writer_subpasses);
            assert(graph@ =~= g);
            lemma_planned_graph_wf(self@);
        }
        Ok(graph)
    }
}

// ---------------------------------------------------------------------------
// Facts about valid builders
// ---------------------------------------------------------------------------

/// The internal consistency of a graph that [`RenderGraph::resolve_active`] relies on:
/// every subpass index it holds addresses a mask bit, and every persistent output
/// has a writer list.
pub open spec fn graph_wf(g: RenderGraphView) -> bool {
    &&& g.subpass_count <= 32
    &&& g.subpasses.len() <= 32
    &&& forall|i: int, k: int|
        0 <= i < g.subpasses.len() && 0 <= k < g.subpasses[i].read_sources.len()
            ==> (#[trigger] g.subpasses[i].read_sources[k]).0 < 32
    &&& forall|a: int, m: int|
        0 <= a < g.writer_subpasses.len() && 0 <= m < g.writer_subpasses[a].len()
            ==> (#[trigger] g.writer_subpasses[a][m]).0 < 32
    &&& forall|p: int|
        0 <= p < g.persistent_outputs.len() ==> ((#[trigger] g.persistent_outputs[p]).index() as int) < g.writer_subpasses.len()
}

impl RenderGraph {
    /// The graph is internally consistent (see [`graph_wf`]); every built graph is.
    pub open spec fn wf(&self) -> bool {
        graph_wf(self@)
    }

    /// Number of subpasses in this graph.
    pub fn subpass_count(&self) -> (res: u32)
        ensures
            res == self@.subpass_count,
    {
        self.subpass_count
    }

    /// Sample count propagated to all subpass layouts.
    pub fn sample_count(&self) -> (res: u32)
        ensures
            res == self@.sample_count,
    {
        self.sample_count
    }

    /// Auto-generated dependencies between subpasses.
    pub fn dependencies(&self) -> (res: &[SubpassDependency])
        ensures
            res@ == self@.dependencies,
    {
        self.dependencies.as_slice()
    }

    /// Per-subpass compatibility metadata.
    pub fn subpass_layouts(&self) -> (res: &[SubpassLayout])
        ensures
            res@.map_values(|l: SubpassLayout| l@) == self@.subpass_layouts,
    {
        self.subpass_layouts.as_slice()
    }
}

proof fn lemma_no_subpass_error(b: BuilderView, k: nat, i: int)
    requires
        first_subpass_error(b, k) is None,
        k <= i < b.subpasses.len(),
    ensures
        subpass_error(b, i) is None,
    decreases i - k,
{
    if k < i {
        lemma_no_subpass_error(b, k + 1, i);
    }
}

proof fn lemma_no_read_error(b: BuilderView, i: int, k: nat, j: int)
    requires
        first_read_error(b, i, k) is None,
        k <= j < b.subpasses[i].reads.len(),
    ensures
        read_check(b, i, j) is None,
    decreases j - k,
{
    if k < j {
        lemma_no_read_error(b, i, k + 1, j);
    }
}

proof fn lemma_no_color_write_error(b: BuilderView, i: int, k: nat, j: int)
    requires
        first_color_write_error(b, i, k) is None,
        k <= j < b.subpasses[i].writes_color.len(),
    ensures
        color_write_check(b, i, j) is None,
    decreases j - k,
{
    if k < j {
        lemma_no_color_write_error(b, i, k + 1, j);
    }
}

proof fn lemma_color_writer_bound(b: BuilderView, upto: nat, a: AttachmentId)
    requires
        upto <= u32::MAX,
    ensures
        color_writer(b, upto, a) matches Some(w) ==> w.0.0 < upto && writes_attachment(b, w.0.0 as int, a),
    decreases upto,
{
    if upto > 0 {
        lemma_color_writer_bound(b, (upto - 1) as nat, a);
    }
}

proof fn lemma_depth_writer_bound(b: BuilderView, upto: nat, a: AttachmentId)
    requires
        upto <= u32::MAX,
    ensures
        depth_writer(b, upto, a) matches Some(w) ==> w.0 < upto && writes_attachment(b, w.0 as int, a),
    decreases upto,
{
    if upto > 0 {
        lemma_depth_writer_bound(b, (upto - 1) as nat, a);
    }
}

proof fn lemma_writers_bound(b: BuilderView, upto: nat, a: AttachmentId)
    requires
        upto <= u32::MAX,
    ensures
        forall|m: int| 0 <= m < writers_upto(b, upto, a).len()
            ==> (#[trigger] writers_upto(b, upto, a)[m]).0 < upto,
    decreases upto,
{
    if upto > 0 {
        lemma_writers_bound(b, (upto - 1) as nat, a);
        let prev = writers_upto(b, (upto - 1) as nat, a);
        assert forall|m: int| 0 <= m < writers_upto(b, upto, a).len()
            implies (#[trigger] writers_upto(b, upto, a)[m]).0 < upto by {
            if m < prev.len() {
                assert(writers_upto(b, upto, a)[m] == prev[m]);
            }
        }
    }
}

/// In a valid builder, every read of subpass `i` has a producer before `i`.
proof fn lemma_read_source(b: BuilderView, i: int, k: int)
    requires
        build_error(b) is None,
        0 <= i < b.subpasses.len(),
        0 <= k < b.subpasses[i].reads.len(),
    ensures
        ({
            let r = b.subpasses[i].reads[k];
            let s = input_source(b, i, r).source_subpass();
            &&& s.0 < i
            &&& writes_attachment(b, s.0 as int, r.attachment)
            &&& r.depth ==> depth_writer(b, i as nat, r.attachment) is Some
            &&& !r.depth ==> color_writer(b, i as nat, r.attachment) is Some
        }),
{
    lemma_no_subpass_error(b, 0, i);
    lemma_no_read_error(b, i, 0, k);
    let r = b.subpasses[i].reads[k];
    lemma_color_writer_bound(b, i as nat, r.attachment);
    lemma_depth_writer_bound(b, i as nat, r.attachment);
}

/// Every valid builder plans an internally consistent graph.
proof fn lemma_planned_graph_wf(b: BuilderView)
    requires
        build_error(b) is None,
        b.attachments.len() <= u32::MAX,
    ensures
        graph_wf(planned_graph(b)),
{
    let g = planned_graph(b);
    assert forall|i: int, k: int|
        0 <= i < g.subpasses.len() && 0 <= k < g.subpasses[i].read_sources.len()
            implies (#[trigger] g.subpasses[i].read_sources[k]).0 < 32 by {
        lemma_read_source(b, i, k);
    }
    assert forall|a: int, m: int|
        0 <= a < g.writer_subpasses.len() && 0 <= m < g.writer_subpasses[a].len()
            implies (#[trigger] g.writer_subpasses[a][m]).0 < 32 by {
        lemma_writers_bound(b, b.subpasses.len(), AttachmentId(a as u32));
    }
    lemma_persistents_bound(b, b.attachments.len());
}

// ---------------------------------------------------------------------------
// Graph queries
// ---------------------------------------------------------------------------

/// Borrowed attachment usage of one subpass, as a render pass descriptor expects it.
#[derive(Clone, Copy, Debug)]
pub struct SubpassDescriptor<'a> {
    /// Render pass color attachment slots written by the subpass.
    pub color_attachment_indices: &'a [u32],
    /// Whether the subpass uses the depth/stencil attachment.
    pub uses_depth_stencil: bool,
    /// Input attachments read by the subpass.
    pub input_attachments: &'a [SubpassInputAttachment],
}

/// Borrowed descriptor views derived from a [`RenderGraph`].
///
/// This bridges the graph's immutable representation into the attachment-index
/// structures expected by a render pass descriptor.
#[derive(Debug)]
pub struct RenderGraphDescriptorViews<'a> {
    /// Subpass descriptors for the render pass.
    pub subpasses: Vec<SubpassDescriptor<'a>>,
    /// Dependencies between the subpasses.
    pub subpass_dependencies: &'a [SubpassDependency],
    /// Compatibility layouts generated at build-time.
    pub subpass_layouts: &'a [SubpassLayout],
}

/// True when subpass `i` appears in `active`.
pub open spec fn is_listed(active: Seq<SubpassIndex>, i: u32) -> bool {
    exists|k: int| 0 <= k < active.len() && active[k].0 == i
}

/// The first entry of `active[k..]` that is not a subpass of `g`.
pub open spec fn first_out_of_range(g: RenderGraphView, active: Seq<SubpassIndex>, k: nat) -> Option<SubpassCullError>
    decreases active.len() - k,
{
    if k >= active.len() {
        None
    } else if active[k as int].0 >= g.subpass_count {
        Some(SubpassCullError::InvalidSubpassIndex { subpass: active[k as int], subpass_count: g.subpass_count })
    } else {
        first_out_of_range(g, active, k + 1)
    }
}

/// The first producer among `sources[k..]` that `active` culls.
pub open spec fn first_culled_source(sources: Seq<SubpassIndex>, active: Seq<SubpassIndex>, k: nat) -> Option<SubpassIndex>
    decreases sources.len() - k,
{
    if k >= sources.len() {
        None
    } else if !is_listed(active, sources[k as int].0) {
        Some(sources[k as int])
    } else {
        first_culled_source(sources, active, k + 1)
    }
}

/// The first active subpass from subpass `i` on that reads from a culled producer.
pub open spec fn first_culled_read(g: RenderGraphView, active: Seq<SubpassIndex>, i: nat) -> Option<SubpassCullError>
    decreases g.subpasses.len() - i,
{
    if i >= g.subpasses.len() {
        None
    } else if is_listed(active, i as u32) && first_culled_source(g.subpasses[i as int].read_sources, active, 0) is Some {
        Some(SubpassCullError::ActiveReadsFromCulled {
            active: SubpassIndex(i as u32),
            culled: first_culled_source(g.subpasses[i as int].read_sources, active, 0)->0,
        })
    } else {
        first_culled_read(g, active, i + 1)
    }
}

/// Some writer of attachment `a` stays active.
pub open spec fn has_active_writer(g: RenderGraphView, active: Seq<SubpassIndex>, a: AttachmentId) -> bool {
    exists|m: int| 0 <= m < g.writer_subpasses[a.index() as int].len()
        && is_listed(active, g.writer_subpasses[a.index() as int][m].0)
}

/// The first persistent output from position `p` on that loses all its writers.
pub open spec fn first_culled_output(g: RenderGraphView, active: Seq<SubpassIndex>, p: nat) -> Option<SubpassCullError>
    decreases g.persistent_outputs.len() - p,
{
    if p >= g.persistent_outputs.len() {
        None
    } else if !has_active_writer(g, active, g.persistent_outputs[p as int]) {
        Some(SubpassCullError::PersistentOutputCulled { attachment: g.persistent_outputs[p as int] })
    } else {
        first_culled_output(g, active, p + 1)
    }
}

/// What resolving the subpasses listed in `active` against `g` yields.
///
/// Checks run in this order: every listed index is a subpass of the graph; no
/// active subpass (in subpass order, reads in declaration order) reads from a
/// culled producer; every persistent output (in registration order) keeps an
/// active writer. On success the mask has exactly the listed bits set.
pub open spec fn resolve_result(g: RenderGraphView, active: Seq<SubpassIndex>) -> Result<ActiveSubpassMask, SubpassCullError> {
    if first_out_of_range(g, active, 0) is Some {
        Err(first_out_of_range(g, active, 0)->0)
    } else if first_culled_read(g, active, 0) is Some {
        Err(first_culled_read(g, active, 0)->0)
    } else if first_culled_output(g, active, 0) is Some {
        Err(first_culled_output(g, active, 0)->0)
    } else {
        Ok(ActiveSubpassMask(crate::active_mask::indices_bits(active)))
    }
}

impl RenderGraph {
    /// Returns borrowed subpass/dependency/layout views suitable for a render pass descriptor.
    pub fn descriptor_views(&self) -> (res: RenderGraphDescriptorViews<'_>)
        ensures
            res.subpasses@.len() == self@.subpasses.len(),
            forall|i: int| 0 <= i < res.subpasses@.len() ==> {
                &&& (#[trigger] res.subpasses@[i]).color_attachment_indices@ == self@.subpasses[i].color_attachment_indices
                &&& res.subpasses@[i].uses_depth_stencil == self@.subpasses[i].uses_depth_stencil
                &&& res.subpasses@[i].input_attachments@ == self@.subpasses[i].input_attachments
            },
            res.subpass_dependencies@ == self@.dependencies,
            res.subpass_layouts@.map_values(|l: SubpassLayout| l@) == self@.subpass_layouts,
    {
        let mut subpasses: Vec<SubpassDescriptor<'_>> = Vec::new();
        let mut i: usize = 0;
        while i < self.subpasses.len()
            invariant
                i <= self.subpasses@.len(),
                subpasses@.len() == i,
                forall|j: int| 0 <= j < i ==> {
                    &&& (#[trigger] subpasses@[j]).color_attachment_indices@ == self.subpasses@[j].color_attachment_indices@
                    &&& subpasses@[j].uses_depth_stencil == self.subpasses@[j].uses_depth_stencil
                    &&& subpasses@[j].input_attachments@ == self.subpasses@[j].input_attachments@
                },
            decreases self.subpasses@.len() - i,
        {
            let subpass = &self.subpasses[i];
            subpasses.push(SubpassDescriptor {
                color_attachment_indices: subpass.color_attachment_indices.as_slice(),
                uses_depth_stencil: subpass.uses_depth_stencil,
                input_attachments: subpass.input_attachments.as_slice(),
            });
            i = i + 1;
        }
        RenderGraphDescriptorViews {
            subpasses,
            subpass_dependencies: self.dependencies.as_slice(),
            subpass_layouts: self.subpass_layouts.as_slice(),
        }
    }

    /// Builds a [`SubpassTarget`] compatible with this graph.
    ///
    /// Each subpass description lists, per input attachment, the index of the
    /// subpass that produces it.
    pub fn make_subpass_target(
        &self,
        index: u32,
        color_attachment_formats: &[Option<TextureFormat>],
        depth_stencil_format: Option<TextureFormat>,
    ) -> (res: SubpassTarget)
        ensures
            res.index == index,
            res.color_attachment_formats@ == color_attachment_formats@,
            res.depth_stencil_format == depth_stencil_format,
            res.subpass_descs@.len() == self@.subpasses.len(),
            forall|i: int| 0 <= i < res.subpass_descs@.len() ==> {
                &&& (#[trigger] res.subpass_descs@[i]).color_attachment_indices@ == self@.subpasses[i].color_attachment_indices
                &&& res.subpass_descs@[i].uses_depth_stencil == self@.subpasses[i].uses_depth_stencil
                &&& res.subpass_descs@[i].input_attachment_indices@ == self@.subpasses[i].input_attachments.map_values(
                    |input: SubpassInputAttachment| input.source.source_subpass().0,
                )
            },
            res.dependencies@ == self@.dependencies,
    {
        let mut subpass_descs: Vec<SubpassTargetDesc> = Vec::new();
        let mut i: usize = 0;
        while i < self.subpasses.len()
            invariant
                i <= self.subpasses@.len(),
                subpass_descs@.len() == i,
                forall|j: int| 0 <= j < i ==> {
                    &&& (#[trigger] subpass_descs@[j]).color_attachment_indices@ == self.subpasses@[j].color_attachment_indices@
                    &&& subpass_descs@[j].uses_depth_stencil == self.subpasses@[j].uses_depth_stencil
                    &&& subpass_descs@[j].input_attachment_indices@ == self.subpasses@[j].input_attachments@.map_values(
                        |input: SubpassInputAttachment| input.source.source_subpass().0,
                    )
                },
            decreases self.subpasses@.len() - i,
        {
            let subpass = &self.subpasses[i];
            let mut input_attachment_indices: Vec<u32> = Vec::new();
            let mut k: usize = 0;
            while k < subpass.input_attachments.len()
                invariant
                    k <= subpass.input_attachments@.len(),
                    input_attachment_indices@ =~= subpass.input_attachments@.subrange(0, k as int).map_values(
                        |input: SubpassInputAttachment| input.source.source_subpass().0,
                    ),
                decreases subpass.input_attachments@.len() - k,
            {
                let source_subpass = match subpass.input_attachments[k].source {
                    SubpassInputSource::Color { subpass, .. } => subpass,
                    SubpassInputSource::Depth { subpass } => subpass,
                };
                input_attachment_indices.push(source_subpass.0);
                k = k + 1;
            }
            assert(subpass.input_attachments@.subrange(0, k as int) =~= subpass.input_attachments@);
            subpass_descs.push(SubpassTargetDesc {
                color_attachment_indices: subpass.color_attachment_indices.clone(),
                uses_depth_stencil: subpass.uses_depth_stencil,
                input_attachment_indices,
            });
            i = i + 1;
        }
        let mut formats: Vec<Option<TextureFormat>> = Vec::new();
        let mut k: usize = 0;
        while k < color_attachment_formats.len()
            invariant
                k <= color_attachment_formats@.len(),
                formats@ =~= color_attachment_formats@.subrange(0, k as int),
            decreases color_attachment_formats@.len() - k,
        {
            formats.push(color_attachment_formats[k]);
            k = k + 1;
        }
        assert(color_attachment_formats@.subrange(0, k as int) =~= color_attachment_formats@);
        SubpassTarget {
            index,
            color_attachment_formats: formats,
            depth_stencil_format,
            subpass_descs,
            dependencies: self.dependencies.clone(),
        }
    }

    /// Returns the label associated with an attachment id.
    pub fn attachment_label(&self, attachment: AttachmentId) -> (res: Option<&str>)
        ensures
            match res {
                Some(label) => (attachment.index() as int) < self@.attachment_labels.len()
                    && label@ == self@.attachment_labels[attachment.index() as int],
                None => (attachment.index() as int) >= self@.attachment_labels.len(),
            },
    {
        if (attachment.0 as usize) < self.attachment_labels.len() {
            Some(self.attachment_labels[attachment.0 as usize].as_str())
        } else {
            None
        }
    }

    /// Returns the label associated with a subpass index.
    pub fn subpass_label(&self, subpass: SubpassIndex) -> (res: Option<&str>)
        ensures
            match res {
                Some(label) => (subpass.0 as int) < self@.subpass_labels.len()
                    && label@ == self@.subpass_labels[subpass.0 as int],
                None => (subpass.0 as int) >= self@.subpass_labels.len(),
            },
    {
        if (subpass.0 as usize) < self.subpass_labels.len() {
            Some(self.subpass_labels[subpass.0 as usize].as_str())
        } else {
            None
        }
    }

    /// Resolves a list of active subpasses into an [`ActiveSubpassMask`].
    ///
    /// Validation rules:
    /// - Active subpasses must not read from culled producer subpasses.
    /// - Every persistent output attachment must keep at least one active writer.
    pub fn resolve_active(&self, active: &[SubpassIndex]) -> (res: Result<ActiveSubpassMask, SubpassCullError>)
        requires
            self.wf(),
        ensures
            res == resolve_result(self@, active@),
    {
        let ghost g = self@;
        let mut mask = ActiveSubpassMask::none();
        let mut k: usize = 0;
        while k < active.len()
            invariant
                g == self@,
                graph_wf(g),
                k <= active@.len(),
                mask.0 == crate::active_mask::indices_bits(active@.subrange(0, k as int)),
                forall|j: u32| #[trigger] mask.has(j) == (j < 32 && exists|m: int| 0 <= m < k && active@[m].0 == j),
                first_out_of_range(g, active@, 0) == first_out_of_range(g, active@, k as nat),
            decreases active@.len() - k,
        {
            let subpass = active[k];
            if subpass.0 >= self.subpass_count {
                return Err(SubpassCullError::InvalidSubpassIndex { subpass, subpass_count: self.subpass_count });
            }
            let ghost prev = mask;
            mask = mask.with(subpass);
            proof {
                let next = active@.subrange(0, k + 1);
                assert(next.drop_last() =~= active@.subrange(0, k as int));
                assert forall|j: u32| #[trigger] mask.has(j) == (j < 32 && exists|m: int| 0 <= m < k + 1 && active@[m].0 == j) by {
                    if j < 32 && j != subpass.0 && (exists|m: int| 0 <= m < k + 1 && active@[m].0 == j) {
                        let m = choose|m: int| 0 <= m < k + 1 && active@[m].0 == j;
                        assert(m < k);
                        assert(prev.has(j));
                    }
                }
            }
            k = k + 1;
        }
        assert(active@.subrange(0, k as int) =~= active@);
        assert(first_out_of_range(g, active@, 0) is None);

        let mut i: usize = 0;
        while i < self.subpasses.len()
            invariant
                g == self@,
                graph_wf(g),
                mask.0 == crate::active_mask::indices_bits(active@),
                forall|j: u32| #[trigger] mask.has(j) == (j < 32 && is_listed(active@, j)),
                first_out_of_range(g, active@, 0) is None,
                i <= self.subpasses@.len(),
                first_culled_read(g, active@, 0) == first_culled_read(g, active@, i as nat),
            decreases self.subpasses@.len() - i,
        {
            let active_subpass = SubpassIndex(i as u32);
            if mask.is_active(active_subpass) {
                let subpass = &self.subpasses[i];
                let ghost sources = g.subpasses[i as int].read_sources;
                let mut r: usize = 0;
                while r < subpass.reads.len()
                    invariant
                        g == self@,
                        graph_wf(g),
                        i < self.subpasses@.len(),
                        subpass == &self.subpasses@[i as int],
                        sources == g.subpasses[i as int].read_sources,
                        sources =~= subpass.reads@.map_values(|rr: ResolvedRead| rr.source_subpass),
                        forall|j: u32| #[trigger] mask.has(j) == (j < 32 && is_listed(active@, j)),
                        r <= subpass.reads@.len(),
                        first_culled_source(sources, active@, 0) == first_culled_source(sources, active@, r as nat),
                        first_out_of_range(g, active@, 0) is None,
                        first_culled_read(g, active@, 0) == first_culled_read(g, active@, i as nat),
                        is_listed(active@, i as u32),
                        i < 32,
                        i < g.subpasses.len(),
                        active_subpass == SubpassIndex(i as u32),
                    decreases subpass.reads@.len() - r,
                {
                    let read = subpass.reads[r];
                    assert(sources[r as int] == read.source_subpass);
                    if !mask.is_active(read.source_subpass) {
                        proof {
                            assert(!is_listed(active@, sources[r as int].0));
                            assert(first_culled_source(sources, active@, r as nat) == Some(read.source_subpass));
                        }
                        return Err(SubpassCullError::ActiveReadsFromCulled {
                            active: active_subpass,
                            culled: read.source_subpass,
                        });
                    }
                    r = r + 1;
                }
            }
            i = i + 1;
        }

        let mut p: usize = 0;
        while p < self.persistent_outputs.len()
            invariant
                g == self@,
                graph_wf(g),
                mask.0 == crate::active_mask::indices_bits(active@),
                forall|j: u32| #[trigger] mask.has(j) == (j < 32 && is_listed(active@, j)),
                first_out_of_range(g, active@, 0) is None,
                first_culled_read(g, active@, 0) is None,
                p <= self.persistent_outputs@.len(),
                first_culled_output(g, active@, 0) == first_culled_output(g, active@, p as nat),
            decreases self.persistent_outputs@.len() - p,
        {
            let persistent = self.persistent_outputs[p];
            assert(g.persistent_outputs[p as int] == persistent);
            let writers = &self.writer_subpasses[persistent.0 as usize];
            let ghost ws = g.writer_subpasses[persistent.0 as int];
            assert(ws == writers@);
            let mut has_active_writer = false;
            let mut m: usize = 0;
            while m < writers.len()
                invariant
                    graph_wf(g),
                    (persistent.0 as int) < g.writer_subpasses.len(),
                    ws == g.writer_subpasses[persistent.0 as int],
                    ws == writers@,
                    forall|j: u32| #[trigger] mask.has(j) == (j < 32 && is_listed(active@, j)),
                    m <= writers@.len(),
                    has_active_writer == exists|q: int| 0 <= q < m && is_listed(active@, ws[q].0),
                decreases writers@.len() - m,
            {
                assert(ws[m as int].0 < 32);
                if mask.is_active(writers[m]) {
                    has_active_writer = true;
                }
                m = m + 1;
            }
            assert(persistent.index() == persistent.0);
            assert(has_active_writer == crate::render_graph::has_active_writer(g, active@, persistent));
            if !has_active_writer {
                return Err(SubpassCullError::PersistentOutputCulled { attachment: persistent });
            }
            p = p + 1;
        }
        Ok(mask)
    }
}

// ---------------------------------------------------------------------------
// Laws of built graphs
// ---------------------------------------------------------------------------

/// The producer subpass of read `r` of subpass `j`.
pub open spec fn read_source(b: BuilderView, j: int, r: int) -> SubpassIndex {
    input_source(b, j, b.subpasses[j].reads[r]).source_subpass()
}

/// Dependency `d` goes from `src` to `dst`.
pub open spec fn dep_matches(d: SubpassDependency, src: SubpassIndex, dst: SubpassIndex) -> bool {
    d.src_subpass == src && d.dst_subpass == dst
}

/// Read `r` of subpass `j` comes before read `k` of subpass `i` in build order.
spec fn read_processed(b: BuilderView, i: nat, k: nat, j: int, r: int) -> bool {
    ||| (0 <= j < i && 0 <= r < b.subpasses[j].reads.len())
    ||| (j == i && 0 <= r < k && r < b.subpasses[j].reads.len())
}

/// Some dependency of `deps` goes from `src` to `dst`.
pub open spec fn has_dependency(deps: Seq<SubpassDependency>, src: SubpassIndex, dst: SubpassIndex) -> bool {
    exists|m: int| 0 <= m < deps.len() && #[trigger] dep_matches(deps[m], src, dst)
}

spec fn pair_justified(b: BuilderView, src: SubpassIndex, dst: SubpassIndex, i: nat, k: nat) -> bool {
    exists|r: int| #[trigger] read_processed(b, i, k, dst.0 as int, r) && read_source(b, dst.0 as int, r) == src
}

spec fn deps_by_region(deps: Seq<SubpassDependency>) -> bool {
    forall|m: int| 0 <= m < deps.len() ==> (#[trigger] deps[m]).by_region
}

spec fn deps_distinct(deps: Seq<SubpassDependency>) -> bool {
    forall|m1: int, m2: int|
        0 <= m1 < deps.len() && 0 <= m2 < deps.len() && m1 != m2
            ==> !dep_matches(#[trigger] deps[m1], (#[trigger] deps[m2]).src_subpass, deps[m2].dst_subpass)
}

spec fn deps_complete(b: BuilderView, deps: Seq<SubpassDependency>, i: nat, k: nat) -> bool {
    forall|j: int, r: int| #[trigger] read_processed(b, i, k, j, r)
        ==> has_dependency(deps, read_source(b, j, r), SubpassIndex(j as u32))
}

spec fn deps_justified(b: BuilderView, deps: Seq<SubpassDependency>, i: nat, k: nat) -> bool {
    forall|m: int| 0 <= m < deps.len()
        ==> pair_justified(b, (#[trigger] deps[m]).src_subpass, deps[m].dst_subpass, i, k)
}

spec fn deps_invariant(b: BuilderView, deps: Seq<SubpassDependency>, i: nat, k: nat) -> bool {
    &&& deps_by_region(deps)
    &&& deps_distinct(deps)
    &&& deps_complete(b, deps, i, k)
    &&& deps_justified(b, deps, i, k)
}

proof fn lemma_find_dependency(deps: Seq<SubpassDependency>, src: SubpassIndex, dst: SubpassIndex, k: nat)
    ensures
        match find_dependency(deps, src, dst, k) {
            Some(m) => k <= m < deps.len() && dep_matches(deps[m as int], src, dst),
            None => forall|m: int| k <= m < deps.len() ==> !dep_matches(#[trigger] deps[m], src, dst),
        },
    decreases deps.len() - k,
{
    if k < deps.len() {
        lemma_find_dependency(deps, src, dst, k + 1);
    }
}

/// Recording a dependency keeps the pairs already present, and leaves one
/// (returned) entry for the recorded pair; a new entry is by-region and is only
/// added when the pair was missing.
proof fn lemma_upsert(
    prev: Seq<SubpassDependency>,
    src: SubpassIndex,
    dst: SubpassIndex,
    ty: SubpassDependencyType,
) -> (w: int)
    ensures
        ({
            let deps = upsert(prev, src, dst, ty);
            &&& 0 <= w < deps.len()
            &&& dep_matches(deps[w], src, dst)
            &&& deps.len() == prev.len() || (deps.len() == prev.len() + 1 && w == prev.len()
                && deps[w].by_region && !has_dependency(prev, src, dst))
            &&& forall|m: int| 0 <= m < prev.len() ==> (#[trigger] deps[m]).src_subpass == prev[m].src_subpass
                && deps[m].dst_subpass == prev[m].dst_subpass && deps[m].by_region == prev[m].by_region
            &&& forall|m: int| 0 <= m < prev.len() && m != w ==> #[trigger] deps[m] == prev[m]
            &&& deps[w].dependency_type == if deps.len() == prev.len() {
                merge_type(prev[w].dependency_type, ty)
            } else {
                ty
            }
        }),
{
    lemma_find_dependency(prev, src, dst, 0);
    match find_dependency(prev, src, dst, 0) {
        Some(k) => k as int,
        None => prev.len() as int,
    }
}

proof fn lemma_deps_step(b: BuilderView, i: nat, pk: nat)
    requires
        build_error(b) is None,
        i < b.subpasses.len(),
        pk < b.subpasses[i as int].reads.len(),
        deps_invariant(b, deps_after(b, i, pk), i, pk),
    ensures
        deps_invariant(b, deps_after(b, i, pk + 1), i, pk + 1),
{
    assert(b.subpasses.len() <= 32);
    let prev = deps_after(b, i, pk);
    let k = pk + 1;
    let rd = b.subpasses[i as int].reads[pk as int];
    let src = read_source(b, i as int, pk as int);
    let dst = SubpassIndex(i as u32);
    let deps = deps_after(b, i, k);
    assert(deps == upsert(prev, src, dst, read_dependency_type(rd)));
    let w = lemma_upsert(prev, src, dst, read_dependency_type(rd));
    assert(deps_by_region(deps)) by {
        assert forall|m: int| 0 <= m < deps.len() implies (#[trigger] deps[m]).by_region by {
            if m < prev.len() {
                assert(prev[m].by_region);
            }
        }
    }
    assert(deps_distinct(deps)) by {
        assert forall|m1: int, m2: int|
            0 <= m1 < deps.len() && 0 <= m2 < deps.len() && m1 != m2
                implies !dep_matches(#[trigger] deps[m1], (#[trigger] deps[m2]).src_subpass, deps[m2].dst_subpass) by {
            if m1 < prev.len() && m2 < prev.len() {
                assert(!dep_matches(prev[m1], prev[m2].src_subpass, prev[m2].dst_subpass));
            } else if m1 < prev.len() {
                assert(!dep_matches(prev[m1], src, dst));
            } else {
                assert(!dep_matches(prev[m2], src, dst));
            }
        }
    }
    assert(deps_complete(b, deps, i, k)) by {
        assert forall|j: int, r: int| #[trigger] read_processed(b, i, k, j, r)
            implies has_dependency(deps, read_source(b, j, r), SubpassIndex(j as u32)) by {
            if j == i && r == pk {
                assert(dep_matches(deps[w], read_source(b, j, r), SubpassIndex(j as u32)));
            } else {
                assert(read_processed(b, i, pk, j, r));
                assert(has_dependency(prev, read_source(b, j, r), SubpassIndex(j as u32)));
                let m = choose|m: int| 0 <= m < prev.len()
                    && #[trigger] dep_matches(prev[m], read_source(b, j, r), SubpassIndex(j as u32));
                assert(dep_matches(deps[m], read_source(b, j, r), SubpassIndex(j as u32)));
            }
        }
    }
    assert(deps_justified(b, deps, i, k)) by {
        assert forall|m: int| 0 <= m < deps.len()
            implies pair_justified(b, (#[trigger] deps[m]).src_subpass, deps[m].dst_subpass, i, k) by {
            if m < prev.len() {
                let p = prev[m];
                assert(pair_justified(b, p.src_subpass, p.dst_subpass, i, pk));
                let r = choose|r: int| #[trigger] read_processed(b, i, pk, p.dst_subpass.0 as int, r)
                    && read_source(b, p.dst_subpass.0 as int, r) == p.src_subpass;
                assert(read_processed(b, i, k, deps[m].dst_subpass.0 as int, r));
            } else {
                assert(m == w);
                assert(read_processed(b, i, k, i as int, pk as int));
                assert(deps[m].dst_subpass.0 as int == i);
            }
        }
    }
}

proof fn lemma_deps_shift(b: BuilderView, i: nat)
    requires
        0 < i <= b.subpasses.len(),
        deps_invariant(b, deps_after(b, (i - 1) as nat, b.subpasses[i - 1].reads.len()), (i - 1) as nat,
            b.subpasses[i - 1].reads.len()),
    ensures
        deps_invariant(b, deps_after(b, i, 0), i, 0),
{
    let pi = (i - 1) as nat;
    let pk = b.subpasses[pi as int].reads.len();
    let deps = deps_after(b, i, 0);
    assert(deps == deps_after(b, pi, pk));
    assert forall|j: int, r: int|
        #![trigger read_processed(b, i, 0, j, r)]
        #![trigger read_processed(b, pi, pk, j, r)]
        read_processed(b, i, 0, j, r) == read_processed(b, pi, pk, j, r) by {}
    assert(deps_complete(b, deps, i, 0)) by {
        assert forall|j: int, r: int| #[trigger] read_processed(b, i, 0, j, r)
            implies has_dependency(deps, read_source(b, j, r), SubpassIndex(j as u32)) by {
            assert(read_processed(b, pi, pk, j, r));
        }
    }
    assert(deps_justified(b, deps, i, 0)) by {
        assert forall|m: int| 0 <= m < deps.len()
            implies pair_justified(b, (#[trigger] deps[m]).src_subpass, deps[m].dst_subpass, i, 0) by {
            let p = deps[m];
            assert(pair_justified(b, p.src_subpass, p.dst_subpass, pi, pk));
            let r = choose|r: int| #[trigger] read_processed(b, pi, pk, p.dst_subpass.0 as int, r)
                && read_source(b, p.dst_subpass.0 as int, r) == p.src_subpass;
            assert(read_processed(b, i, 0, p.dst_subpass.0 as int, r));
        }
    }
}

proof fn lemma_deps_after(b: BuilderView, i: nat, k: nat)
    requires
        build_error(b) is None,
        (i < b.subpasses.len() && k <= b.subpasses[i as int].reads.len()) || (i == b.subpasses.len() && k == 0),
    ensures
        deps_invariant(b, deps_after(b, i, k), i, k),
    decreases i, k,
{
    if k == 0 {
        if i == 0 {
            let deps = deps_after(b, 0, 0);
            assert(deps =~= Seq::<SubpassDependency>::empty());
            assert forall|j: int, r: int| #[trigger] read_processed(b, 0, 0, j, r)
                implies has_dependency(deps, read_source(b, j, r), SubpassIndex(j as u32)) by {}
        } else {
            lemma_deps_after(b, (i - 1) as nat, b.subpasses[i - 1].reads.len());
            lemma_deps_shift(b, i);
        }
    } else {
        lemma_deps_after(b, i, (k - 1) as nat);
        lemma_deps_step(b, i, (k - 1) as nat);
    }
}

/// Read `r` of the destination of `d` takes its input from the source of `d`.
pub open spec fn read_behind(b: BuilderView, d: SubpassDependency, r: int) -> bool {
    &&& 0 <= r < b.subpasses[d.dst_subpass.0 as int].reads.len()
    &&& read_source(b, d.dst_subpass.0 as int, r) == d.src_subpass
}

/// Some read behind `d` is a depth read (`depth`) or a color read (`!depth`).
pub open spec fn has_read_behind(b: BuilderView, d: SubpassDependency, depth: bool) -> bool {
    exists|r: int| #[trigger] read_behind(b, d, r) && b.subpasses[d.dst_subpass.0 as int].reads[r].depth == depth
}

/// The kind of a dependency whose reads include color reads (`color`) and
/// depth reads (`depth`).
pub open spec fn kind_of(color: bool, depth: bool) -> SubpassDependencyType {
    if color && depth {
        SubpassDependencyType::ColorDepthToInput
    } else if depth {
        SubpassDependencyType::DepthToInput
    } else {
        SubpassDependencyType::ColorToInput
    }
}

/// Some read behind `d1` is declared before read `r2` of the destination of `d2`.
pub open spec fn read_behind_earlier(b: BuilderView, d1: SubpassDependency, d2: SubpassDependency, r2: int) -> bool {
    exists|r1: int| #[trigger] read_behind(b, d1, r1)
        && read_before(d1.dst_subpass.0 as int, r1, d2.dst_subpass.0 as int, r2)
}

/// Read `r1` of subpass `j1` is declared before read `r2` of subpass `j2`.
pub open spec fn read_before(j1: int, r1: int, j2: int, r2: int) -> bool {
    j1 < j2 || (j1 == j2 && r1 < r2)
}

/// Read `r` stands behind `d` and comes before read `k` of subpass `i`.
spec fn behind_upto(b: BuilderView, d: SubpassDependency, i: nat, k: nat, r: int) -> bool {
    &&& read_processed(b, i, k, d.dst_subpass.0 as int, r)
    &&& read_source(b, d.dst_subpass.0 as int, r) == d.src_subpass
}

spec fn has_behind_upto(b: BuilderView, d: SubpassDependency, i: nat, k: nat, depth: bool) -> bool {
    exists|r: int| #[trigger] behind_upto(b, d, i, k, r) && b.subpasses[d.dst_subpass.0 as int].reads[r].depth == depth
}

spec fn deps_kinds(b: BuilderView, deps: Seq<SubpassDependency>, i: nat, k: nat) -> bool {
    forall|m: int| 0 <= m < deps.len() ==> (#[trigger] deps[m]).dependency_type
        == kind_of(has_behind_upto(b, deps[m], i, k, false), has_behind_upto(b, deps[m], i, k, true))
}

spec fn earlier_behind_upto(b: BuilderView, d1: SubpassDependency, d2: SubpassDependency, r2: int, i: nat, k: nat) -> bool {
    exists|r1: int| #[trigger] behind_upto(b, d1, i, k, r1)
        && read_before(d1.dst_subpass.0 as int, r1, d2.dst_subpass.0 as int, r2)
}

spec fn deps_ordered(b: BuilderView, deps: Seq<SubpassDependency>, i: nat, k: nat) -> bool {
    forall|m1: int, m2: int, r2: int|
        #![trigger deps[m1], behind_upto(b, deps[m2], i, k, r2)]
        0 <= m1 < m2 < deps.len() && behind_upto(b, deps[m2], i, k, r2)
            ==> earlier_behind_upto(b, deps[m1], deps[m2], r2, i, k)
}

proof fn lemma_kinds_step(b: BuilderView, i: nat, pk: nat)
    requires
        build_error(b) is None,
        i < b.subpasses.len(),
        pk < b.subpasses[i as int].reads.len(),
        deps_invariant(b, deps_after(b, i, pk), i, pk),
        deps_kinds(b, deps_after(b, i, pk), i, pk),
        deps_ordered(b, deps_after(b, i, pk), i, pk),
    ensures
        deps_kinds(b, deps_after(b, i, pk + 1), i, pk + 1),
        deps_ordered(b, deps_after(b, i, pk + 1), i, pk + 1),
{
    assert(b.subpasses.len() <= 32);
    let prev = deps_after(b, i, pk);
    let k = pk + 1;
    let rd = b.subpasses[i as int].reads[pk as int];
    let src = read_source(b, i as int, pk as int);
    let dst = SubpassIndex(i as u32);
    let ty = read_dependency_type(rd);
    let deps = deps_after(b, i, k);
    assert(deps == upsert(prev, src, dst, ty));
    let w = lemma_upsert(prev, src, dst, ty);
    lemma_deps_step(b, i, pk);
    // The reads behind a dependency grow only by the new read, and only for the
    // recorded pair.
    assert forall|d: SubpassDependency, r: int| #[trigger] behind_upto(b, d, i, k, r)
        implies behind_upto(b, d, i, pk, r) || (r == pk && dep_matches(d, src, dst)) by {
        if !behind_upto(b, d, i, pk, r) {
            assert(d.dst_subpass.0 as int == i && r == pk);
            assert(d.dst_subpass == dst);
        }
    }
    assert forall|d: SubpassDependency, r: int| #[trigger] behind_upto(b, d, i, pk, r)
        implies behind_upto(b, d, i, k, r) by {}
    assert(behind_upto(b, deps[w], i, k, pk as int));
    // A pair that was missing had no read behind it.
    if deps.len() != prev.len() {
        assert forall|r: int| !#[trigger] behind_upto(b, deps[w], i, pk, r) by {
            if behind_upto(b, deps[w], i, pk, r) {
                assert(read_processed(b, i, pk, i as int, r));
                assert(has_dependency(prev, read_source(b, i as int, r), SubpassIndex(i as u32)));
            }
        }
    }
    assert(deps_kinds(b, deps, i, k)) by {
        assert forall|m: int| 0 <= m < deps.len() implies (#[trigger] deps[m]).dependency_type
            == kind_of(has_behind_upto(b, deps[m], i, k, false), has_behind_upto(b, deps[m], i, k, true)) by {
            let d = deps[m];
            if m != w {
                assert(d == prev[m]);
                assert(!dep_matches(d, src, dst)) by {
                    assert(deps_distinct(deps));
                    assert(!dep_matches(deps[m], deps[w].src_subpass, deps[w].dst_subpass));
                }
                assert(prev[m].dependency_type
                    == kind_of(has_behind_upto(b, prev[m], i, pk, false), has_behind_upto(b, prev[m], i, pk, true)));
                assert forall|depth: bool| has_behind_upto(b, d, i, k, depth) == has_behind_upto(b, d, i, pk, depth) by {
                    if has_behind_upto(b, d, i, k, depth) {
                        let r = choose|r: int| #[trigger] behind_upto(b, d, i, k, r)
                            && b.subpasses[d.dst_subpass.0 as int].reads[r].depth == depth;
                        assert(behind_upto(b, d, i, pk, r));
                    }
                    if has_behind_upto(b, d, i, pk, depth) {
                        let r = choose|r: int| #[trigger] behind_upto(b, d, i, pk, r)
                            && b.subpasses[d.dst_subpass.0 as int].reads[r].depth == depth;
                        assert(behind_upto(b, d, i, k, r));
                    }
                }
            } else {
                assert(d.dst_subpass.0 as int == i);
                assert(b.subpasses[d.dst_subpass.0 as int].reads[pk as int] == rd);
                assert forall|depth: bool| has_behind_upto(b, d, i, k, depth)
                    == ((deps.len() == prev.len() && has_behind_upto(b, prev[w], i, pk, depth)) || rd.depth == depth) by {
                    if has_behind_upto(b, d, i, k, depth) {
                        let r = choose|r: int| #[trigger] behind_upto(b, d, i, k, r)
                            && b.subpasses[d.dst_subpass.0 as int].reads[r].depth == depth;
                        if r != pk {
                            assert(behind_upto(b, d, i, pk, r));
                            if deps.len() == prev.len() {
                                assert(dep_matches(prev[w], d.src_subpass, d.dst_subpass));
                                assert(behind_upto(b, prev[w], i, pk, r));
                            }
                        }
                    }
                    if deps.len() == prev.len() && has_behind_upto(b, prev[w], i, pk, depth) {
                        let r = choose|r: int| #[trigger] behind_upto(b, prev[w], i, pk, r)
                            && b.subpasses[prev[w].dst_subpass.0 as int].reads[r].depth == depth;
                        assert(behind_upto(b, d, i, k, r));
                    }
                    if rd.depth == depth {
                        assert(behind_upto(b, d, i, k, pk as int));
                    }
                }
                if deps.len() == prev.len() {
                    let p = prev[w];
                    assert(p.dependency_type
                        == kind_of(has_behind_upto(b, p, i, pk, false), has_behind_upto(b, p, i, pk, true)));
                    assert(pair_justified(b, p.src_subpass, p.dst_subpass, i, pk));
                    let r = choose|r: int| #[trigger] read_processed(b, i, pk, p.dst_subpass.0 as int, r)
                        && read_source(b, p.dst_subpass.0 as int, r) == p.src_subpass;
                    assert(behind_upto(b, p, i, pk, r));
                    let dr = b.subpasses[p.dst_subpass.0 as int].reads[r].depth;
                    assert(has_behind_upto(b, p, i, pk, dr));
                }
            }
        }
    }
    assert(deps_ordered(b, deps, i, k)) by {
        assert forall|m1: int, m2: int, r2: int|
            #![trigger deps[m1], behind_upto(b, deps[m2], i, k, r2)]
            0 <= m1 < m2 < deps.len() && behind_upto(b, deps[m2], i, k, r2)
                implies earlier_behind_upto(b, deps[m1], deps[m2], r2, i, k) by {
            let d1 = deps[m1];
            let d2 = deps[m2];
            assert(m1 < prev.len());
            let p1 = prev[m1];
            assert(dep_matches(d1, p1.src_subpass, p1.dst_subpass));
            if behind_upto(b, d2, i, pk, r2) {
                assert(m2 < prev.len());
                let p2 = prev[m2];
                assert(dep_matches(d2, p2.src_subpass, p2.dst_subpass));
                assert(behind_upto(b, p2, i, pk, r2));
                assert(deps_ordered(b, prev, i, pk));
                assert(prev[m1] == p1);
                assert(earlier_behind_upto(b, p1, p2, r2, i, pk));
                let r1 = choose|r1: int| #[trigger] behind_upto(b, p1, i, pk, r1)
                    && read_before(p1.dst_subpass.0 as int, r1, p2.dst_subpass.0 as int, r2);
                assert(behind_upto(b, d1, i, k, r1));
            } else {
                assert(r2 == pk && dep_matches(d2, src, dst));
                assert(pair_justified(b, p1.src_subpass, p1.dst_subpass, i, pk));
                let r1 = choose|r1: int| #[trigger] read_processed(b, i, pk, p1.dst_subpass.0 as int, r1)
                    && read_source(b, p1.dst_subpass.0 as int, r1) == p1.src_subpass;
                assert(behind_upto(b, d1, i, k, r1));
            }
        }
    }
}

proof fn lemma_kinds_shift(b: BuilderView, i: nat)
    requires
        0 < i <= b.subpasses.len(),
        deps_kinds(b, deps_after(b, (i - 1) as nat, b.subpasses[i - 1].reads.len()), (i - 1) as nat,
            b.subpasses[i - 1].reads.len()),
        deps_ordered(b, deps_after(b, (i - 1) as nat, b.subpasses[i - 1].reads.len()), (i - 1) as nat,
            b.subpasses[i - 1].reads.len()),
    ensures
        deps_kinds(b, deps_after(b, i, 0), i, 0),
        deps_ordered(b, deps_after(b, i, 0), i, 0),
{
    let pi = (i - 1) as nat;
    let pk = b.subpasses[pi as int].reads.len();
    let deps = deps_after(b, i, 0);
    assert(deps == deps_after(b, pi, pk));
    assert forall|d: SubpassDependency, r: int|
        #![trigger behind_upto(b, d, i, 0, r)]
        #![trigger behind_upto(b, d, pi, pk, r)]
        behind_upto(b, d, i, 0, r) == behind_upto(b, d, pi, pk, r) by {}
    assert forall|d: SubpassDependency, depth: bool|
        #![trigger has_behind_upto(b, d, i, 0, depth)]
        has_behind_upto(b, d, i, 0, depth) == has_behind_upto(b, d, pi, pk, depth) by {
        if has_behind_upto(b, d, i, 0, depth) {
            let r = choose|r: int| #[trigger] behind_upto(b, d, i, 0, r)
                && b.subpasses[d.dst_subpass.0 as int].reads[r].depth == depth;
            assert(behind_upto(b, d, pi, pk, r));
        }
        if has_behind_upto(b, d, pi, pk, depth) {
            let r = choose|r: int| #[trigger] behind_upto(b, d, pi, pk, r)
                && b.subpasses[d.dst_subpass.0 as int].reads[r].depth == depth;
            assert(behind_upto(b, d, i, 0, r));
        }
    }
    assert(deps_kinds(b, deps, i, 0)) by {
        assert forall|m: int| 0 <= m < deps.len() implies (#[trigger] deps[m]).dependency_type
            == kind_of(has_behind_upto(b, deps[m], i, 0, false), has_behind_upto(b, deps[m], i, 0, true)) by {
            assert(has_behind_upto(b, deps[m], i, 0, false) == has_behind_upto(b, deps[m], pi, pk, false));
            assert(has_behind_upto(b, deps[m], i, 0, true) == has_behind_upto(b, deps[m], pi, pk, true));
        }
    }
    assert(deps_ordered(b, deps, i, 0)) by {
        assert forall|m1: int, m2: int, r2: int|
            #![trigger deps[m1], behind_upto(b, deps[m2], i, 0, r2)]
            0 <= m1 < m2 < deps.len() && behind_upto(b, deps[m2], i, 0, r2)
                implies earlier_behind_upto(b, deps[m1], deps[m2], r2, i, 0) by {
            assert(behind_upto(b, deps[m2], pi, pk, r2));
            assert(earlier_behind_upto(b, deps[m1], deps[m2], r2, pi, pk));
            let r1 = choose|r1: int| #[trigger] behind_upto(b, deps[m1], pi, pk, r1)
                && read_before(deps[m1].dst_subpass.0 as int, r1, deps[m2].dst_subpass.0 as int, r2);
            assert(behind_upto(b, deps[m1], i, 0, r1));
        }
    }
}

proof fn lemma_kinds_after(b: BuilderView, i: nat, k: nat)
    requires
        build_error(b) is None,
        (i < b.subpasses.len() && k <= b.subpasses[i as int].reads.len()) || (i == b.subpasses.len() && k == 0),
    ensures
        deps_kinds(b, deps_after(b, i, k), i, k),
        deps_ordered(b, deps_after(b, i, k), i, k),
    decreases i, k,
{
    if k == 0 {
        if i == 0 {
            assert(deps_after(b, 0, 0) =~= Seq::<SubpassDependency>::empty());
        } else {
            lemma_kinds_after(b, (i - 1) as nat, b.subpasses[i - 1].reads.len());
            lemma_kinds_shift(b, i);
        }
    } else {
        lemma_kinds_after(b, i, (k - 1) as nat);
        lemma_deps_after(b, i, (k - 1) as nat);
        lemma_kinds_step(b, i, (k - 1) as nat);
    }
}

/// The dependencies of a built graph come in the order in which the first read
/// behind each is declared (subpass by subpass, each subpass's reads in
/// declaration order). Each has the kind of the reads behind it: color-to-input
/// when all are color reads, depth-to-input when all are depth reads, and the
/// combined kind when there are both.
pub proof fn lemma_dependency_order_and_kind(b: BuilderView)
    requires
        build_error(b) is None,
    ensures
        ({
            let deps = planned_graph(b).dependencies;
            &&& forall|m: int| 0 <= m < deps.len() ==> (#[trigger] deps[m]).dependency_type
                == kind_of(has_read_behind(b, deps[m], false), has_read_behind(b, deps[m], true))
            &&& forall|m1: int, m2: int, r2: int|
                #![trigger deps[m1], read_behind(b, deps[m2], r2)]
                0 <= m1 < m2 < deps.len() && read_behind(b, deps[m2], r2)
                    ==> read_behind_earlier(b, deps[m1], deps[m2], r2)
        }),
{
    let n = b.subpasses.len();
    let deps = planned_graph(b).dependencies;
    assert(deps == deps_after(b, n, 0));
    lemma_deps_after(b, n, 0);
    lemma_kinds_after(b, n, 0);
    // Every dependency ends at a subpass of the graph, where being behind it up
    // to the end of the build is being behind it.
    assert forall|m: int, r: int| 0 <= m < deps.len()
        implies #[trigger] behind_upto(b, deps[m], n, 0, r) == #[trigger] read_behind(b, deps[m], r) by {
        let p = deps[m];
        assert(pair_justified(b, p.src_subpass, p.dst_subpass, n, 0));
        let r0 = choose|r0: int| #[trigger] read_processed(b, n, 0, p.dst_subpass.0 as int, r0)
            && read_source(b, p.dst_subpass.0 as int, r0) == p.src_subpass;
        assert(p.dst_subpass.0 < n);
    }
    assert forall|m: int| 0 <= m < deps.len() implies (#[trigger] deps[m]).dependency_type
        == kind_of(has_read_behind(b, deps[m], false), has_read_behind(b, deps[m], true)) by {
        let d = deps[m];
        assert forall|depth: bool| has_read_behind(b, d, depth) == has_behind_upto(b, d, n, 0, depth) by {
            if has_read_behind(b, d, depth) {
                let r = choose|r: int| #[trigger] read_behind(b, d, r)
                    && b.subpasses[d.dst_subpass.0 as int].reads[r].depth == depth;
                assert(behind_upto(b, deps[m], n, 0, r) == read_behind(b, deps[m], r));
                assert(behind_upto(b, d, n, 0, r));
            }
            if has_behind_upto(b, d, n, 0, depth) {
                let r = choose|r: int| #[trigger] behind_upto(b, d, n, 0, r)
                    && b.subpasses[d.dst_subpass.0 as int].reads[r].depth == depth;
                assert(behind_upto(b, deps[m], n, 0, r) == read_behind(b, deps[m], r));
                assert(read_behind(b, d, r));
            }
        }
        assert(has_read_behind(b, d, false) == has_behind_upto(b, d, n, 0, false));
        assert(has_read_behind(b, d, true) == has_behind_upto(b, d, n, 0, true));
    }
    assert forall|m1: int, m2: int, r2: int|
        #![trigger deps[m1], read_behind(b, deps[m2], r2)]
        0 <= m1 < m2 < deps.len() && read_behind(b, deps[m2], r2)
            implies read_behind_earlier(b, deps[m1], deps[m2], r2) by {
        assert(behind_upto(b, deps[m2], n, 0, r2) == read_behind(b, deps[m2], r2));
        assert(earlier_behind_upto(b, deps[m1], deps[m2], r2, n, 0));
        let r1 = choose|r1: int| #[trigger] behind_upto(b, deps[m1], n, 0, r1)
            && read_before(deps[m1].dst_subpass.0 as int, r1, deps[m2].dst_subpass.0 as int, r2);
        assert(behind_upto(b, deps[m1], n, 0, r1) == read_behind(b, deps[m1], r1));
    }
}

/// Every dependency of a built graph is by-region, goes from a subpass to a
/// later one, and no two dependencies connect the same pair. A
/// dependency from `s` to `d` exists exactly when some input read of subpass `d`
/// takes its input from subpass `s`.
pub proof fn lemma_dependencies_well_formed(b: BuilderView)
    requires
        build_error(b) is None,
    ensures
        ({
            let g = planned_graph(b);
            let deps = g.dependencies;
            &&& forall|m: int| 0 <= m < deps.len() ==> (#[trigger] deps[m]).by_region
            &&& forall|m: int| 0 <= m < deps.len()
                ==> (#[trigger] deps[m]).src_subpass.0 < deps[m].dst_subpass.0 < g.subpass_count
            &&& forall|m1: int, m2: int|
                0 <= m1 < deps.len() && 0 <= m2 < deps.len() && m1 != m2
                    ==> !dep_matches(#[trigger] deps[m1], (#[trigger] deps[m2]).src_subpass, deps[m2].dst_subpass)
            &&& forall|i: int, k: int| 0 <= i < g.subpasses.len() && 0 <= k < g.subpasses[i].read_sources.len()
                ==> has_dependency(deps, #[trigger] g.subpasses[i].read_sources[k], SubpassIndex(i as u32))
            &&& forall|m: int| #![trigger deps[m]] 0 <= m < deps.len() ==> exists|k: int|
                0 <= k < g.subpasses[deps[m].dst_subpass.0 as int].read_sources.len()
                    && #[trigger] dep_matches(deps[m], g.subpasses[deps[m].dst_subpass.0 as int].read_sources[k], deps[m].dst_subpass)
        }),
{
    let n = b.subpasses.len();
    let g = planned_graph(b);
    let deps = g.dependencies;
    lemma_deps_after(b, n, 0);
    assert(n <= 32);
    assert(deps == deps_after(b, n, 0));
    assert forall|i: int, k: int| 0 <= i < g.subpasses.len() && 0 <= k < g.subpasses[i].read_sources.len()
        implies has_dependency(deps, #[trigger] g.subpasses[i].read_sources[k], SubpassIndex(i as u32)) by {
        assert(g.subpasses[i] == built_of(b, i));
        assert(g.subpasses[i].read_sources.len() == b.subpasses[i].reads.len());
        assert(read_processed(b, n, 0, i, k));
        assert(g.subpasses[i].read_sources[k] == read_source(b, i, k));
    }
    assert forall|m: int| #![trigger deps[m]] 0 <= m < deps.len() implies {
        &&& (deps[m]).src_subpass.0 < deps[m].dst_subpass.0 < g.subpass_count
        &&& exists|k: int|
            0 <= k < g.subpasses[deps[m].dst_subpass.0 as int].read_sources.len()
                && #[trigger] dep_matches(deps[m], g.subpasses[deps[m].dst_subpass.0 as int].read_sources[k], deps[m].dst_subpass)
    } by {
        let p = deps[m];
        let j = p.dst_subpass.0 as int;
        assert(pair_justified(b, p.src_subpass, p.dst_subpass, n, 0));
        let r = choose|r: int| #[trigger] read_processed(b, n, 0, j, r) && read_source(b, j, r) == p.src_subpass;
        lemma_read_source(b, j, r);
        assert(g.subpasses[j].read_sources[r] == read_source(b, j, r));
        assert(dep_matches(deps[m], g.subpasses[j].read_sources[r], p.dst_subpass));
    }
}

// ---------------------------------------------------------------------------
// Laws of culling
// ---------------------------------------------------------------------------

/// Every entry of `active` names a subpass of `g`.
pub open spec fn all_in_range(g: RenderGraphView, active: Seq<SubpassIndex>) -> bool {
    forall|k: int| 0 <= k < active.len() ==> (#[trigger] active[k]).0 < g.subpass_count
}

/// Every read of a listed subpass takes its input from a listed subpass.
pub open spec fn reads_stay_active(g: RenderGraphView, active: Seq<SubpassIndex>) -> bool {
    forall|i: int, k: int|
        0 <= i < g.subpasses.len() && is_listed(active, i as u32) && 0 <= k < g.subpasses[i].read_sources.len()
            ==> is_listed(active, (#[trigger] g.subpasses[i].read_sources[k]).0)
}

/// Every persistent output keeps a listed writer.
pub open spec fn outputs_stay_written(g: RenderGraphView, active: Seq<SubpassIndex>) -> bool {
    forall|p: int| 0 <= p < g.persistent_outputs.len()
        ==> #[trigger] has_active_writer(g, active, g.persistent_outputs[p])
}

proof fn lemma_out_of_range_none(g: RenderGraphView, active: Seq<SubpassIndex>, k: nat)
    ensures
        first_out_of_range(g, active, k) is None
            <==> forall|m: int| k <= m < active.len() ==> (#[trigger] active[m]).0 < g.subpass_count,
    decreases active.len() - k,
{
    if k < active.len() {
        lemma_out_of_range_none(g, active, k + 1);
    }
}

proof fn lemma_culled_source_none(sources: Seq<SubpassIndex>, active: Seq<SubpassIndex>, k: nat)
    ensures
        first_culled_source(sources, active, k) is None
            <==> forall|m: int| k <= m < sources.len() ==> is_listed(active, (#[trigger] sources[m]).0),
    decreases sources.len() - k,
{
    if k < sources.len() {
        lemma_culled_source_none(sources, active, k + 1);
    }
}

proof fn lemma_culled_read_none(g: RenderGraphView, active: Seq<SubpassIndex>, i: nat)
    requires
        g.subpasses.len() <= 32,
    ensures
        first_culled_read(g, active, i) is None <==> forall|j: int, k: int|
            i <= j < g.subpasses.len() && is_listed(active, j as u32) && 0 <= k < g.subpasses[j].read_sources.len()
                ==> is_listed(active, (#[trigger] g.subpasses[j].read_sources[k]).0),
    decreases g.subpasses.len() - i,
{
    if i < g.subpasses.len() {
        lemma_culled_read_none(g, active, i + 1);
        lemma_culled_source_none(g.subpasses[i as int].read_sources, active, 0);
    }
}

proof fn lemma_culled_output_none(g: RenderGraphView, active: Seq<SubpassIndex>, p: nat)
    ensures
        first_culled_output(g, active, p) is None <==> forall|q: int|
            p <= q < g.persistent_outputs.len() ==> #[trigger] has_active_writer(g, active, g.persistent_outputs[q]),
    decreases g.persistent_outputs.len() - p,
{
    if p < g.persistent_outputs.len() {
        lemma_culled_output_none(g, active, p + 1);
    }
}

/// Resolving `active` against a graph succeeds exactly when every listed index
/// names a subpass of the graph, no listed subpass reads from an unlisted one,
/// and every persistent output keeps a listed writer. The mask it then returns
/// marks exactly the listed subpasses active.
pub proof fn lemma_resolve_succeeds_iff(g: RenderGraphView, active: Seq<SubpassIndex>)
    requires
        graph_wf(g),
    ensures
        resolve_result(g, active) is Ok
            <==> (all_in_range(g, active) && reads_stay_active(g, active) && outputs_stay_written(g, active)),
        resolve_result(g, active) matches Ok(mask) ==> forall|j: u32| #[trigger] mask.has(j) == is_listed(active, j),
{
    lemma_out_of_range_none(g, active, 0);
    lemma_culled_read_none(g, active, 0);
    lemma_culled_output_none(g, active, 0);
    if let Ok(mask) = resolve_result(g, active) {
        assert(mask.0 == crate::active_mask::indices_bits(active));
        assert forall|j: u32| #[trigger] mask.has(j) == is_listed(active, j) by {
            if j < 32 {
                crate::active_mask::lemma_indices_bits_has(active, j);
            } else if is_listed(active, j) {
                let k = choose|k: int| 0 <= k < active.len() && active[k].0 == j;
                assert(active[k].0 < g.subpass_count);
            }
        }
    }
}

proof fn lemma_first_unwritten_none(b: BuilderView, ps: Seq<AttachmentId>, k: nat)
    requires
        first_unwritten(b, ps, k) is None,
    ensures
        forall|m: int| k <= m < ps.len() ==> is_written(b, #[trigger] ps[m]),
    decreases ps.len() - k,
{
    if k < ps.len() {
        lemma_first_unwritten_none(b, ps, k + 1);
    }
}

/// The writer list of `a` holds exactly the subpasses before `upto` that write
/// `a`, each once, in increasing order.
proof fn lemma_writers_upto_exact(b: BuilderView, upto: nat, a: AttachmentId)
    requires
        upto <= u32::MAX,
    ensures
        ({
            let ws = writers_upto(b, upto, a);
            &&& forall|m: int| 0 <= m < ws.len() ==> (#[trigger] ws[m]).0 < upto && writes_attachment(b, ws[m].0 as int, a)
            &&& forall|m1: int, m2: int| 0 <= m1 < m2 < ws.len() ==> (#[trigger] ws[m1]).0 < (#[trigger] ws[m2]).0
            &&& forall|j: int| 0 <= j < upto && #[trigger] writes_attachment(b, j, a)
                ==> exists|m: int| 0 <= m < ws.len() && ws[m] == SubpassIndex(j as u32)
        }),
    decreases upto,
{
    if upto > 0 {
        let prev = writers_upto(b, (upto - 1) as nat, a);
        lemma_writers_upto_exact(b, (upto - 1) as nat, a);
        let ws = writers_upto(b, upto, a);
        assert forall|j: int| 0 <= j < upto && #[trigger] writes_attachment(b, j, a)
            implies exists|m: int| 0 <= m < ws.len() && ws[m] == SubpassIndex(j as u32) by {
            if j == upto - 1 {
                assert(ws[ws.len() - 1] == SubpassIndex(j as u32));
            } else {
                let m = choose|m: int| 0 <= m < prev.len() && prev[m] == SubpassIndex(j as u32);
                assert(ws[m] == prev[m]);
            }
        }
        assert forall|m: int| 0 <= m < ws.len() implies (#[trigger] ws[m]).0 < upto && writes_attachment(b, ws[m].0 as int, a) by {
            if m < prev.len() {
                assert(ws[m] == prev[m]);
            }
        }
        assert forall|m1: int, m2: int| 0 <= m1 < m2 < ws.len() implies (#[trigger] ws[m1]).0 < (#[trigger] ws[m2]).0 by {
            assert(ws[m1] == prev[m1]);
            if m2 < prev.len() {
                assert(ws[m2] == prev[m2]);
            }
        }
    }
}

/// Resolving a built graph with every one of its subpasses listed succeeds, and
/// leaves exactly those subpasses active.
pub proof fn lemma_resolve_all_subpasses(b: BuilderView, active: Seq<SubpassIndex>)
    requires
        build_error(b) is None,
        b.attachments.len() <= u32::MAX,
        forall|k: int| 0 <= k < active.len() ==> (#[trigger] active[k]).0 < b.subpasses.len(),
        forall|i: u32| i < b.subpasses.len() ==> #[trigger] is_listed(active, i),
    ensures
        resolve_result(planned_graph(b), active) matches Ok(mask)
            && forall|j: u32| #[trigger] mask.has(j) == (j < b.subpasses.len()),
{
    let g = planned_graph(b);
    let n = b.subpasses.len();
    assert(n <= 32);
    lemma_planned_graph_wf(b);
    lemma_resolve_succeeds_iff(g, active);
    assert(all_in_range(g, active));
    assert forall|i: int, k: int|
        0 <= i < g.subpasses.len() && is_listed(active, i as u32) && 0 <= k < g.subpasses[i].read_sources.len()
            implies is_listed(active, (#[trigger] g.subpasses[i].read_sources[k]).0) by {
        assert(g.subpasses[i] == built_of(b, i));
        assert(g.subpasses[i].read_sources[k] == read_source(b, i, k));
        lemma_read_source(b, i, k);
        assert(is_listed(active, g.subpasses[i].read_sources[k].0));
    }
    let ps = persistents_upto(b, b.attachments.len());
    lemma_first_unwritten_none(b, ps, 0);
    lemma_persistents_bound(b, b.attachments.len());
    assert forall|p: int| 0 <= p < g.persistent_outputs.len()
        implies #[trigger] has_active_writer(g, active, g.persistent_outputs[p]) by {
        let a = ps[p];
        assert(is_written(b, a));
        let j = choose|j: int| 0 <= j < n && writes_attachment(b, j, a);
        lemma_writers_upto_exact(b, n, a);
        let ws = writers_upto(b, n, a);
        assert(AttachmentId(a.0 as u32) == a);
        assert(g.writer_subpasses[a.0 as int] == ws);
        let m = choose|m: int| 0 <= m < ws.len() && ws[m] == SubpassIndex(j as u32);
        assert(is_listed(active, ws[m].0));
        assert(a.index() == a.0);
        assert(g.persistent_outputs[p] == a);
    }
    if let Ok(mask) = resolve_result(g, active) {
        assert forall|j: u32| #[trigger] mask.has(j) == (j < n) by {
            if is_listed(active, j) {
                let k = choose|k: int| 0 <= k < active.len() && active[k].0 == j;
            }
        }
    }
}

// ---------------------------------------------------------------------------
// Laws of what a built graph holds
// ---------------------------------------------------------------------------

/// A built graph keeps what the builder declared: one layout per subpass, the
/// builder's sample count on the graph and on every layout, every label, for
/// each attachment the subpasses that write it (each once, in increasing order),
/// and a writer for every persistent output.
pub proof fn lemma_built_graph_metadata(b: BuilderView)
    requires
        build_error(b) is None,
        b.attachments.len() <= u32::MAX,
    ensures
        ({
            let g = planned_graph(b);
            let n = b.subpasses.len();
            &&& g.subpass_count == n
            &&& g.subpasses.len() == n
            &&& g.subpass_layouts.len() == n
            &&& g.sample_count == b.sample_count
            &&& forall|i: int| 0 <= i < n ==> (#[trigger] g.subpass_layouts[i]).sample_count == b.sample_count
            &&& g.attachment_labels.len() == b.attachments.len()
            &&& forall|a: int| 0 <= a < b.attachments.len() ==> #[trigger] g.attachment_labels[a] == b.attachments[a].label
            &&& g.subpass_labels.len() == n
            &&& forall|i: int| 0 <= i < n ==> #[trigger] g.subpass_labels[i] == b.subpasses[i].label
            &&& g.writer_subpasses.len() == b.attachments.len()
            &&& forall|a: int, j: int| 0 <= a < b.attachments.len() && 0 <= j < n
                ==> (#[trigger] writes_attachment(b, j, AttachmentId::from_index(a as u32)) <==> exists|m: int|
                    0 <= m < g.writer_subpasses[a].len() && g.writer_subpasses[a][m] == SubpassIndex(j as u32))
            &&& forall|a: int, m1: int, m2: int| 0 <= a < b.attachments.len() && 0 <= m1 < m2 < g.writer_subpasses[a].len()
                ==> (#[trigger] g.writer_subpasses[a][m1]).0 < (#[trigger] g.writer_subpasses[a][m2]).0
            &&& forall|p: int| 0 <= p < g.persistent_outputs.len()
                ==> g.writer_subpasses[(#[trigger] g.persistent_outputs[p]).index() as int].len() > 0
        }),
{
    let g = planned_graph(b);
    let n = b.subpasses.len();
    assert(n <= 32);
    assert forall|a: int, j: int| 0 <= a < b.attachments.len() && 0 <= j < n
        implies (#[trigger] writes_attachment(b, j, AttachmentId::from_index(a as u32)) <==> exists|m: int|
            0 <= m < g.writer_subpasses[a].len() && g.writer_subpasses[a][m] == SubpassIndex(j as u32)) by {
        let at = AttachmentId::from_index(a as u32);
        lemma_writers_upto_exact(b, n, at);
        assert(g.writer_subpasses[a] == writers_upto(b, n, at));
        if exists|m: int| 0 <= m < g.writer_subpasses[a].len() && g.writer_subpasses[a][m] == SubpassIndex(j as u32) {
            let m = choose|m: int| 0 <= m < g.writer_subpasses[a].len() && g.writer_subpasses[a][m] == SubpassIndex(j as u32);
            assert(writes_attachment(b, g.writer_subpasses[a][m].0 as int, at));
        }
    }
    assert forall|a: int, m1: int, m2: int| 0 <= a < b.attachments.len() && 0 <= m1 < m2 < g.writer_subpasses[a].len()
        implies (#[trigger] g.writer_subpasses[a][m1]).0 < (#[trigger] g.writer_subpasses[a][m2]).0 by {
        lemma_writers_upto_exact(b, n, AttachmentId(a as u32));
    }
    let ps = persistents_upto(b, b.attachments.len());
    lemma_first_unwritten_none(b, ps, 0);
    lemma_persistents_bound(b, b.attachments.len());
    assert forall|p: int| 0 <= p < g.persistent_outputs.len()
        implies g.writer_subpasses[(#[trigger] g.persistent_outputs[p]).index() as int].len() > 0 by {
        let a = ps[p];
        assert(is_written(b, a));
        lemma_writers_empty(b, n, a);
        assert(AttachmentId(a.0 as u32) == a);
    }
}

proof fn lemma_color_writer_latest(b: BuilderView, upto: nat, a: AttachmentId)
    requires
        upto <= u32::MAX,
    ensures
        match color_writer(b, upto, a) {
            Some(w) => forall|j: int| w.0.0 < j < upto ==> !(#[trigger] b.subpasses[j].writes_color).contains(a),
            None => forall|j: int| 0 <= j < upto ==> !(#[trigger] b.subpasses[j].writes_color).contains(a),
        },
    decreases upto,
{
    if upto > 0 {
        lemma_color_writer_latest(b, (upto - 1) as nat, a);
    }
}

proof fn lemma_depth_writer_latest(b: BuilderView, upto: nat, a: AttachmentId)
    requires
        upto <= u32::MAX,
    ensures
        match depth_writer(b, upto, a) {
            Some(w) => forall|j: int| w.0 < j < upto
                ==> !((#[trigger] b.subpasses[j].writes_depth).len() > 0 && b.subpasses[j].writes_depth[0] == a),
            None => forall|j: int| 0 <= j < upto
                ==> !((#[trigger] b.subpasses[j].writes_depth).len() > 0 && b.subpasses[j].writes_depth[0] == a),
        },
    decreases upto,
{
    if upto > 0 {
        lemma_depth_writer_latest(b, (upto - 1) as nat, a);
    }
}

/// In a valid builder, subpass `j` writes only registered attachments, color
/// targets of the color role and its depth target of the depth role.
proof fn lemma_write_roles(b: BuilderView, j: int)
    requires
        build_error(b) is None,
        0 <= j < b.subpasses.len(),
    ensures
        forall|x: AttachmentId| (#[trigger] b.subpasses[j].writes_color.contains(x))
            ==> att_valid(b, x) && !att(b, x).is_depth,
        b.subpasses[j].writes_depth.len() > 0 ==> att_valid(b, b.subpasses[j].writes_depth[0])
            && att(b, b.subpasses[j].writes_depth[0]).is_depth,
{
    lemma_no_subpass_error(b, 0, j);
    let wc = b.subpasses[j].writes_color;
    assert forall|x: AttachmentId| (#[trigger] wc.contains(x)) implies att_valid(b, x) && !att(b, x).is_depth by {
        let idx = wc.index_of(x);
        lemma_no_color_write_error(b, j, 0, idx);
    }
}

/// Every input read of a built graph takes its input from the latest subpass,
/// before the reader, that writes the read attachment; the input is bound
/// at the read's position and keeps the read's role.
pub proof fn lemma_inputs_from_latest_writer(b: BuilderView)
    requires
        build_error(b) is None,
    ensures
        ({
            let g = planned_graph(b);
            forall|i: int, k: int| 0 <= i < b.subpasses.len() && 0 <= k < b.subpasses[i].reads.len() ==> {
                let s = #[trigger] g.subpasses[i].read_sources[k];
                let rd = b.subpasses[i].reads[k];
                &&& s.0 < i
                &&& writes_attachment(b, s.0 as int, rd.attachment)
                &&& forall|j: int| s.0 < j < i ==> !writes_attachment(b, j, rd.attachment)
                &&& g.subpasses[i].input_attachments[k].binding == k as u32
                &&& g.subpasses[i].input_attachments[k].source.source_subpass() == s
                &&& (g.subpasses[i].input_attachments[k].source is Depth) == rd.depth
            }
        }),
{
    let g = planned_graph(b);
    assert(b.subpasses.len() <= 32);
    assert forall|i: int, k: int| 0 <= i < b.subpasses.len() && 0 <= k < b.subpasses[i].reads.len() implies {
        let s = #[trigger] g.subpasses[i].read_sources[k];
        let rd = b.subpasses[i].reads[k];
        &&& s.0 < i
        &&& writes_attachment(b, s.0 as int, rd.attachment)
        &&& forall|j: int| s.0 < j < i ==> !writes_attachment(b, j, rd.attachment)
        &&& g.subpasses[i].input_attachments[k].binding == k as u32
        &&& g.subpasses[i].input_attachments[k].source.source_subpass() == s
        &&& (g.subpasses[i].input_attachments[k].source is Depth) == rd.depth
    } by {
        let rd = b.subpasses[i].reads[k];
        let a = rd.attachment;
        assert(g.subpasses[i] == built_of(b, i));
        assert(g.subpasses[i].read_sources[k] == read_source(b, i, k));
        lemma_read_source(b, i, k);
        lemma_no_subpass_error(b, 0, i);
        lemma_no_read_error(b, i, 0, k);
        lemma_color_writer_latest(b, i as nat, a);
        lemma_depth_writer_latest(b, i as nat, a);
        let s = g.subpasses[i].read_sources[k];
        assert forall|j: int| s.0 < j < i implies !writes_attachment(b, j, a) by {
            lemma_write_roles(b, j);
            if rd.depth {
                assert(!b.subpasses[j].writes_color.contains(a));
            } else {
                assert(!(b.subpasses[j].writes_depth.len() > 0 && b.subpasses[j].writes_depth[0] == a));
            }
        }
    }
}

/// When some listed index is not a subpass of the graph, resolving reports the
/// first such index, whatever else is wrong.
pub proof fn lemma_resolve_first_out_of_range(g: RenderGraphView, active: Seq<SubpassIndex>, k: int)
    requires
        0 <= k < active.len(),
        active[k].0 >= g.subpass_count,
        forall|j: int| 0 <= j < k ==> (#[trigger] active[j]).0 < g.subpass_count,
    ensures
        resolve_result(g, active)
            == Err::<ActiveSubpassMask, SubpassCullError>(
            SubpassCullError::InvalidSubpassIndex { subpass: active[k], subpass_count: g.subpass_count },
        ),
{
    lemma_first_out_of_range_at(g, active, 0, k);
}

proof fn lemma_first_out_of_range_at(g: RenderGraphView, active: Seq<SubpassIndex>, j: nat, k: int)
    requires
        j <= k < active.len(),
        active[k].0 >= g.subpass_count,
        forall|m: int| 0 <= m < k ==> (#[trigger] active[m]).0 < g.subpass_count,
    ensures
        first_out_of_range(g, active, j)
            == Some(SubpassCullError::InvalidSubpassIndex { subpass: active[k], subpass_count: g.subpass_count }),
    decreases k - j,
{
    if j < k {
        lemma_first_out_of_range_at(g, active, j + 1, k);
    }
}

// ---------------------------------------------------------------------------
// Laws of when a build succeeds
// ---------------------------------------------------------------------------

/// The first checks of a build, in order: a zero sample count, then no
/// subpasses, then more subpasses than a mask holds; each wins over every error
/// that an attachment or a subpass could give.
pub proof fn lemma_build_checks_in_order(b: BuilderView)
    ensures
        b.sample_count == 0 ==> build_error(b) == Some(RenderGraphError::InvalidSampleCount { sample_count: 0 }),
        b.sample_count != 0 && b.subpasses.len() == 0 ==> build_error(b) == Some(RenderGraphError::NoSubpasses),
        b.sample_count != 0 && b.subpasses.len() > 32 ==> build_error(b) == Some(
            RenderGraphError::TooManySubpasses { count: b.subpasses.len() as u32, maximum: 32 },
        ),
{
}

/// Some subpass before subpass `i` writes the attachment of read `r`, in the
/// read's role.
pub open spec fn written_earlier(b: BuilderView, i: int, r: ReadView) -> bool {
    exists|j: int|
        0 <= j < i && if r.depth {
            (#[trigger] b.subpasses[j]).writes_depth.len() > 0 && b.subpasses[j].writes_depth[0] == r.attachment
        } else {
            (#[trigger] b.subpasses[j]).writes_color.contains(r.attachment)
        }
}

/// Subpass `i` meets every rule that a build checks of it: at most one depth
/// write and one depth read, no color attachment written twice, every write and
/// read names a registered attachment of its role, and every read has an
/// earlier writer.
pub open spec fn subpass_valid(b: BuilderView, i: int) -> bool {
    let sp = b.subpasses[i];
    &&& sp.writes_depth.len() <= 1
    &&& depth_reads(sp).len() <= 1
    &&& sp.writes_color.no_duplicates()
    &&& forall|k: int| 0 <= k < sp.writes_color.len()
        ==> att_valid(b, #[trigger] sp.writes_color[k]) && !att(b, sp.writes_color[k]).is_depth
    &&& sp.writes_depth.len() > 0 ==> att_valid(b, sp.writes_depth[0]) && att(b, sp.writes_depth[0]).is_depth
    &&& forall|k: int| 0 <= k < sp.reads.len() ==> {
        &&& att_valid(b, (#[trigger] sp.reads[k]).attachment)
        &&& att(b, sp.reads[k].attachment).is_depth == sp.reads[k].depth
        &&& written_earlier(b, i, sp.reads[k])
    }
}

proof fn lemma_color_writer_exists(b: BuilderView, upto: nat, a: AttachmentId)
    ensures
        color_writer(b, upto, a) is Some
            <==> exists|j: int| 0 <= j < upto && (#[trigger] b.subpasses[j]).writes_color.contains(a),
    decreases upto,
{
    if upto > 0 {
        lemma_color_writer_exists(b, (upto - 1) as nat, a);
        if exists|j: int| 0 <= j < upto && (#[trigger] b.subpasses[j]).writes_color.contains(a) {
            let j = choose|j: int| 0 <= j < upto && (#[trigger] b.subpasses[j]).writes_color.contains(a);
            if j < upto - 1 {
                assert(0 <= j < upto - 1 && b.subpasses[j].writes_color.contains(a));
            }
        }
    }
}

proof fn lemma_depth_writer_exists(b: BuilderView, upto: nat, a: AttachmentId)
    ensures
        depth_writer(b, upto, a) is Some <==> exists|j: int|
            0 <= j < upto && (#[trigger] b.subpasses[j]).writes_depth.len() > 0 && b.subpasses[j].writes_depth[0] == a,
    decreases upto,
{
    if upto > 0 {
        lemma_depth_writer_exists(b, (upto - 1) as nat, a);
        if exists|j: int|
            0 <= j < upto && (#[trigger] b.subpasses[j]).writes_depth.len() > 0 && b.subpasses[j].writes_depth[0] == a {
            let j = choose|j: int|
                0 <= j < upto && (#[trigger] b.subpasses[j]).writes_depth.len() > 0 && b.subpasses[j].writes_depth[0] == a;
            if j < upto - 1 {
                assert(0 <= j < upto - 1 && b.subpasses[j].writes_depth.len() > 0 && b.subpasses[j].writes_depth[0] == a);
            }
        }
    }
}

proof fn lemma_first_read_error_iff(b: BuilderView, i: int, k: nat)
    ensures
        first_read_error(b, i, k) is None
            <==> forall|j: int| k <= j < b.subpasses[i].reads.len() ==> (#[trigger] read_check(b, i, j)) is None,
    decreases b.subpasses[i].reads.len() - k,
{
    if k < b.subpasses[i].reads.len() {
        lemma_first_read_error_iff(b, i, k + 1);
    }
}

proof fn lemma_first_color_write_error_iff(b: BuilderView, i: int, k: nat)
    ensures
        first_color_write_error(b, i, k) is None <==> forall|j: int|
            k <= j < b.subpasses[i].writes_color.len() ==> (#[trigger] color_write_check(b, i, j)) is None,
    decreases b.subpasses[i].writes_color.len() - k,
{
    if k < b.subpasses[i].writes_color.len() {
        lemma_first_color_write_error_iff(b, i, k + 1);
    }
}

proof fn lemma_first_subpass_error_iff(b: BuilderView, k: nat)
    ensures
        first_subpass_error(b, k) is None
            <==> forall|i: int| k <= i < b.subpasses.len() ==> (#[trigger] subpass_error(b, i)) is None,
    decreases b.subpasses.len() - k,
{
    if k < b.subpasses.len() {
        lemma_first_subpass_error_iff(b, k + 1);
    }
}

proof fn lemma_first_unwritten_iff(b: BuilderView, ps: Seq<AttachmentId>, k: nat)
    ensures
        first_unwritten(b, ps, k) is None <==> forall|m: int| k <= m < ps.len() ==> is_written(b, #[trigger] ps[m]),
    decreases ps.len() - k,
{
    if k < ps.len() {
        lemma_first_unwritten_iff(b, ps, k + 1);
    }
}

/// A sequence has no duplicates exactly when no element occurs among the ones
/// before it.
proof fn lemma_no_duplicates_prefix(s: Seq<AttachmentId>)
    ensures
        s.no_duplicates() <==> forall|j: int| 0 <= j < s.len() ==> !s.subrange(0, j).contains(#[trigger] s[j]),
{
    if s.no_duplicates() {
        assert forall|j: int| 0 <= j < s.len() implies !s.subrange(0, j).contains(#[trigger] s[j]) by {
            if s.subrange(0, j).contains(s[j]) {
                let q = choose|q: int| 0 <= q < j && s.subrange(0, j)[q] == s[j];
                assert(s[q] == s[j]);
            }
        }
    }
    if forall|j: int| 0 <= j < s.len() ==> !s.subrange(0, j).contains(#[trigger] s[j]) {
        assert forall|p: int, q: int| 0 <= p < s.len() && 0 <= q < s.len() && p != q implies s[p] != s[q] by {
            if p < q {
                assert(s.subrange(0, q)[p] == s[p]);
                assert(!s.subrange(0, q).contains(s[q]));
            } else {
                assert(s.subrange(0, p)[q] == s[q]);
                assert(!s.subrange(0, p).contains(s[p]));
            }
        }
    }
}

/// The persistent list holds exactly the persistent attachments among the first `k`.
proof fn lemma_persistents_exact(b: BuilderView, k: nat)
    requires
        k <= b.attachments.len(),
        b.attachments.len() <= u32::MAX,
    ensures
        forall|m: int| 0 <= m < persistents_upto(b, k).len() ==> {
            &&& (#[trigger] persistents_upto(b, k)[m]).index() < k
            &&& b.attachments[persistents_upto(b, k)[m].index() as int].persistent
            &&& persistents_upto(b, k)[m] == AttachmentId::from_index(persistents_upto(b, k)[m].index())
        },
        forall|a: int| 0 <= a < k && (#[trigger] b.attachments[a]).persistent ==> exists|m: int|
            0 <= m < persistents_upto(b, k).len() && persistents_upto(b, k)[m] == AttachmentId::from_index(a as u32),
    decreases k,
{
    if k > 0 {
        lemma_persistents_exact(b, (k - 1) as nat);
        let prev = persistents_upto(b, (k - 1) as nat);
        let ps = persistents_upto(b, k);
        assert forall|m: int| 0 <= m < ps.len() implies {
            &&& (#[trigger] ps[m]).index() < k
            &&& b.attachments[ps[m].index() as int].persistent
            &&& ps[m] == AttachmentId::from_index(ps[m].index())
        } by {
            if m < prev.len() {
                assert(ps[m] == prev[m]);
            }
        }
        assert forall|a: int| 0 <= a < k && (#[trigger] b.attachments[a]).persistent implies exists|m: int|
            0 <= m < ps.len() && ps[m] == AttachmentId::from_index(a as u32) by {
            if a == k - 1 {
                assert(ps[ps.len() - 1] == AttachmentId::from_index(a as u32));
            } else {
                let m = choose|m: int| 0 <= m < prev.len() && prev[m] == AttachmentId::from_index(a as u32);
                assert(ps[m] == prev[m]);
            }
        }
    }
}

proof fn lemma_subpass_error_iff(b: BuilderView, i: int)
    requires
        0 <= i < b.subpasses.len(),
        b.subpasses.len() <= u32::MAX,
    ensures
        subpass_error(b, i) is None <==> subpass_valid(b, i),
{
    let sp = b.subpasses[i];
    let wc = sp.writes_color;
    lemma_first_color_write_error_iff(b, i, 0);
    lemma_first_read_error_iff(b, i, 0);
    lemma_no_duplicates_prefix(wc);
    assert((forall|j: int| 0 <= j < wc.len() ==> (#[trigger] color_write_check(b, i, j)) is None) <==> {
        &&& wc.no_duplicates()
        &&& forall|k: int| 0 <= k < wc.len() ==> att_valid(b, #[trigger] wc[k]) && !att(b, wc[k]).is_depth
    }) by {
        if forall|j: int| 0 <= j < wc.len() ==> (#[trigger] color_write_check(b, i, j)) is None {
            assert forall|j: int| 0 <= j < wc.len() implies !wc.subrange(0, j).contains(#[trigger] wc[j]) by {
                assert(color_write_check(b, i, j) is None);
            }
            assert forall|k: int| 0 <= k < wc.len() implies att_valid(b, #[trigger] wc[k]) && !att(b, wc[k]).is_depth by {
                assert(color_write_check(b, i, k) is None);
            }
        }
        if wc.no_duplicates() && forall|k: int| 0 <= k < wc.len() ==> att_valid(b, #[trigger] wc[k]) && !att(b, wc[k]).is_depth {
            assert forall|j: int| 0 <= j < wc.len() implies (#[trigger] color_write_check(b, i, j)) is None by {
                assert(!wc.subrange(0, j).contains(wc[j]));
                assert(att_valid(b, wc[j]));
            }
        }
    }
    let reads = sp.reads;
    assert((forall|j: int| 0 <= j < reads.len() ==> (#[trigger] read_check(b, i, j)) is None) <==> forall|k: int|
        0 <= k < reads.len() ==> {
            &&& att_valid(b, (#[trigger] reads[k]).attachment)
            &&& att(b, reads[k].attachment).is_depth == reads[k].depth
            &&& written_earlier(b, i, reads[k])
        }) by {
        assert forall|k: int| 0 <= k < reads.len() implies (#[trigger] read_check(b, i, k) is None <==> {
            &&& att_valid(b, reads[k].attachment)
            &&& att(b, reads[k].attachment).is_depth == reads[k].depth
            &&& written_earlier(b, i, reads[k])
        }) by {
            lemma_color_writer_exists(b, i as nat, reads[k].attachment);
            lemma_depth_writer_exists(b, i as nat, reads[k].attachment);
        }
        if forall|j: int| 0 <= j < reads.len() ==> (#[trigger] read_check(b, i, j)) is None {
            assert forall|k: int| 0 <= k < reads.len() implies {
                &&& att_valid(b, (#[trigger] reads[k]).attachment)
                &&& att(b, reads[k].attachment).is_depth == reads[k].depth
                &&& written_earlier(b, i, reads[k])
            } by {
                assert(read_check(b, i, k) is None);
            }
        }
        if forall|k: int| 0 <= k < reads.len() ==> {
            &&& att_valid(b, (#[trigger] reads[k]).attachment)
            &&& att(b, reads[k].attachment).is_depth == reads[k].depth
            &&& written_earlier(b, i, reads[k])
        } {
            assert forall|j: int| 0 <= j < reads.len() implies (#[trigger] read_check(b, i, j)) is None by {
                assert(att_valid(b, reads[j].attachment));
            }
        }
    }
}

/// A build succeeds exactly when the sample count is not zero, there are
/// between one and 32 subpasses, every subpass meets the rules that a build
/// checks of it, and every persistent attachment is written by some subpass.
pub proof fn lemma_build_succeeds_iff(b: BuilderView)
    requires
        b.attachments.len() <= u32::MAX,
    ensures
        build_error(b) is None <==> {
            &&& b.sample_count != 0
            &&& 0 < b.subpasses.len() <= 32
            &&& forall|i: int| 0 <= i < b.subpasses.len() ==> #[trigger] subpass_valid(b, i)
            &&& forall|a: int| 0 <= a < b.attachments.len() && (#[trigger] b.attachments[a]).persistent
                ==> is_written(b, AttachmentId::from_index(a as u32))
        },
{
    let n = b.subpasses.len();
    let ps = persistents_upto(b, b.attachments.len());
    lemma_first_subpass_error_iff(b, 0);
    lemma_first_unwritten_iff(b, ps, 0);
    lemma_persistents_exact(b, b.attachments.len());
    if b.sample_count != 0 && 0 < n <= 32 {
        assert((forall|i: int| 0 <= i < n ==> (#[trigger] subpass_error(b, i)) is None)
            <==> forall|i: int| 0 <= i < n ==> #[trigger] subpass_valid(b, i)) by {
            assert forall|i: int| 0 <= i < n implies ((#[trigger] subpass_error(b, i)) is None <==> subpass_valid(b, i)) by {
                lemma_subpass_error_iff(b, i);
            }
            if forall|i: int| 0 <= i < n ==> (#[trigger] subpass_error(b, i)) is None {
                assert forall|i: int| 0 <= i < n implies #[trigger] subpass_valid(b, i) by {
                    assert(subpass_error(b, i) is None);
                }
            }
            if forall|i: int| 0 <= i < n ==> #[trigger] subpass_valid(b, i) {
                assert forall|i: int| 0 <= i < n implies (#[trigger] subpass_error(b, i)) is None by {
                    assert(subpass_valid(b, i));
                }
            }
        }
        assert((forall|m: int| 0 <= m < ps.len() ==> is_written(b, #[trigger] ps[m])) <==> forall|a: int|
            0 <= a < b.attachments.len() && (#[trigger] b.attachments[a]).persistent
                ==> is_written(b, AttachmentId::from_index(a as u32))) by {
            if forall|m: int| 0 <= m < ps.len() ==> is_written(b, #[trigger] ps[m]) {
                assert forall|a: int| 0 <= a < b.attachments.len() && (#[trigger] b.attachments[a]).persistent
                    implies is_written(b, AttachmentId::from_index(a as u32)) by {
                    let m = choose|m: int| 0 <= m < ps.len() && ps[m] == AttachmentId::from_index(a as u32);
                    assert(is_written(b, ps[m]));
                }
            }
            if forall|a: int| 0 <= a < b.attachments.len() && (#[trigger] b.attachments[a]).persistent
                ==> is_written(b, AttachmentId::from_index(a as u32)) {
                assert forall|m: int| 0 <= m < ps.len() implies is_written(b, #[trigger] ps[m]) by {
                    let x = ps[m].index();
                    assert(b.attachments[x as int].persistent);
                    assert(ps[m] == AttachmentId::from_index(x));
                }
            }
        }
    }
}

// ---------------------------------------------------------------------------
// Laws stated over the builder alone
// ---------------------------------------------------------------------------

proof fn lemma_find_depth_read_exists(reads: Seq<ReadView>, k: nat)
    ensures
        find_depth_read(reads, k) is Some <==> exists|j: int| k <= j < reads.len() && (#[trigger] reads[j]).depth,
    decreases reads.len() - k,
{
    if k < reads.len() {
        lemma_find_depth_read_exists(reads, k + 1);
        if exists|j: int| k <= j < reads.len() && (#[trigger] reads[j]).depth {
            let j = choose|j: int| k <= j < reads.len() && (#[trigger] reads[j]).depth;
            if j > k {
                assert(k + 1 <= j < reads.len() && reads[j].depth);
            }
        }
    }
}

/// A built subpass uses the depth/stencil attachment exactly when it writes a
/// depth attachment or reads one as an input; its depth/stencil format is the
/// written one, else the read one, else none.
pub proof fn lemma_uses_depth_stencil(b: BuilderView)
    requires
        build_error(b) is None,
    ensures
        forall|i: int| 0 <= i < b.subpasses.len() ==> {
            &&& (#[trigger] planned_graph(b).subpasses[i]).uses_depth_stencil
                == (b.subpasses[i].writes_depth.len() > 0
                || exists|k: int| 0 <= k < b.subpasses[i].reads.len() && (#[trigger] b.subpasses[i].reads[k]).depth)
            &&& (planned_graph(b).subpass_layouts[i].depth_stencil_format is Some)
                == planned_graph(b).subpasses[i].uses_depth_stencil
        },
{
    assert forall|i: int| 0 <= i < b.subpasses.len() implies {
        &&& (#[trigger] planned_graph(b).subpasses[i]).uses_depth_stencil
            == (b.subpasses[i].writes_depth.len() > 0
            || exists|k: int| 0 <= k < b.subpasses[i].reads.len() && (#[trigger] b.subpasses[i].reads[k]).depth)
        &&& (planned_graph(b).subpass_layouts[i].depth_stencil_format is Some)
            == planned_graph(b).subpasses[i].uses_depth_stencil
    } by {
        lemma_find_depth_read_exists(b.subpasses[i].reads, 0);
        assert(planned_graph(b).subpasses[i] == built_of(b, i));
        assert(planned_graph(b).subpass_layouts[i] == layout_of(b, i));
    }
}

/// Resolving a built graph succeeds exactly when every listed index names one
/// of its subpasses, every read of a listed subpass takes its input from a
/// listed subpass, and every persistent attachment has some listed subpass that
/// writes it (as a color target or as its depth target).
pub proof fn lemma_resolve_built_iff(b: BuilderView, active: Seq<SubpassIndex>)
    requires
        build_error(b) is None,
        b.attachments.len() <= u32::MAX,
    ensures
        resolve_result(planned_graph(b), active) is Ok <==> {
            &&& forall|k: int| 0 <= k < active.len() ==> (#[trigger] active[k]).0 < b.subpasses.len()
            &&& forall|i: int, k: int|
                0 <= i < b.subpasses.len() && is_listed(active, i as u32) && 0 <= k < b.subpasses[i].reads.len()
                    ==> is_listed(active, (#[trigger] planned_graph(b).subpasses[i].read_sources[k]).0)
            &&& forall|a: int| 0 <= a < b.attachments.len() && (#[trigger] b.attachments[a]).persistent
                ==> exists|j: int| 0 <= j < b.subpasses.len() && is_listed(active, j as u32) && {
                    let x = AttachmentId::from_index(a as u32);
                    (#[trigger] b.subpasses[j]).writes_color.contains(x)
                        || (b.subpasses[j].writes_depth.len() > 0 && b.subpasses[j].writes_depth[0] == x)
                }
        },
{
    let g = planned_graph(b);
    let n = b.subpasses.len();
    assert(n <= 32);
    lemma_planned_graph_wf(b);
    lemma_resolve_succeeds_iff(g, active);
    let ps = persistents_upto(b, b.attachments.len());
    lemma_persistents_exact(b, b.attachments.len());
    assert forall|i: int| 0 <= i < n implies #[trigger] g.subpasses[i].read_sources.len()
        == b.subpasses[i].reads.len() by {
        assert(g.subpasses[i] == built_of(b, i));
    }
    let written = forall|a: int| 0 <= a < b.attachments.len() && (#[trigger] b.attachments[a]).persistent
        ==> exists|j: int| 0 <= j < b.subpasses.len() && is_listed(active, j as u32) && {
            let x = AttachmentId::from_index(a as u32);
            (#[trigger] b.subpasses[j]).writes_color.contains(x)
                || (b.subpasses[j].writes_depth.len() > 0 && b.subpasses[j].writes_depth[0] == x)
        };
    assert(outputs_stay_written(g, active) <==> written) by {
        if outputs_stay_written(g, active) {
            assert forall|a: int| 0 <= a < b.attachments.len() && (#[trigger] b.attachments[a]).persistent
                implies exists|j: int| 0 <= j < b.subpasses.len() && is_listed(active, j as u32) && {
                    let x = AttachmentId::from_index(a as u32);
                    (#[trigger] b.subpasses[j]).writes_color.contains(x)
                        || (b.subpasses[j].writes_depth.len() > 0 && b.subpasses[j].writes_depth[0] == x)
                } by {
                let x = AttachmentId::from_index(a as u32);
                let m = choose|m: int| 0 <= m < ps.len() && ps[m] == x;
                assert(has_active_writer(g, active, g.persistent_outputs[m]));
                assert(x.index() == a as u32);
                let ws = writers_upto(b, n, x);
                assert(g.writer_subpasses[a] == ws);
                lemma_writers_upto_exact(b, n, x);
                let q = choose|q: int| 0 <= q < ws.len() && is_listed(active, ws[q].0);
                let j = ws[q].0 as int;
                assert(writes_attachment(b, j, x));
                assert(0 <= j < n && is_listed(active, j as u32));
                assert(b.subpasses[j].writes_color.contains(x)
                    || (b.subpasses[j].writes_depth.len() > 0 && b.subpasses[j].writes_depth[0] == x));
            }
        }
        if written {
            assert forall|p: int| 0 <= p < g.persistent_outputs.len()
                implies #[trigger] has_active_writer(g, active, g.persistent_outputs[p]) by {
                let x = ps[p];
                let a = x.index() as int;
                assert(b.attachments[a].persistent);
                assert(x == AttachmentId::from_index(a as u32));
                let j = choose|j: int| 0 <= j < b.subpasses.len() && is_listed(active, j as u32) && {
                    let y = AttachmentId::from_index(a as u32);
                    (#[trigger] b.subpasses[j]).writes_color.contains(y)
                        || (b.subpasses[j].writes_depth.len() > 0 && b.subpasses[j].writes_depth[0] == y)
                };
                assert(writes_attachment(b, j, x));
                lemma_writers_upto_exact(b, n, x);
                let ws = writers_upto(b, n, x);
                assert(g.writer_subpasses[a] == ws);
                let m = choose|m: int| 0 <= m < ws.len() && ws[m] == SubpassIndex(j as u32);
                assert(is_listed(active, ws[m].0));
            }
        }
    }
}

} // verus!
