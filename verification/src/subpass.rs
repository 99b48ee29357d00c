//! Plain data types that describe transient attachments, subpasses and the
//! dependencies between them.

use vstd::prelude::*;

use crate::format::TextureFormat;

verus! {

/// Size specification for a transient attachment.
#[derive(Clone, Copy, Debug, PartialEq, Eq, Hash, Structural)]
pub enum TransientSize {
    /// Match the render pass target size.
    MatchTarget,
    /// Use an explicit transient attachment size.
    Explicit {
        /// Explicit width.
        width: u32,
        /// Explicit height.
        height: u32,
    },
}

impl Default for TransientSize {
    fn default() -> (res: Self)
        ensures
            res == TransientSize::MatchTarget,
    {
        TransientSize::MatchTarget
    }
}

/// Descriptor for creating a transient attachment.
#[derive(Clone, Copy, Debug, PartialEq, Eq, Hash, Structural)]
pub struct TransientAttachmentDescriptor {
    /// Texture format of the transient attachment.
    pub format: TextureFormat,
    /// Attachment dimensions.
    pub size: TransientSize,
    /// Sample count for the attachment.
    pub sample_count: u32,
}

/// Operation to perform for a transient attachment at pass start.
#[derive(Clone, Copy, Debug, PartialEq, Eq, Hash)]
pub enum TransientLoadOp<V> {
    /// Clear the transient attachment.
    Clear(V),
    /// Existing contents are undefined.
    DontCare,
}

impl<V: Default> Default for TransientLoadOp<V> {
    fn default() -> (res: Self)
        ensures
            res matches TransientLoadOp::Clear(v) && call_ensures(V::default, (), v),
    {
        TransientLoadOp::Clear(V::default())
    }
}

/// Operations for transient attachment usage.
#[derive(Clone, Copy, Debug, PartialEq, Eq, Hash)]
pub struct TransientOps<V> {
    /// Load operation.
    pub load: TransientLoadOp<V>,
}

impl<V: Default> Default for TransientOps<V> {
    fn default() -> (res: Self)
        ensures
            res.load matches TransientLoadOp::Clear(v) && call_ensures(V::default, (), v),
    {
        TransientOps { load: TransientLoadOp::default() }
    }
}

/// A subpass index inside a render pass.
#[derive(Copy, Clone, Ord, PartialOrd, Eq, PartialEq, Hash, Debug, Structural)]
pub struct SubpassIndex(pub u32);

impl Default for SubpassIndex {
    fn default() -> (res: Self)
        ensures
            res == SubpassIndex(0),
    {
        SubpassIndex(0)
    }
}

/// Source for a subpass input attachment.
#[derive(Clone, Copy, Debug, PartialEq, Eq, Hash, Structural)]
pub enum SubpassInputSource {
    /// Color attachment source from a previous subpass.
    Color {
        /// Source subpass.
        subpass: SubpassIndex,
        /// Source color attachment slot index.
        attachment_index: u32,
    },
    /// Depth/stencil attachment source from a previous subpass.
    Depth {
        /// Source subpass.
        subpass: SubpassIndex,
    },
}

impl SubpassInputSource {
    /// The subpass that produces the attachment, whichever aspect is read.
    pub open spec fn source_subpass(self) -> SubpassIndex {
        match self {
            SubpassInputSource::Color { subpass, .. } => subpass,
            SubpassInputSource::Depth { subpass } => subpass,
        }
    }
}

/// Input attachment declaration for one binding.
#[derive(Clone, Copy, Debug, PartialEq, Eq, Hash, Structural)]
pub struct SubpassInputAttachment {
    /// Binding slot used by the shader.
    pub binding: u32,
    /// Input source.
    pub source: SubpassInputSource,
}

/// High-level dependency type between two subpasses.
#[derive(Clone, Copy, Debug, PartialEq, Eq, Hash, Structural)]
pub enum SubpassDependencyType {
    /// Color writes become input attachment reads.
    ColorToInput,
    /// Depth/stencil writes become input attachment reads.
    DepthToInput,
    /// Color and depth/stencil writes become input attachment reads.
    ColorDepthToInput,
}

/// Synchronization dependency between two subpasses.
#[derive(Clone, Copy, Debug, PartialEq, Eq, Hash, Structural)]
pub struct SubpassDependency {
    /// Source subpass.
    pub src_subpass: SubpassIndex,
    /// Destination subpass.
    pub dst_subpass: SubpassIndex,
    /// Dependency flavor.
    pub dependency_type: SubpassDependencyType,
    /// Whether this dependency is by-region.
    pub by_region: bool,
}

/// Validation and compatibility metadata for one subpass.
#[derive(Clone, Debug, PartialEq, Eq, Hash)]
pub struct SubpassLayout {
    /// Color target formats.
    pub color_formats: Vec<Option<TextureFormat>>,
    /// Depth/stencil target format.
    pub depth_stencil_format: Option<TextureFormat>,
    /// Sample count.
    pub sample_count: u32,
    /// Input attachment formats.
    pub input_attachment_formats: Vec<TextureFormat>,
}

/// Mathematical value of a [`SubpassLayout`].
pub struct SubpassLayoutView {
    /// Color target formats.
    pub color_formats: Seq<Option<TextureFormat>>,
    /// Depth/stencil target format.
    pub depth_stencil_format: Option<TextureFormat>,
    /// Sample count.
    pub sample_count: u32,
    /// Input attachment formats.
    pub input_attachment_formats: Seq<TextureFormat>,
}

impl View for SubpassLayout {
    type V = SubpassLayoutView;

    open spec fn view(&self) -> SubpassLayoutView {
        SubpassLayoutView {
            color_formats: self.color_formats@,
            depth_stencil_format: self.depth_stencil_format,
            sample_count: self.sample_count,
            input_attachment_formats: self.input_attachment_formats@,
        }
    }
}

impl Default for SubpassLayout {
    fn default() -> (res: Self)
        ensures
            res.color_formats@.len() == 0,
            res.depth_stencil_format is None,
            res.sample_count == 1,
            res.input_attachment_formats@.len() == 0,
    {
        SubpassLayout {
            color_formats: Vec::new(),
            depth_stencil_format: None,
            sample_count: 1,
            input_attachment_formats: Vec::new(),
        }
    }
}

/// Subpass attachment usage metadata for one subpass in a target.
#[derive(Clone, Debug, PartialEq, Eq, Hash)]
pub struct SubpassTargetDesc {
    /// Color attachment indices written by this subpass.
    pub color_attachment_indices: Vec<u32>,
    /// Whether this subpass uses depth/stencil.
    pub uses_depth_stencil: bool,
    /// Input attachment indices read by this subpass.
    pub input_attachment_indices: Vec<u32>,
}

impl Default for SubpassTargetDesc {
    fn default() -> (res: Self)
        ensures
            res.color_attachment_indices@.len() == 0,
            !res.uses_depth_stencil,
            res.input_attachment_indices@.len() == 0,
    {
        SubpassTargetDesc {
            color_attachment_indices: Vec::new(),
            uses_depth_stencil: false,
            input_attachment_indices: Vec::new(),
        }
    }
}

/// Complete render pass compatibility target for subpass-aware pipelines.
#[derive(Clone, Debug, PartialEq, Eq, Hash)]
pub struct SubpassTarget {
    /// Pipeline's active subpass index within `subpass_descs`.
    pub index: u32,
    /// Render pass color attachment formats.
    pub color_attachment_formats: Vec<Option<TextureFormat>>,
    /// Render pass depth/stencil format.
    pub depth_stencil_format: Option<TextureFormat>,
    /// Subpass usage descriptions.
    pub subpass_descs: Vec<SubpassTargetDesc>,
    /// Subpass dependencies.
    pub dependencies: Vec<SubpassDependency>,
}

impl Default for SubpassTarget {
    fn default() -> (res: Self)
        ensures
            res.index == 0,
            res.color_attachment_formats@.len() == 0,
            res.depth_stencil_format is None,
            res.subpass_descs@.len() == 0,
            res.dependencies@.len() == 0,
    {
        SubpassTarget {
            index: 0,
            color_attachment_formats: Vec::new(),
            depth_stencil_format: None,
            subpass_descs: Vec::new(),
            dependencies: Vec::new(),
        }
    }
}

/// Backend hint for transient-memory behavior.
#[derive(Clone, Copy, Debug, PartialEq, Eq, Hash, Structural)]
pub enum TransientMemoryHint {
    /// Let the backend pick.
    Auto,
    /// Prefer tile-memory-backed transients.
    PreferTileMemory,
    /// Prefer larger tile sizing when available.
    PreferLargerTiles,
}

impl Default for TransientMemoryHint {
    fn default() -> (res: Self)
        ensures
            res == TransientMemoryHint::Auto,
    {
        TransientMemoryHint::Auto
    }
}

/// Descriptor for programmable tile dispatch.
#[derive(Clone, Copy, Debug, PartialEq, Eq, Hash, Structural)]
pub struct TransientDispatchDescriptor {
    /// Tile width in pixels.
    pub tile_width: u32,
    /// Tile height in pixels.
    pub tile_height: u32,
}

impl Default for TransientDispatchDescriptor {
    fn default() -> (res: Self)
        ensures
            res == (TransientDispatchDescriptor { tile_width: 0, tile_height: 0 }),
    {
        TransientDispatchDescriptor { tile_width: 0, tile_height: 0 }
    }
}

} // verus!
