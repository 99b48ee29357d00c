//! Types for configuring render passes and render pipelines (except for vertex attributes).

use vstd::prelude::*;
use vstd::std_specs::convert::FromSpecImpl;

use crate::format::TextureFormat;

verus! {

/// Alpha blend factor.
///
/// Values using `Src1` require dual-source blending and can only be used with the
/// first render target.
#[derive(Copy, Clone, Debug, Hash, Eq, PartialEq, Structural)]
pub enum BlendFactor {
    /// 0.0
    Zero,
    /// 1.0
    One,
    /// S.component
    Src,
    /// 1.0 - S.component
    OneMinusSrc,
    /// S.alpha
    SrcAlpha,
    /// 1.0 - S.alpha
    OneMinusSrcAlpha,
    /// D.component
    Dst,
    /// 1.0 - D.component
    OneMinusDst,
    /// D.alpha
    DstAlpha,
    /// 1.0 - D.alpha
    OneMinusDstAlpha,
    /// min(S.alpha, 1.0 - D.alpha)
    SrcAlphaSaturated,
    /// Constant
    Constant,
    /// 1.0 - Constant
    OneMinusConstant,
    /// S1.component
    Src1,
    /// 1.0 - S1.component
    OneMinusSrc1,
    /// S1.alpha
    Src1Alpha,
    /// 1.0 - S1.alpha
    OneMinusSrc1Alpha,
}

/// The factor reads the second blend source.
pub open spec fn is_second_source(f: BlendFactor) -> bool {
    f == BlendFactor::Src1 || f == BlendFactor::OneMinusSrc1 || f == BlendFactor::Src1Alpha
        || f == BlendFactor::OneMinusSrc1Alpha
}

/// The factor reads the blend constant.
pub open spec fn is_constant_factor(f: BlendFactor) -> bool {
    f == BlendFactor::Constant || f == BlendFactor::OneMinusConstant
}

impl BlendFactor {
    /// Returns `true` if the blend factor references the second blend source.
    pub fn ref_second_blend_source(&self) -> (res: bool)
        ensures
            res == is_second_source(*self),
            res == (*self == BlendFactor::Src1 || *self == BlendFactor::OneMinusSrc1
                || *self == BlendFactor::Src1Alpha || *self == BlendFactor::OneMinusSrc1Alpha),
    {
        match self {
            BlendFactor::Src1
            | BlendFactor::OneMinusSrc1
            | BlendFactor::Src1Alpha
            | BlendFactor::OneMinusSrc1Alpha => true,
            _ => false,
        }
    }
}

/// Alpha blend operation.
#[derive(Copy, Clone, Debug, Hash, Eq, PartialEq, Structural)]
pub enum BlendOperation {
    /// Src + Dst
    Add,
    /// Src - Dst
    Subtract,
    /// Dst - Src
    ReverseSubtract,
    /// min(Src, Dst)
    Min,
    /// max(Src, Dst)
    Max,
}

impl Default for BlendOperation {
    fn default() -> (res: Self)
        ensures
            res == BlendOperation::Add,
    {
        BlendOperation::Add
    }
}

/// Describes a blend component of a [`BlendState`].
#[derive(Clone, Copy, Debug, PartialEq, Eq, Hash, Structural)]
pub struct BlendComponent {
    /// Multiplier for the source, which is produced by the fragment shader.
    pub src_factor: BlendFactor,
    /// Multiplier for the destination, which is stored in the target.
    pub dst_factor: BlendFactor,
    /// The binary operation applied to the source and destination,
    /// multiplied by their respective factors.
    pub operation: BlendOperation,
}

/// `(1 * src) + (0 * dst)`: the source replaces the destination.
pub open spec fn blend_replace() -> BlendComponent {
    BlendComponent { src_factor: BlendFactor::One, dst_factor: BlendFactor::Zero, operation: BlendOperation::Add }
}

/// `(1 * src) + ((1 - src_alpha) * dst)`.
pub open spec fn blend_over() -> BlendComponent {
    BlendComponent {
        src_factor: BlendFactor::One,
        dst_factor: BlendFactor::OneMinusSrcAlpha,
        operation: BlendOperation::Add,
    }
}

impl BlendComponent {
    /// Default blending state that replaces destination with the source.
    pub fn replace() -> (res: Self)
        ensures
            res == blend_replace(),
    {
        BlendComponent { src_factor: BlendFactor::One, dst_factor: BlendFactor::Zero, operation: BlendOperation::Add }
    }

    /// Blend state of `(1 * src) + ((1 - src_alpha) * dst)`.
    pub fn over() -> (res: Self)
        ensures
            res == blend_over(),
    {
        BlendComponent {
            src_factor: BlendFactor::One,
            dst_factor: BlendFactor::OneMinusSrcAlpha,
            operation: BlendOperation::Add,
        }
    }

    /// Returns true if the state relies on the constant color, which is
    /// set independently on a render command encoder.
    pub fn uses_constant(&self) -> (res: bool)
        ensures
            res == (is_constant_factor(self.src_factor) || is_constant_factor(self.dst_factor)),
    {
        match (self.src_factor, self.dst_factor) {
            (BlendFactor::Constant, _)
            | (BlendFactor::OneMinusConstant, _)
            | (_, BlendFactor::Constant)
            | (_, BlendFactor::OneMinusConstant) => true,
            (_, _) => false,
        }
    }
}

impl Default for BlendComponent {
    fn default() -> (res: Self)
        ensures
            res == blend_replace(),
    {
        Self::replace()
    }
}

/// Describe the blend state of a render pipeline, within [`ColorTargetState`].
#[derive(Clone, Copy, Debug, PartialEq, Eq, Hash, Structural)]
pub struct BlendState {
    /// Color equation.
    pub color: BlendComponent,
    /// Alpha equation.
    pub alpha: BlendComponent,
}

impl BlendState {
    /// Blend mode that does no color blending, just overwrites the output with the contents of the shader.
    pub fn replace() -> (res: Self)
        ensures
            res == (BlendState { color: blend_replace(), alpha: blend_replace() }),
    {
        BlendState { color: BlendComponent::replace(), alpha: BlendComponent::replace() }
    }

    /// Blend mode that does standard alpha blending with non-premultiplied alpha.
    pub fn alpha_blending() -> (res: Self)
        ensures
            res == (BlendState {
                color: BlendComponent {
                    src_factor: BlendFactor::SrcAlpha,
                    dst_factor: BlendFactor::OneMinusSrcAlpha,
                    operation: BlendOperation::Add,
                },
                alpha: blend_over(),
            }),
    {
        BlendState {
            color: BlendComponent {
                src_factor: BlendFactor::SrcAlpha,
                dst_factor: BlendFactor::OneMinusSrcAlpha,
                operation: BlendOperation::Add,
            },
            alpha: BlendComponent::over(),
        }
    }

    /// Blend mode that does standard alpha blending with premultiplied alpha.
    pub fn premultiplied_alpha_blending() -> (res: Self)
        ensures
            res == (BlendState { color: blend_over(), alpha: blend_over() }),
    {
        BlendState { color: BlendComponent::over(), alpha: BlendComponent::over() }
    }
}

/// Color write mask. Disabled color channels will not be written to.
#[derive(Debug, Copy, Clone, PartialEq, Eq, Hash, Structural)]
pub struct ColorWrites(u32);

impl ColorWrites {
    /// Only the four channel bits can be set.
    #[verifier::type_invariant]
    spec fn channel_bits_only(self) -> bool {
        self.0 <= 15
    }

    /// The raw bits of the mask.
    pub closed spec fn spec_bits(self) -> u32 {
        self.0
    }

    /// The mask with every channel enabled.
    pub closed spec fn all_spec() -> ColorWrites {
        ColorWrites(15)
    }

    /// The raw bits of the mask.
    pub fn bits(&self) -> (res: u32)
        ensures
            res == self.spec_bits(),
            res <= 15,
    {
        proof {
            use_type_invariant(self);
        }
        self.0
    }

    /// Enable red channel writes.
    pub fn red() -> (res: Self)
        ensures
            res.spec_bits() == 1,
    {
        ColorWrites(1)
    }

    /// Enable green channel writes.
    pub fn green() -> (res: Self)
        ensures
            res.spec_bits() == 2,
    {
        ColorWrites(2)
    }

    /// Enable blue channel writes.
    pub fn blue() -> (res: Self)
        ensures
            res.spec_bits() == 4,
    {
        ColorWrites(4)
    }

    /// Enable alpha channel writes.
    pub fn alpha() -> (res: Self)
        ensures
            res.spec_bits() == 8,
    {
        ColorWrites(8)
    }

    /// Enable red, green, and blue channel writes.
    pub fn color() -> (res: Self)
        ensures
            res.spec_bits() == 7,
    {
        ColorWrites(7)
    }

    /// Enable writes to all channels.
    pub fn all() -> (res: Self)
        ensures
            res.spec_bits() == 15,
            res == Self::all_spec(),
    {
        ColorWrites(15)
    }

    /// Disable writes to every channel.
    pub fn empty() -> (res: Self)
        ensures
            res.spec_bits() == 0,
    {
        ColorWrites(0)
    }

    /// The mask with exactly the known channel bits of `bits` (the low four).
    pub fn from_bits_truncate(bits: u32) -> (res: Self)
        ensures
            res.spec_bits() == bits & 15,
    {
        assert(bits & 15 <= 15) by (bit_vector);
        ColorWrites(bits & 15)
    }
}

impl Default for ColorWrites {
    fn default() -> (res: Self)
        ensures
            res.spec_bits() == 15,
    {
        Self::all()
    }
}

/// Describes the color state of a render pipeline.
#[derive(Clone, Debug, PartialEq, Eq, Hash, Structural)]
pub struct ColorTargetState {
    /// The [`TextureFormat`] of the image that this pipeline will render to.
    pub format: TextureFormat,
    /// The blending that is used for this pipeline.
    pub blend: Option<BlendState>,
    /// Mask which enables/disables writes to different color/alpha channel.
    pub write_mask: ColorWrites,
}

impl From<TextureFormat> for ColorTargetState {
    fn from(format: TextureFormat) -> (res: Self) {
        ColorTargetState { format, blend: None, write_mask: ColorWrites::all() }
    }
}

impl FromSpecImpl<TextureFormat> for ColorTargetState {
    open spec fn obeys_from_spec() -> bool {
        true
    }

    open spec fn from_spec(format: TextureFormat) -> ColorTargetState {
        ColorTargetState { format, blend: None, write_mask: ColorWrites::all_spec() }
    }
}

/// Primitive type the input mesh is composed of.
#[derive(Copy, Clone, Debug, Hash, Eq, PartialEq, Structural)]
pub enum PrimitiveTopology {
    /// Vertex data is a list of points. Each vertex is a new point.
    PointList,
    /// Vertex data is a list of lines. Each pair of vertices composes a new line.
    ///
    /// Vertices `0 1 2 3` create two lines `0 1` and `2 3`
    LineList,
    /// Vertex data is a strip of lines. Each set of two adjacent vertices form a line.
    ///
    /// Vertices `0 1 2 3` create three lines `0 1`, `1 2`, and `2 3`.
    LineStrip,
    /// Vertex data is a list of triangles. Each set of 3 vertices composes a new triangle.
    ///
    /// Vertices `0 1 2 3 4 5` create two triangles `0 1 2` and `3 4 5`
    TriangleList,
    /// Vertex data is a triangle strip. Each set of three adjacent vertices form a triangle.
    ///
    /// Vertices `0 1 2 3 4 5` create four triangles `0 1 2`, `2 1 3`, `2 3 4`, and `4 3 5`
    TriangleStrip,
}

impl Default for PrimitiveTopology {
    fn default() -> (res: Self)
        ensures
            res == PrimitiveTopology::TriangleList,
    {
        PrimitiveTopology::TriangleList
    }
}

impl PrimitiveTopology {
    /// Returns true for strip topologies.
    pub fn is_strip(&self) -> (res: bool)
        ensures
            res == (*self == PrimitiveTopology::LineStrip || *self == PrimitiveTopology::TriangleStrip),
    {
        match *self {
            Self::PointList | Self::LineList | Self::TriangleList => false,
            Self::LineStrip | Self::TriangleStrip => true,
        }
    }

    /// Returns true for triangle topologies.
    pub fn is_triangles(&self) -> (res: bool)
        ensures
            res == (*self == PrimitiveTopology::TriangleList || *self == PrimitiveTopology::TriangleStrip),
    {
        match *self {
            Self::TriangleList | Self::TriangleStrip => true,
            Self::PointList | Self::LineList | Self::LineStrip => false,
        }
    }
}

/// Vertex winding order which classifies the "front" face of a triangle.
#[derive(Copy, Clone, Debug, PartialEq, Eq, Hash, Structural)]
pub enum FrontFace {
    /// Triangles with vertices in counter clockwise order are considered the front face.
    ///
    /// This is the default with right handed coordinate spaces.
    Ccw,
    /// Triangles with vertices in clockwise order are considered the front face.
    ///
    /// This is the default with left handed coordinate spaces.
    Cw,
}

impl Default for FrontFace {
    fn default() -> (res: Self)
        ensures
            res == FrontFace::Ccw,
    {
        FrontFace::Ccw
    }
}

/// Face of a vertex.
///
/// The `"none"` cull mode is represented using `Option<Face>`.
#[derive(Copy, Clone, Debug, PartialEq, Eq, Hash, Structural)]
pub enum Face {
    /// Front face
    Front,
    /// Back face
    Back,
}

/// Type of drawing mode for polygons
#[derive(Copy, Clone, Debug, PartialEq, Eq, Hash, Structural)]
pub enum PolygonMode {
    /// Polygons are filled
    Fill,
    /// Polygons are drawn as line segments
    Line,
    /// Polygons are drawn as points
    Point,
}

impl Default for PolygonMode {
    fn default() -> (res: Self)
        ensures
            res == PolygonMode::Fill,
    {
        PolygonMode::Fill
    }
}

/// Describes the state of primitive assembly and rasterization in a render pipeline.
#[derive(Clone, Copy, Debug, PartialEq, Eq, Hash, Structural)]
pub struct PrimitiveState {
    /// The primitive topology used to interpret vertices.
    pub topology: PrimitiveTopology,
    /// When drawing strip topologies with indices, this is the required format for the index buffer.
    /// This has no effect on non-indexed or non-strip draws.
    pub strip_index_format: Option<IndexFormat>,
    /// The face to consider the front for the purpose of culling and stencil operations.
    pub front_face: FrontFace,
    /// The face culling mode.
    pub cull_mode: Option<Face>,
    /// If set to true, the polygon depth is not clipped to 0-1 before rasterization.
    pub unclipped_depth: bool,
    /// Controls the way each polygon is rasterized. Can be either `Fill` (default), `Line` or `Point`
    pub polygon_mode: PolygonMode,
    /// If set to true, the primitives are rendered with conservative overestimation. I.e. any rastered pixel touched by it is filled.
    /// Only valid for `PolygonMode::Fill`!
    pub conservative: bool,
}

impl Default for PrimitiveState {
    fn default() -> (res: Self)
        ensures
            res == (PrimitiveState {
                topology: PrimitiveTopology::TriangleList,
                strip_index_format: None,
                front_face: FrontFace::Ccw,
                cull_mode: None,
                unclipped_depth: false,
                polygon_mode: PolygonMode::Fill,
                conservative: false,
            }),
    {
        PrimitiveState {
            topology: PrimitiveTopology::default(),
            strip_index_format: None,
            front_face: FrontFace::default(),
            cull_mode: None,
            unclipped_depth: false,
            polygon_mode: PolygonMode::default(),
            conservative: false,
        }
    }
}

/// Describes the multi-sampling state of a render pipeline.
#[derive(Clone, Copy, Debug, PartialEq, Eq, Hash, Structural)]
pub struct MultisampleState {
    /// The number of samples calculated per pixel (for MSAA). For non-multisampled textures,
    /// this should be `1`
    pub count: u32,
    /// Bitmask that restricts the samples of a pixel modified by this pipeline. All samples
    /// can be enabled using the value `!0`
    pub mask: u64,
    /// When enabled, produces another sample mask per pixel based on the alpha output value, that
    /// is ANDed with the sample mask and the primitive coverage to restrict the set of samples
    /// affected by a primitive.
    pub alpha_to_coverage_enabled: bool,
}

impl Default for MultisampleState {
    fn default() -> (res: Self)
        ensures
            res == (MultisampleState { count: 1, mask: u64::MAX, alpha_to_coverage_enabled: false }),
    {
        MultisampleState { count: 1, mask: u64::MAX, alpha_to_coverage_enabled: false }
    }
}

/// Format of indices used with pipeline.
#[derive(Copy, Clone, Debug, Hash, Eq, PartialEq, Structural)]
pub enum IndexFormat {
    /// Indices are 16 bit unsigned integers.
    Uint16,
    /// Indices are 32 bit unsigned integers.
    Uint32,
}

impl Default for IndexFormat {
    fn default() -> (res: Self)
        ensures
            res == IndexFormat::Uint32,
    {
        IndexFormat::Uint32
    }
}

impl IndexFormat {
    /// Returns the size in bytes of the index format
    pub fn byte_size(&self) -> (res: usize)
        ensures
            res == match *self {
                IndexFormat::Uint16 => 2usize,
                IndexFormat::Uint32 => 4usize,
            },
    {
        match self {
            IndexFormat::Uint16 => 2,
            IndexFormat::Uint32 => 4,
        }
    }
}

/// Operation to perform on the stencil value.
#[derive(Copy, Clone, Debug, Hash, Eq, PartialEq, Structural)]
pub enum StencilOperation {
    /// Keep stencil value unchanged.
    Keep,
    /// Set stencil value to zero.
    Zero,
    /// Replace stencil value with value provided in most recent call to set the stencil reference.
    Replace,
    /// Bitwise inverts stencil value.
    Invert,
    /// Increments stencil value by one, clamping on overflow.
    IncrementClamp,
    /// Decrements stencil value by one, clamping on underflow.
    DecrementClamp,
    /// Increments stencil value by one, wrapping on overflow.
    IncrementWrap,
    /// Decrements stencil value by one, wrapping on underflow.
    DecrementWrap,
}

impl Default for StencilOperation {
    fn default() -> (res: Self)
        ensures
            res == StencilOperation::Keep,
    {
        StencilOperation::Keep
    }
}

/// Comparison function used for depth and stencil operations.
#[derive(Copy, Clone, Debug, Hash, Eq, PartialEq, Structural)]
pub enum CompareFunction {
    /// Function never passes
    Never,
    /// Function passes if new value less than existing value
    Less,
    /// Function passes if new value is equal to existing value.
    Equal,
    /// Function passes if new value is less than or equal to existing value
    LessEqual,
    /// Function passes if new value is greater than existing value
    Greater,
    /// Function passes if new value is not equal to existing value.
    NotEqual,
    /// Function passes if new value is greater than or equal to existing value
    GreaterEqual,
    /// Function always passes
    Always,
}

impl Default for CompareFunction {
    fn default() -> (res: Self)
        ensures
            res == CompareFunction::Always,
    {
        CompareFunction::Always
    }
}

/// The comparison depends on the reference value.
pub open spec fn compare_needs_ref(c: CompareFunction) -> bool {
    c != CompareFunction::Never && c != CompareFunction::Always
}

impl CompareFunction {
    /// Returns true if the comparison depends on the reference value.
    pub fn needs_ref_value(self) -> (res: bool)
        ensures
            res == compare_needs_ref(self),
    {
        match self {
            Self::Never | Self::Always => false,
            _ => true,
        }
    }
}

/// Describes stencil state in a render pipeline.
///
/// If you are not using stencil state, set this to [`StencilFaceState::ignore`].
#[derive(Clone, Copy, Debug, PartialEq, Eq, Hash, Structural)]
pub struct StencilFaceState {
    /// Comparison function that determines if the fail_op or pass_op is used on the stencil buffer.
    pub compare: CompareFunction,
    /// Operation that is performed when stencil test fails.
    pub fail_op: StencilOperation,
    /// Operation that is performed when depth test fails but stencil test succeeds.
    pub depth_fail_op: StencilOperation,
    /// Operation that is performed when stencil test success.
    pub pass_op: StencilOperation,
}

/// The face state that ignores the stencil.
pub open spec fn stencil_ignore() -> StencilFaceState {
    StencilFaceState {
        compare: CompareFunction::Always,
        fail_op: StencilOperation::Keep,
        depth_fail_op: StencilOperation::Keep,
        pass_op: StencilOperation::Keep,
    }
}

/// The face state uses the reference value for testing or operation.
pub open spec fn face_needs_ref(f: StencilFaceState) -> bool {
    compare_needs_ref(f.compare) || f.fail_op == StencilOperation::Replace
        || f.depth_fail_op == StencilOperation::Replace || f.pass_op == StencilOperation::Replace
}

/// The face state keeps every stencil value.
pub open spec fn face_read_only(f: StencilFaceState) -> bool {
    f.pass_op == StencilOperation::Keep && f.depth_fail_op == StencilOperation::Keep
        && f.fail_op == StencilOperation::Keep
}

impl StencilFaceState {
    /// Ignore the stencil state for the face.
    pub fn ignore() -> (res: Self)
        ensures
            res == stencil_ignore(),
    {
        StencilFaceState {
            compare: CompareFunction::Always,
            fail_op: StencilOperation::Keep,
            depth_fail_op: StencilOperation::Keep,
            pass_op: StencilOperation::Keep,
        }
    }

    /// Returns true if the face state uses the reference value for testing or operation.
    pub fn needs_ref_value(&self) -> (res: bool)
        ensures
            res == face_needs_ref(*self),
    {
        self.compare.needs_ref_value() || self.fail_op == StencilOperation::Replace
            || self.depth_fail_op == StencilOperation::Replace || self.pass_op == StencilOperation::Replace
    }

    /// Returns true if the face state doesn't mutate the target values.
    pub fn is_read_only(&self) -> (res: bool)
        ensures
            res == face_read_only(*self),
    {
        self.pass_op == StencilOperation::Keep && self.depth_fail_op == StencilOperation::Keep
            && self.fail_op == StencilOperation::Keep
    }
}

impl Default for StencilFaceState {
    fn default() -> (res: Self)
        ensures
            res == stencil_ignore(),
    {
        Self::ignore()
    }
}

/// State of the stencil operation (fixed-pipeline stage).
#[derive(Clone, Debug, PartialEq, Eq, Hash, Structural)]
pub struct StencilState {
    /// Front face mode.
    pub front: StencilFaceState,
    /// Back face mode.
    pub back: StencilFaceState,
    /// Stencil values are AND'd with this mask when reading and writing from the stencil buffer. Only low 8 bits are used.
    pub read_mask: u32,
    /// Stencil values are AND'd with this mask when writing to the stencil buffer. Only low 8 bits are used.
    pub write_mask: u32,
}

impl Default for StencilState {
    fn default() -> (res: Self)
        ensures
            res == (StencilState { front: stencil_ignore(), back: stencil_ignore(), read_mask: 0, write_mask: 0 }),
    {
        StencilState { front: StencilFaceState::ignore(), back: StencilFaceState::ignore(), read_mask: 0, write_mask: 0 }
    }
}

/// The stencil state leaves the stencil buffer unchanged when faces are culled by `cull_mode`.
pub open spec fn stencil_read_only(s: StencilState, cull_mode: Option<Face>) -> bool {
    s.write_mask == 0 || ((cull_mode == Some(Face::Front) || face_read_only(s.front))
        && (cull_mode == Some(Face::Back) || face_read_only(s.back)))
}

impl StencilState {
    /// Returns true if the stencil test is enabled.
    pub fn is_enabled(&self) -> (res: bool)
        ensures
            res == ((self.front != stencil_ignore() || self.back != stencil_ignore())
                && (self.read_mask != 0 || self.write_mask != 0)),
    {
        let ignore = StencilFaceState::ignore();
        (self.front != ignore || self.back != ignore) && (self.read_mask != 0 || self.write_mask != 0)
    }

    /// Returns true if the state doesn't mutate the target values.
    ///
    /// A face that `cull_mode` culls never writes.
    pub fn is_read_only(&self, cull_mode: Option<Face>) -> (res: bool)
        ensures
            res == stencil_read_only(*self, cull_mode),
    {
        if self.write_mask == 0 {
            return true;
        }
        let front_ro = match cull_mode {
            Some(Face::Front) => true,
            _ => self.front.is_read_only(),
        };
        let back_ro = match cull_mode {
            Some(Face::Back) => true,
            _ => self.back.is_read_only(),
        };
        front_ro && back_ro
    }

    /// Returns true if the stencil state uses the reference value for testing.
    pub fn needs_ref_value(&self) -> (res: bool)
        ensures
            res == (face_needs_ref(self.front) || face_needs_ref(self.back)),
    {
        self.front.needs_ref_value() || self.back.needs_ref_value()
    }
}

/// Depth testing is enabled: the compare function (`Always` when absent) is not
/// `Always`, or depth writes are on (off when absent).
pub open spec fn depth_test_enabled(depth_compare: Option<CompareFunction>, depth_write_enabled: Option<bool>) -> bool {
    let compare = match depth_compare {
        Some(c) => c,
        None => CompareFunction::Always,
    };
    compare != CompareFunction::Always || depth_write_enabled == Some(true)
}

/// Returns true if the depth testing of a depth/stencil state with these
/// settings is enabled.
pub fn is_depth_enabled(depth_compare: Option<CompareFunction>, depth_write_enabled: Option<bool>) -> (res: bool)
    ensures
        res == depth_test_enabled(depth_compare, depth_write_enabled),
{
    let compare = match depth_compare {
        Some(compare) => compare,
        None => CompareFunction::default(),
    };
    let write = match depth_write_enabled {
        Some(write) => write,
        None => false,
    };
    compare != CompareFunction::Always || write
}

/// Returns true if a depth/stencil state with these settings doesn't mutate
/// the depth buffer.
pub fn is_depth_read_only(depth_write_enabled: Option<bool>) -> (res: bool)
    ensures
        res == (depth_write_enabled != Some(true)),
{
    match depth_write_enabled {
        Some(write) => !write,
        None => true,
    }
}

/// Returns true if a depth/stencil state with these settings doesn't mutate
/// either depth or stencil of the target.
pub fn is_depth_stencil_read_only(
    depth_write_enabled: Option<bool>,
    stencil: &StencilState,
    cull_mode: Option<Face>,
) -> (res: bool)
    ensures
        res == (depth_write_enabled != Some(true) && stencil_read_only(*stencil, cull_mode)),
{
    is_depth_read_only(depth_write_enabled) && stencil.is_read_only(cull_mode)
}

/// Marker that a [`LoadOp::DontCare`] was chosen on purpose.
///
/// With `DontCare` the render target has undefined contents at the start of the
/// render pass: every pixel must be written before it is read or stored.
#[derive(Copy, Clone, Debug, Hash, Eq, PartialEq)]
pub struct LoadOpDontCare {
    _private: (),
}

impl LoadOpDontCare {
    /// Acknowledges that the attachment's initial contents are undefined.
    pub fn enabled() -> (res: Self) {
        LoadOpDontCare { _private: () }
    }
}

/// Operation to perform to the output attachment at the start of a render pass,
/// plus the corresponding clear value.
#[derive(Copy, Clone, Debug, Hash, Eq, PartialEq)]
pub enum LoadOp<V> {
    /// Loads the specified value for this attachment into the render pass.
    ///
    /// On some GPU hardware (primarily mobile), "clear" is significantly cheaper
    /// because it avoids loading data from main memory into tile-local memory.
    Clear(V),
    /// Loads the existing value for this attachment into the render pass.
    Load,
    /// The render target has undefined contents at the start of the render pass.
    ///
    /// All pixels in the render target must be written to before any read or a
    /// [`StoreOp::Store`] occurs.
    DontCare(LoadOpDontCare),
}

impl<V> LoadOp<V> {
    /// Returns true if variants are same (ignoring clear value)
    pub fn eq_variant<T>(&self, other: LoadOp<T>) -> (res: bool)
        ensures
            res == ((*self is Clear && other is Clear) || (*self is Load && other is Load)
                || (*self is DontCare && other is DontCare)),
    {
        match (self, other) {
            (LoadOp::Clear(_), LoadOp::Clear(_)) => true,
            (LoadOp::Load, LoadOp::Load) => true,
            (LoadOp::DontCare(_), LoadOp::DontCare(_)) => true,
            _ => false,
        }
    }
}

impl<V: Default> Default for LoadOp<V> {
    fn default() -> (res: Self)
        ensures
            res matches LoadOp::Clear(v) && call_ensures(V::default, (), v),
    {
        LoadOp::Clear(V::default())
    }
}

/// Operation to perform to the output attachment at the end of a render pass.
#[derive(Copy, Clone, Debug, Hash, Eq, PartialEq, Structural)]
pub enum StoreOp {
    /// Stores the resulting value of the render pass for this attachment.
    Store,
    /// Discards the resulting value of the render pass for this attachment.
    ///
    /// The attachment will be treated as uninitialized afterwards.
    Discard,
}

impl Default for StoreOp {
    fn default() -> (res: Self)
        ensures
            res == StoreOp::Store,
    {
        StoreOp::Store
    }
}

/// Pair of load and store operations for an attachment aspect.
#[derive(Copy, Clone, Debug, Hash, Eq, PartialEq)]
pub struct Operations<V> {
    /// How data should be read through this attachment.
    pub load: LoadOp<V>,
    /// Whether data will be written to through this attachment.
    ///
    /// Note that resolve textures (if specified) are always written to,
    /// regardless of this setting.
    pub store: StoreOp,
}

impl<V: Default> Default for Operations<V> {
    fn default() -> (res: Self)
        ensures
            res.load matches LoadOp::Clear(v) && call_ensures(V::default, (), v),
            res.store == StoreOp::Store,
    {
        Operations { load: LoadOp::default(), store: StoreOp::default() }
    }
}

/// Describes the depth/stencil attachment for render bundles.
#[derive(Clone, Copy, Debug, PartialEq, Eq, Hash, Structural)]
pub struct RenderBundleDepthStencil {
    /// Format of the attachment.
    pub format: TextureFormat,
    /// If the depth aspect of the depth stencil attachment is going to be written to.
    pub depth_read_only: bool,
    /// If the stencil aspect of the depth stencil attachment is going to be written to.
    pub stencil_read_only: bool,
}

/// Describes a render bundle.
#[derive(Clone, Debug, PartialEq, Eq, Hash)]
pub struct RenderBundleDescriptor<L> {
    /// Debug label of the render bundle encoder. This will show up in graphics debuggers for easy identification.
    pub label: L,
}

impl<L> RenderBundleDescriptor<L> {
    /// Takes a closure and maps the label of the render bundle descriptor into another.
    pub fn map_label<K, F: FnOnce(&L) -> K>(&self, fun: F) -> (res: RenderBundleDescriptor<K>)
        requires
            call_requires(fun, (&self.label,)),
        ensures
            call_ensures(fun, (&self.label,), res.label),
    {
        RenderBundleDescriptor { label: fun(&self.label) }
    }
}

impl<T> Default for RenderBundleDescriptor<Option<T>> {
    fn default() -> (res: Self)
        ensures
            res.label is None,
    {
        RenderBundleDescriptor { label: None }
    }
}

/// Argument buffer layout for `draw_indirect` commands.
#[derive(Copy, Clone, Debug, PartialEq, Eq, Hash, Structural)]
pub struct DrawIndirectArgs {
    /// The number of vertices to draw.
    pub vertex_count: u32,
    /// The number of instances to draw.
    pub instance_count: u32,
    /// The Index of the first vertex to draw.
    pub first_vertex: u32,
    /// The instance ID of the first instance to draw.
    ///
    /// Has to be 0, unless indirect-first-instance is enabled.
    pub first_instance: u32,
}

impl Default for DrawIndirectArgs {
    fn default() -> (res: Self)
        ensures
            res == (DrawIndirectArgs { vertex_count: 0, instance_count: 0, first_vertex: 0, first_instance: 0 }),
    {
        DrawIndirectArgs { vertex_count: 0, instance_count: 0, first_vertex: 0, first_instance: 0 }
    }
}

/// Argument buffer layout for `draw_indexed_indirect` commands.
#[derive(Copy, Clone, Debug, PartialEq, Eq, Hash, Structural)]
pub struct DrawIndexedIndirectArgs {
    /// The number of indices to draw.
    pub index_count: u32,
    /// The number of instances to draw.
    pub instance_count: u32,
    /// The first index within the index buffer.
    pub first_index: u32,
    /// The value added to the vertex index before indexing into the vertex buffer.
    pub base_vertex: i32,
    /// The instance ID of the first instance to draw.
    ///
    /// Has to be 0, unless indirect-first-instance is enabled.
    pub first_instance: u32,
}

impl Default for DrawIndexedIndirectArgs {
    fn default() -> (res: Self)
        ensures
            res == (DrawIndexedIndirectArgs {
                index_count: 0,
                instance_count: 0,
                first_index: 0,
                base_vertex: 0,
                first_instance: 0,
            }),
    {
        DrawIndexedIndirectArgs { index_count: 0, instance_count: 0, first_index: 0, base_vertex: 0, first_instance: 0 }
    }
}

/// Argument buffer layout for `dispatch_indirect` commands.
#[derive(Copy, Clone, Debug, PartialEq, Eq, Hash, Structural)]
pub struct DispatchIndirectArgs {
    /// The number of work groups in X dimension.
    pub x: u32,
    /// The number of work groups in Y dimension.
    pub y: u32,
    /// The number of work groups in Z dimension.
    pub z: u32,
}

impl Default for DispatchIndirectArgs {
    fn default() -> (res: Self)
        ensures
            res == (DispatchIndirectArgs { x: 0, y: 0, z: 0 }),
    {
        DispatchIndirectArgs { x: 0, y: 0, z: 0 }
    }
}

/// The stencil value that stencil operation `op` leaves, for an 8-bit stored
/// value `value` and reference `reference`.
pub open spec fn stencil_op_result(op: StencilOperation, value: u8, reference: u8) -> u8 {
    match op {
        StencilOperation::Keep => value,
        StencilOperation::Zero => 0,
        StencilOperation::Replace => reference,
        StencilOperation::Invert => (255 - value) as u8,
        StencilOperation::IncrementClamp => if value == 255 { 255 } else { (value + 1) as u8 },
        StencilOperation::DecrementClamp => if value == 0 { 0 } else { (value - 1) as u8 },
        StencilOperation::IncrementWrap => if value == 255 { 0 } else { (value + 1) as u8 },
        StencilOperation::DecrementWrap => if value == 0 { 255 } else { (value - 1) as u8 },
    }
}

/// Operation `op` never changes the stored stencil value.
pub open spec fn op_leaves_stencil(op: StencilOperation) -> bool {
    forall|value: u8, reference: u8| #[trigger] stencil_op_result(op, value, reference) == value
}

/// Only `Keep` leaves every stencil value as it was: every other operation
/// changes some stored value.
pub proof fn lemma_only_keep_leaves_stencil(op: StencilOperation)
    ensures
        op_leaves_stencil(op) <==> op == StencilOperation::Keep,
{
    if op != StencilOperation::Keep {
        assert(stencil_op_result(op, 1, 0) != 1);
    }
}

/// A face is read-only exactly when none of its three outcomes (stencil test
/// fails, depth test fails, both pass) can change the stored stencil value.
pub proof fn lemma_face_read_only_leaves_stencil(f: StencilFaceState)
    ensures
        face_read_only(f) <==> (op_leaves_stencil(f.fail_op) && op_leaves_stencil(f.depth_fail_op)
            && op_leaves_stencil(f.pass_op)),
{
    lemma_only_keep_leaves_stencil(f.fail_op);
    lemma_only_keep_leaves_stencil(f.depth_fail_op);
    lemma_only_keep_leaves_stencil(f.pass_op);
}

/// Depth testing is enabled whenever depth writes are enabled, whatever the
/// compare function; without depth writes it is enabled exactly when a compare
/// function other than `Always` is given. An unset compare function counts as
/// `Always`, an unset write flag as disabled.
pub proof fn lemma_depth_enabled_cases(depth_compare: Option<CompareFunction>, depth_write_enabled: Option<bool>)
    ensures
        depth_write_enabled == Some(true) ==> depth_test_enabled(depth_compare, depth_write_enabled),
        depth_write_enabled != Some(true) ==> (depth_test_enabled(depth_compare, depth_write_enabled)
            <==> (depth_compare is Some && depth_compare->0 != CompareFunction::Always)),
{
}

/// Exactly the four dual-source factors reference the second blend source.
pub proof fn lemma_second_source_factors(f: BlendFactor)
    ensures
        is_second_source(f) <==> (f == BlendFactor::Src1 || f == BlendFactor::OneMinusSrc1
            || f == BlendFactor::Src1Alpha || f == BlendFactor::OneMinusSrc1Alpha),
        is_second_source(f) ==> !is_constant_factor(f),
{
}

} // verus!
