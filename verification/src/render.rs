//! The decisions of the renderer that do not touch the GPU: which device,
//! queue family, memory type and swapchain settings to use, how a batch
//! of shapes becomes draw commands, which pipeline binds and draws a frame
//! records, the frame rotation, and the texts of the renderer's errors.
use vstd::prelude::*;
use crate::text::{int_text, int_to_text, nat_text, unsigned_to_text};

verus! {

/// `vk::Format::B8G8R8A8_SRGB`.
pub const FORMAT_B8G8R8A8_SRGB: i32 = 50;

/// `vk::PresentModeKHR::MAILBOX`.
pub const PRESENT_MODE_MAILBOX: i32 = 1;

/// `vk::PresentModeKHR::FIFO`.
pub const PRESENT_MODE_FIFO: i32 = 2;

#[derive(Clone, Copy, Debug, PartialEq, Eq, Structural)]
pub enum SurfaceError {
    InitFailed,
    UnableToGetCapabilities,
}

impl SurfaceError {
    pub fn message(&self) -> (r: String)
        ensures
            r@ == (match self {
                SurfaceError::InitFailed => "Failed to Initalize Surface"@,
                SurfaceError::UnableToGetCapabilities => "Unable to get Surface Capabilities!"@,
            }),
    {
        match self {
            SurfaceError::InitFailed => String::from_str("Failed to Initalize Surface"),
            SurfaceError::UnableToGetCapabilities => String::from_str("Unable to get Surface Capabilities!"),
        }
    }
}

#[derive(Clone, Copy, Debug, PartialEq, Eq, Structural)]
pub enum SwapchainError {
    InitFailed,
    AquireImageFailed,
    CreateImageViewFailed(usize),
}

impl SwapchainError {
    pub fn message(&self) -> (r: String)
        ensures
            r@ == (match self {
                SwapchainError::InitFailed => "Failed to Initalize Swapchain!"@,
                SwapchainError::AquireImageFailed => "Failed to aquire swapchian Images!"@,
                SwapchainError::CreateImageViewFailed(i) => "Failed to create ImageView("@ + nat_text(
                    *i as nat,
                ) + ")!"@,
            }),
    {
        match self {
            SwapchainError::InitFailed => String::from_str("Failed to Initalize Swapchain!"),
            SwapchainError::AquireImageFailed => String::from_str("Failed to aquire swapchian Images!"),
            SwapchainError::CreateImageViewFailed(i) => {
                let mut out = String::from_str("Failed to create ImageView(");
                let n = unsigned_to_text(*i as u64);
                out.append(n.as_str());
                out.append(")!");
                out
            },
        }
    }
}

/// Why a display or window handle could not be had.
#[derive(Clone, Copy, Debug, PartialEq, Eq, Structural)]
pub enum HandleErrorKind {
    NotSupported,
    Unavailable,
    Other,
}

#[derive(Clone, Copy, Debug, PartialEq, Eq, Structural)]
pub enum ContextError {
    NoVulkanLibrary,
    MissingVulkanEntryPoint,
    DisplayHandleError(HandleErrorKind),
    WindowHandleError(HandleErrorKind),
    FailedToInitInistance,
    InitSurfaceFailed,
    PhysicalDeviceNotFound,
}

pub open spec fn context_message(e: ContextError) -> Seq<char> {
    match e {
        ContextError::NoVulkanLibrary => "No Vulkan library found!"@,
        ContextError::MissingVulkanEntryPoint => "Unable to load vulkan library!"@,
        ContextError::DisplayHandleError(k) => match k {
            HandleErrorKind::NotSupported => "Unable to load Display Handle!"@,
            HandleErrorKind::Unavailable => "Display handle is unavailable!"@,
            HandleErrorKind::Other => "An unknown error occured trying to load a Display Handle!"@,
        },
        ContextError::WindowHandleError(k) => match k {
            HandleErrorKind::NotSupported => "Unable to load Window Handle!"@,
            HandleErrorKind::Unavailable => "Window handle is unavailable!"@,
            HandleErrorKind::Other => "An unknown error occured trying to load a Window Handle!"@,
        },
        ContextError::FailedToInitInistance => "Failed to load Vulkan Instance!"@,
        ContextError::InitSurfaceFailed => "Faild to initalize Surface!"@,
        ContextError::PhysicalDeviceNotFound => "No compatable Physical Device is available!"@,
    }
}

impl ContextError {
    pub fn message(&self) -> (r: String)
        ensures
            r@ == context_message(*self),
    {
        match self {
            ContextError::NoVulkanLibrary => String::from_str("No Vulkan library found!"),
            ContextError::MissingVulkanEntryPoint => String::from_str("Unable to load vulkan library!"),
            ContextError::DisplayHandleError(k) => match k {
                HandleErrorKind::NotSupported => String::from_str("Unable to load Display Handle!"),
                HandleErrorKind::Unavailable => String::from_str("Display handle is unavailable!"),
                HandleErrorKind::Other => String::from_str(
                    "An unknown error occured trying to load a Display Handle!",
                ),
            },
            ContextError::WindowHandleError(k) => match k {
                HandleErrorKind::NotSupported => String::from_str("Unable to load Window Handle!"),
                HandleErrorKind::Unavailable => String::from_str("Window handle is unavailable!"),
                HandleErrorKind::Other => String::from_str(
                    "An unknown error occured trying to load a Window Handle!",
                ),
            },
            ContextError::FailedToInitInistance => String::from_str("Failed to load Vulkan Instance!"),
            ContextError::InitSurfaceFailed => String::from_str("Faild to initalize Surface!"),
            ContextError::PhysicalDeviceNotFound => String::from_str(
                "No compatable Physical Device is available!",
            ),
        }
    }
}

#[derive(Clone, Copy, Debug, PartialEq, Eq, Structural)]
pub enum RenderTargetError {
    FailedToAquireNextImage,
    WaitForFencesFailed,
    ResetFencesFailed,
    MissingMemoryType,
    FailedToInitBuffer,
    FailedToInitBufferMemory,
    FailedToBindBufferToMemory,
    FailedToWriteToDeviceMemory,
    ResetCommandBufferFailed,
    BeginCommandBufferFailed,
    EndCommandBufferFailed,
    SubmitToQueueFailed,
    SwapchainNeedsRecreation,
    GraphicPresentationFailed,
}

/// A pipeline could not be made; the topology is a raw
/// `vk::PrimitiveTopology` value.
#[derive(Clone, Copy, Debug, PartialEq, Eq, Structural)]
pub enum PipelineError {
    InitPiplineLayoutFailed,
    InitPipelineFailed(i32),
    InitShaderCompilerFailed,
}

pub open spec fn topology_text(t: i32) -> Seq<char> {
    if t == 0 {
        "point list"@
    } else if t == 1 {
        "line list"@
    } else if t == 2 {
        "line strip"@
    } else if t == 3 {
        "triangle list"@
    } else if t == 4 {
        "traingle strip"@
    } else if t == 5 {
        "traingle fan"@
    } else if t == 6 {
        "line list with adjacency"@
    } else if t == 7 {
        "line strip with adjacency"@
    } else if t == 8 {
        "triangle list with adjacency"@
    } else if t == 9 {
        "traingle strip with adjacency"@
    } else {
        "unknown("@ + int_text(t as int) + ")"@
    }
}

/// The name under which a topology appears in error texts.
pub fn topology_name(t: i32) -> (r: String)
    ensures
        r@ == topology_text(t),
{
    if t == 0 {
        String::from_str("point list")
    } else if t == 1 {
        String::from_str("line list")
    } else if t == 2 {
        String::from_str("line strip")
    } else if t == 3 {
        String::from_str("triangle list")
    } else if t == 4 {
        String::from_str("traingle strip")
    } else if t == 5 {
        String::from_str("traingle fan")
    } else if t == 6 {
        String::from_str("line list with adjacency")
    } else if t == 7 {
        String::from_str("line strip with adjacency")
    } else if t == 8 {
        String::from_str("triangle list with adjacency")
    } else if t == 9 {
        String::from_str("traingle strip with adjacency")
    } else {
        let mut out = String::from_str("unknown(");
        let n = int_to_text(t as i64);
        out.append(n.as_str());
        out.append(")");
        out
    }
}

impl PipelineError {
    pub fn message(&self) -> (r: String)
        ensures
            r@ == (match self {
                PipelineError::InitPiplineLayoutFailed => "Failed to initalize PipelineLayout!"@,
                PipelineError::InitShaderCompilerFailed => "Failed to initalize Shader Compiler!"@,
                PipelineError::InitPipelineFailed(t) => "Failed to initalize "@ + topology_text(*t)
                    + " Pipeline!"@,
            }),
    {
        match self {
            PipelineError::InitPiplineLayoutFailed => String::from_str("Failed to initalize PipelineLayout!"),
            PipelineError::InitShaderCompilerFailed => String::from_str(
                "Failed to initalize Shader Compiler!",
            ),
            PipelineError::InitPipelineFailed(t) => {
                let mut out = String::from_str("Failed to initalize ");
                let n = topology_name(*t);
                out.append(n.as_str());
                out.append(" Pipeline!");
                out
            },
        }
    }
}

// ---------------------------------------------------------------------------
// Memory types
/// Memory type `i` is allowed by the filter and has every wanted property.
pub open spec fn memory_type_fits(type_filter: u32, flags: Seq<u32>, properties: u32, i: int) -> bool {
    &&& 0 <= i < flags.len()
    &&& type_filter & (1u32 << (i as u32)) != 0
    &&& flags[i] & properties == properties
}

/// The first memory type that the filter allows and that has every wanted
/// property; `flags` are the property flags of the device's memory types
/// in order.
pub fn find_memory_type(type_filter: u32, flags: &[u32], properties: u32) -> (r: Option<u32>)
    requires
        flags@.len() <= 32,
    ensures
        match r {
            Some(i) => memory_type_fits(type_filter, flags@, properties, i as int) && forall|k: int|
                0 <= k < i ==> !memory_type_fits(type_filter, flags@, properties, k),
            None => forall|k: int|
                0 <= k < flags@.len() ==> !memory_type_fits(type_filter, flags@, properties, k),
        },
{
    let mut i: usize = 0;
    while i < flags.len()
        invariant
            i <= flags@.len() <= 32,
            forall|k: int| 0 <= k < i ==> !memory_type_fits(type_filter, flags@, properties, k),
        decreases flags.len() - i,
    {
        let bit: u32 = 1u32 << (i as u32);
        if (type_filter & bit) != 0 && (flags[i] & properties) == properties {
            return Some(i as u32);
        }
        i = i + 1;
    }
    None
}

// ---------------------------------------------------------------------------
// Physical device choice
/// A queue family as the choice reads it: whether it does graphics, and
/// whether it can present to the surface (`None` when asking failed).
#[derive(Clone, Copy, Debug, PartialEq, Eq, Structural)]
pub struct QueueFamily {
    pub graphics: bool,
    pub surface_support: Option<bool>,
}

/// A physical device as the choice reads it: its raw
/// `vk::PhysicalDeviceType` and its queue families in order.
#[derive(Clone, Debug)]
pub struct DeviceCandidate {
    pub device_type: i32,
    pub queue_families: Vec<QueueFamily>,
}

pub open spec fn family_fits(f: QueueFamily) -> bool {
    f.graphics && f.surface_support == Some(true)
}

/// The preference of a device type: discrete GPUs first, then
/// integrated, virtual, CPU, other, and unknown types last.
pub open spec fn type_rank(t: i32) -> u32 {
    if t == 2 {
        0
    } else if t == 1 {
        1
    } else if t == 3 {
        2
    } else if t == 4 {
        3
    } else if t == 0 {
        4
    } else {
        5
    }
}

/// Device types are preferred in this order: discrete GPU (2), integrated
/// GPU (1), virtual GPU (3), CPU (4), other (0), and any unknown type last.
pub proof fn law_device_preference(t: i32)
    requires
        t < 0 || t > 4,
    ensures
        type_rank(2) < type_rank(1),
        type_rank(1) < type_rank(3),
        type_rank(3) < type_rank(4),
        type_rank(4) < type_rank(0),
        type_rank(0) < type_rank(t),
{
}

pub fn device_type_rank(t: i32) -> (r: u32)
    ensures
        r == type_rank(t),
{
    if t == 2 {
        0
    } else if t == 1 {
        1
    } else if t == 3 {
        2
    } else if t == 4 {
        3
    } else if t == 0 {
        4
    } else {
        5
    }
}

/// The first queue family that does graphics and presents.
pub open spec fn first_fit(fams: Seq<QueueFamily>) -> Option<int>
    decreases fams.len(),
{
    if fams.len() == 0 {
        None
    } else if family_fits(fams[0]) {
        Some(0)
    } else {
        match first_fit(fams.drop_first()) {
            Some(i) => Some(i + 1),
            None => None,
        }
    }
}

/// Among the first `n` devices that have a fitting queue family, the first
/// one of best rank.
pub open spec fn best_device(devs: Seq<DeviceCandidate>, n: int) -> Option<int>
    decreases n,
{
    if n <= 0 {
        None
    } else {
        let b = best_device(devs, n - 1);
        let d = devs[n - 1];
        if first_fit(d.queue_families@) is Some && (b is None || type_rank(d.device_type) < type_rank(
            devs[b->0].device_type,
        )) {
            Some(n - 1)
        } else {
            b
        }
    }
}

fn first_fitting_family(fams: &Vec<QueueFamily>) -> (r: Option<usize>)
    ensures
        match r {
            Some(i) => first_fit(fams@) == Some(i as int),
            None => first_fit(fams@) is None,
        },
{
    let mut i: usize = 0;
    while i < fams.len()
        invariant
            i <= fams@.len(),
            forall|k: int| 0 <= k < i ==> !family_fits(#[trigger] fams@[k]),
        decreases fams.len() - i,
    {
        let f = fams[i];
        if f.graphics && f.surface_support == Some(true) {
            proof {
                lemma_first_fit(fams@, i as int);
            }
            return Some(i);
        }
        i = i + 1;
    }
    proof {
        lemma_first_fit_none(fams@);
    }
    None
}

proof fn lemma_first_fit(fams: Seq<QueueFamily>, i: int)
    requires
        0 <= i < fams.len(),
        family_fits(fams[i]),
        forall|k: int| 0 <= k < i ==> !family_fits(#[trigger] fams[k]),
    ensures
        first_fit(fams) == Some(i),
    decreases i,
{
    if i > 0 {
        assert forall|k: int| 0 <= k < i - 1 implies !family_fits(#[trigger] fams.drop_first()[k]) by {
            assert(fams.drop_first()[k] == fams[k + 1]);
        }
        lemma_first_fit(fams.drop_first(), i - 1);
    }
}

proof fn lemma_first_fit_none(fams: Seq<QueueFamily>)
    requires
        forall|k: int| 0 <= k < fams.len() ==> !family_fits(#[trigger] fams[k]),
    ensures
        first_fit(fams) is None,
    decreases fams.len(),
{
    if fams.len() > 0 {
        assert forall|k: int| 0 <= k < fams.len() - 1 implies !family_fits(#[trigger] fams.drop_first()[k]) by {
            assert(fams.drop_first()[k] == fams[k + 1]);
        }
        lemma_first_fit_none(fams.drop_first());
    }
}

/// The device to render with and its queue family: of the devices with
/// a queue family that does graphics and presents, the first one whose
/// type ranks best, together with its first such family.
pub fn select_physical_device(devs: &Vec<DeviceCandidate>) -> (r: Option<(usize, usize)>)
    ensures
        match r {
            Some((d, f)) => best_device(devs@, devs@.len() as int) == Some(d as int) && first_fit(
                devs@[d as int].queue_families@,
            ) == Some(f as int),
            None => best_device(devs@, devs@.len() as int) is None,
        },
{
    let mut best: Option<(usize, usize)> = None;
    let mut i: usize = 0;
    while i < devs.len()
        invariant
            i <= devs@.len(),
            match best {
                Some((d, f)) => best_device(devs@, i as int) == Some(d as int) && d < i && first_fit(
                    devs@[d as int].queue_families@,
                ) == Some(f as int),
                None => best_device(devs@, i as int) is None,
            },
        decreases devs.len() - i,
    {
        let fam = first_fitting_family(&devs[i].queue_families);
        match fam {
            Some(f) => {
                let better = match best {
                    None => true,
                    Some((d, _)) => device_type_rank(devs[i].device_type) < device_type_rank(
                        devs[d].device_type,
                    ),
                };
                if better {
                    best = Some((i, f));
                }
            },
            None => {},
        }
        i = i + 1;
    }
    best
}

// ---------------------------------------------------------------------------
// Swapchain settings
/// What the surface reports that the swapchain settings depend on.
#[derive(Clone, Copy, Debug, PartialEq, Eq, Structural)]
pub struct SurfaceCaps {
    pub min_image_count: u32,
    pub max_image_count: u32,
    pub current_width: u32,
    pub current_height: u32,
}

/// The chosen swapchain settings: image count, extent, which of the
/// offered formats, and the raw present mode.
#[derive(Clone, Copy, Debug, PartialEq, Eq, Structural)]
pub struct SwapchainChoice {
    pub image_count: u32,
    pub width: u32,
    pub height: u32,
    pub format_index: usize,
    pub present_mode: i32,
}

pub open spec fn first_srgb(formats: Seq<i32>, i: int) -> bool {
    &&& 0 <= i < formats.len()
    &&& formats[i] == FORMAT_B8G8R8A8_SRGB
    &&& forall|k: int| 0 <= k < i ==> formats[k] != FORMAT_B8G8R8A8_SRGB
}

/// The swapchain settings for a surface: one image more than the least the
/// surface takes, but no more than its most; the surface's extent unless
/// it leaves the extent to the window (width `u32::MAX`); the first
/// B8G8R8A8_SRGB format offered, else the first format; mailbox
/// presentation when offered, else FIFO.
pub fn choose_swapchain(caps: SurfaceCaps, formats: &[i32], present_modes: &[i32], window_width: u32, window_height: u32) -> (r: SwapchainChoice)
    requires
        formats@.len() > 0,
        caps.min_image_count < u32::MAX,
    ensures
        r.image_count == (if caps.min_image_count + 1 > caps.max_image_count {
            caps.max_image_count
        } else {
            (caps.min_image_count + 1) as u32
        }),
        (r.width, r.height) == (if caps.current_width != u32::MAX {
            (caps.current_width, caps.current_height)
        } else {
            (window_width, window_height)
        }),
        r.format_index < formats@.len(),
        formats@.contains(FORMAT_B8G8R8A8_SRGB) ==> first_srgb(formats@, r.format_index as int),
        !formats@.contains(FORMAT_B8G8R8A8_SRGB) ==> r.format_index == 0,
        r.present_mode == (if present_modes@.contains(PRESENT_MODE_MAILBOX) {
            PRESENT_MODE_MAILBOX
        } else {
            PRESENT_MODE_FIFO
        }),
{
    let mut image_count = caps.min_image_count + 1;
    if image_count > caps.max_image_count {
        image_count = caps.max_image_count;
    }
    let (width, height) = if caps.current_width != u32::MAX {
        (caps.current_width, caps.current_height)
    } else {
        (window_width, window_height)
    };
    let mut format_index: usize = 0;
    let mut i: usize = 0;
    let mut found = false;
    while !found && i < formats.len()
        invariant
            i <= formats@.len(),
            !found ==> format_index == 0 && forall|k: int| 0 <= k < i ==> formats@[k] != FORMAT_B8G8R8A8_SRGB,
            found ==> first_srgb(formats@, format_index as int),
        decreases formats.len() - i + (if found { 0int } else { 1int }),
    {
        if formats[i] == FORMAT_B8G8R8A8_SRGB {
            format_index = i;
            found = true;
        } else {
            i = i + 1;
        }
    }
    proof {
        if found {
            assert(formats@[format_index as int] == FORMAT_B8G8R8A8_SRGB);
        } else {
            assert(!formats@.contains(FORMAT_B8G8R8A8_SRGB));
        }
    }
    let mut present_mode = PRESENT_MODE_FIFO;
    let mut j: usize = 0;
    while j < present_modes.len()
        invariant
            j <= present_modes@.len(),
            present_mode == PRESENT_MODE_FIFO || present_mode == PRESENT_MODE_MAILBOX,
            (present_mode == PRESENT_MODE_MAILBOX) <==> exists|k: int|
                0 <= k < j && present_modes@[k] == PRESENT_MODE_MAILBOX,
        decreases present_modes.len() - j,
    {
        if present_modes[j] == PRESENT_MODE_MAILBOX {
            present_mode = PRESENT_MODE_MAILBOX;
        }
        j = j + 1;
    }
    SwapchainChoice { image_count, width, height, format_index, present_mode }
}

// ---------------------------------------------------------------------------
// Draw commands
/// One draw call of a batch: how many vertices, where they start in the
/// shared vertex buffer, which colour entry (instance) they use, and the
/// raw topology.
#[derive(Clone, Copy, Debug, PartialEq, Eq, Structural)]
pub struct DrawCommand {
    pub vertex_count: u32,
    pub first_vertex: u32,
    pub color_index: u32,
    pub topology: i32,
}

/// A shape of a batch as the batching reads it: its number of vertices and
/// its raw topology.
#[derive(Clone, Copy, Debug, PartialEq, Eq, Structural)]
pub struct ShapeExtent {
    pub vertex_count: usize,
    pub topology: i32,
}

/// The vertex counts of the first `n` shapes (each cut to 32 bits) added up.
pub open spec fn vertex_offset(shapes: Seq<ShapeExtent>, n: int) -> int
    decreases n,
{
    if n <= 0 {
        0
    } else {
        vertex_offset(shapes, n - 1) + (shapes[n - 1].vertex_count as u32) as int
    }
}

/// The draw command of shape `i`.
pub open spec fn command_of(shapes: Seq<ShapeExtent>, i: int) -> DrawCommand {
    DrawCommand {
        vertex_count: shapes[i].vertex_count as u32,
        first_vertex: vertex_offset(shapes, i) as u32,
        color_index: i as u32,
        topology: shapes[i].topology,
    }
}

proof fn lemma_offset_monotone(shapes: Seq<ShapeExtent>, i: int, j: int)
    requires
        0 <= i <= j,
    ensures
        vertex_offset(shapes, i) <= vertex_offset(shapes, j),
    decreases j - i,
{
    if i < j {
        lemma_offset_monotone(shapes, i, j - 1);
    }
}

/// The draw commands of a batch, one per shape in order, whose vertices
/// follow one another in the shared buffer.
pub fn build_draw_commands(shapes: &[ShapeExtent]) -> (r: Vec<DrawCommand>)
    requires
        vertex_offset(shapes@, shapes@.len() as int) <= u32::MAX,
    ensures
        r@.len() == shapes@.len(),
        forall|i: int| 0 <= i < r@.len() ==> #[trigger] r@[i] == command_of(shapes@, i),
{
    let mut commands: Vec<DrawCommand> = Vec::new();
    let mut offset: u32 = 0;
    let mut i: usize = 0;
    while i < shapes.len()
        invariant
            i <= shapes@.len(),
            vertex_offset(shapes@, shapes@.len() as int) <= u32::MAX,
            offset as int == vertex_offset(shapes@, i as int),
            commands@.len() == i,
            forall|k: int| 0 <= k < i ==> #[trigger] commands@[k] == command_of(shapes@, k),
        decreases shapes.len() - i,
    {
        let s = shapes[i];
        let vertex_count = s.vertex_count as u32;
        commands.push(DrawCommand { vertex_count, first_vertex: offset, color_index: i as u32, topology: s.topology });
        proof {
            lemma_offset_monotone(shapes@, i + 1, shapes@.len() as int);
        }
        offset = offset + vertex_count;
        i = i + 1;
    }
    commands
}

/// A step of recording a frame's draw calls.
#[derive(Clone, Copy, Debug, PartialEq, Eq, Structural)]
pub enum DrawOp {
    /// Bind the pipeline with this raw handle.
    BindPipeline(u64),
    /// Draw `vertex_count` vertices from `first_vertex` as one instance
    /// starting at `first_instance`.
    Draw { vertex_count: u32, first_vertex: u32, first_instance: u32 },
}

/// The steps for `cmds`, given the pipeline bound so far and the instance
/// of the first command: a pipeline is bound only when it differs from
/// the one bound, and each command draws one instance, the next one.
pub open spec fn plan_from(cmds: Seq<DrawCommand>, pipelines: Seq<u64>, active: u64, instance: int) -> Seq<DrawOp>
    decreases cmds.len(),
{
    if cmds.len() == 0 {
        Seq::empty()
    } else {
        let c = cmds[0];
        let needed = pipelines[c.topology as int];
        let binds = if needed != active {
            seq![DrawOp::BindPipeline(needed)]
        } else {
            Seq::empty()
        };
        binds + seq![DrawOp::Draw { vertex_count: c.vertex_count, first_vertex: c.first_vertex, first_instance: instance as u32 }]
            + plan_from(cmds.drop_first(), pipelines, needed, instance + 1)
    }
}

/// The pipeline binds and draws a frame records after binding the vertex
/// buffers: none while the buffers are empty, else `plan_from` starting
/// with no pipeline bound (the null handle 0) and instance 0.
/// `pipelines[t]` is the pipeline of raw topology `t`.
pub fn draw_plan(cmds: &[DrawCommand], pipelines: &[u64], buffers_empty: bool) -> (r: Vec<DrawOp>)
    requires
        cmds@.len() <= u32::MAX,
        forall|i: int| 0 <= i < cmds@.len() ==> 0 <= (#[trigger] cmds@[i]).topology < pipelines@.len(),
    ensures
        r@ == (if buffers_empty {
            Seq::empty()
        } else {
            plan_from(cmds@, pipelines@, 0, 0)
        }),
{
    let mut ops: Vec<DrawOp> = Vec::new();
    if buffers_empty {
        return ops;
    }
    let mut active: u64 = 0;
    let mut instance: u32 = 0;
    let mut i: usize = 0;
    assert(cmds@.skip(0) =~= cmds@);
    assert(ops@ + plan_from(cmds@, pipelines@, 0, 0) =~= plan_from(cmds@, pipelines@, 0, 0));
    while i < cmds.len()
        invariant
            i <= cmds@.len() <= u32::MAX,
            instance == i,
            forall|k: int| 0 <= k < cmds@.len() ==> 0 <= (#[trigger] cmds@[k]).topology < pipelines@.len(),
            ops@ + plan_from(cmds@.skip(i as int), pipelines@, active, i as int) == plan_from(cmds@, pipelines@, 0, 0),
        decreases cmds.len() - i,
    {
        let c = cmds[i];
        let needed = pipelines[c.topology as usize];
        let ghost before = ops@;
        let ghost was_active = active;
        proof {
            let tail = cmds@.skip(i as int);
            assert(tail[0] == c);
            assert(tail.drop_first() =~= cmds@.skip(i + 1));
        }
        if needed != active {
            ops.push(DrawOp::BindPipeline(needed));
            active = needed;
        }
        ops.push(DrawOp::Draw { vertex_count: c.vertex_count, first_vertex: c.first_vertex, first_instance: instance });
        proof {
            let rest = plan_from(cmds@.skip(i + 1), pipelines@, needed, i + 1);
            let binds: Seq<DrawOp> = if needed != was_active {
                seq![DrawOp::BindPipeline(needed)]
            } else {
                Seq::empty()
            };
            let draw = seq![DrawOp::Draw { vertex_count: c.vertex_count, first_vertex: c.first_vertex, first_instance: instance }];
            assert(ops@ =~= before + binds + draw);
            assert(plan_from(cmds@.skip(i as int), pipelines@, was_active, i as int) == binds + draw + rest);
            assert(ops@ + rest =~= before + (binds + draw + rest));
        }
        i = i + 1;
        instance = instance + 1;
    }
    assert(cmds@.skip(cmds@.len() as int).len() == 0);
    assert(ops@ + Seq::<DrawOp>::empty() =~= ops@);
    ops
}

/// `vk::Result::ERROR_OUT_OF_DATE_KHR`.
pub const RESULT_OUT_OF_DATE: i32 = -1000001004;

/// `vk::Result::SUBOPTIMAL_KHR`.
pub const RESULT_SUBOPTIMAL: i32 = 1000001003;

/// What a frame does after asking for the next swapchain image.
#[derive(Clone, Copy, Debug, PartialEq, Eq, Structural)]
pub enum AcquireOutcome {
    /// Draw into the image with this index.
    Draw(u32),
    /// The swapchain is out of date: end the frame without drawing and
    /// without error, and without moving on to the next frame.
    Skip,
    /// End the frame with this error.
    Fail(RenderTargetError),
}

/// The outcome of asking for the next image: the image's index, or the
/// raw `vk::Result` of the failure.
pub fn acquire_outcome(result: Result<u32, i32>) -> (r: AcquireOutcome)
    ensures
        r == (match result {
            Ok(index) => AcquireOutcome::Draw(index),
            Err(code) => if code == RESULT_OUT_OF_DATE {
                AcquireOutcome::Skip
            } else {
                AcquireOutcome::Fail(RenderTargetError::FailedToAquireNextImage)
            },
        }),
{
    match result {
        Ok(index) => AcquireOutcome::Draw(index),
        Err(code) => if code == RESULT_OUT_OF_DATE {
            AcquireOutcome::Skip
        } else {
            AcquireOutcome::Fail(RenderTargetError::FailedToAquireNextImage)
        },
    }
}

/// The outcome of presenting a frame, given the raw `vk::Result` of a
/// failure: an out-of-date or suboptimal swapchain asks for the swapchain
/// to be made again; any other failure is a failed presentation.
pub fn present_outcome(result: Result<(), i32>) -> (r: Result<(), RenderTargetError>)
    ensures
        r == (match result {
            Ok(()) => Ok(()),
            Err(code) => if code == RESULT_OUT_OF_DATE || code == RESULT_SUBOPTIMAL {
                Err(RenderTargetError::SwapchainNeedsRecreation)
            } else {
                Err(RenderTargetError::GraphicPresentationFailed)
            },
        }),
{
    match result {
        Ok(()) => Ok(()),
        Err(code) => if code == RESULT_OUT_OF_DATE || code == RESULT_SUBOPTIMAL {
            Err(RenderTargetError::SwapchainNeedsRecreation)
        } else {
            Err(RenderTargetError::GraphicPresentationFailed)
        },
    }
}

/// The frame in flight after `current`, counting round `max_frames`.
pub fn next_frame(current: usize, max_frames: usize) -> (r: usize)
    requires
        max_frames > 0,
        current < usize::MAX,
    ensures
        r == (current + 1) % (max_frames as int),
{
    (current + 1) % max_frames
}

} // verus!
