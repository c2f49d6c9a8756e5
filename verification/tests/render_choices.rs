use rust_gui::render::{
    acquire_outcome, present_outcome, AcquireOutcome, RenderTargetError, RESULT_OUT_OF_DATE, RESULT_SUBOPTIMAL,
    build_draw_commands, choose_swapchain, device_type_rank, draw_plan, find_memory_type, next_frame,
    select_physical_device, topology_name, ContextError, DeviceCandidate, DrawCommand, DrawOp,
    HandleErrorKind, PipelineError, QueueFamily, ShapeExtent, SurfaceCaps, SurfaceError,
    SwapchainError, FORMAT_B8G8R8A8_SRGB, PRESENT_MODE_FIFO, PRESENT_MODE_MAILBOX,
};

#[test]
fn error_texts() {
    assert_eq!(SurfaceError::InitFailed.message(), "Failed to Initalize Surface");
    assert_eq!(SwapchainError::CreateImageViewFailed(3).message(), "Failed to create ImageView(3)!");
    assert_eq!(
        ContextError::WindowHandleError(HandleErrorKind::Unavailable).message(),
        "Window handle is unavailable!"
    );
    assert_eq!(
        PipelineError::InitPipelineFailed(3).message(),
        "Failed to initalize triangle list Pipeline!"
    );
    assert_eq!(PipelineError::InitPipelineFailed(77).message(), "Failed to initalize unknown(77) Pipeline!");
    assert_eq!(topology_name(5), "traingle fan");
}

#[test]
fn memory_type_is_the_first_that_fits() {
    let flags = [0b0001u32, 0b0110, 0b0111];
    assert_eq!(find_memory_type(0b111, &flags, 0b0110), Some(1));
    assert_eq!(find_memory_type(0b101, &flags, 0b0110), Some(2));
    assert_eq!(find_memory_type(0b001, &flags, 0b0110), None);
    assert_eq!(find_memory_type(u32::MAX, &[], 0), None);
}

#[test]
fn picks_the_best_ranked_device_that_can_present() {
    let present = QueueFamily { graphics: true, surface_support: Some(true) };
    let compute = QueueFamily { graphics: false, surface_support: Some(true) };
    let unknown = QueueFamily { graphics: true, surface_support: None };
    let devs = vec![
        DeviceCandidate { device_type: 1, queue_families: vec![compute, present] },
        DeviceCandidate { device_type: 2, queue_families: vec![unknown] },
        DeviceCandidate { device_type: 2, queue_families: vec![compute, compute, present] },
        DeviceCandidate { device_type: 2, queue_families: vec![present] },
    ];
    assert_eq!(select_physical_device(&devs), Some((2, 2)));
    assert_eq!(select_physical_device(&devs[..2].to_vec()), Some((0, 1)));
    assert_eq!(select_physical_device(&Vec::new()), None);
    assert_eq!(device_type_rank(2), 0);
    assert_eq!(device_type_rank(0), 4);
    assert_eq!(device_type_rank(42), 5);
}

#[test]
fn swapchain_settings() {
    let caps = SurfaceCaps { min_image_count: 2, max_image_count: 3, current_width: 640, current_height: 480 };
    let c = choose_swapchain(caps, &[44, FORMAT_B8G8R8A8_SRGB], &[PRESENT_MODE_FIFO, PRESENT_MODE_MAILBOX], 1, 1);
    assert_eq!((c.image_count, c.width, c.height, c.format_index, c.present_mode), (3, 640, 480, 1, PRESENT_MODE_MAILBOX));
    let caps = SurfaceCaps { min_image_count: 3, max_image_count: 3, current_width: u32::MAX, current_height: 0 };
    let c = choose_swapchain(caps, &[44, 45], &[PRESENT_MODE_FIFO], 800, 600);
    assert_eq!((c.image_count, c.width, c.height, c.format_index, c.present_mode), (3, 800, 600, 0, PRESENT_MODE_FIFO));
}

#[test]
fn draw_commands_follow_one_another() {
    let shapes = [
        ShapeExtent { vertex_count: 3, topology: 3 },
        ShapeExtent { vertex_count: 4, topology: 4 },
        ShapeExtent { vertex_count: 2, topology: 1 },
    ];
    let cmds = build_draw_commands(&shapes);
    assert_eq!(
        cmds,
        vec![
            DrawCommand { vertex_count: 3, first_vertex: 0, color_index: 0, topology: 3 },
            DrawCommand { vertex_count: 4, first_vertex: 3, color_index: 1, topology: 4 },
            DrawCommand { vertex_count: 2, first_vertex: 7, color_index: 2, topology: 1 },
        ]
    );
}

#[test]
fn draw_plan_binds_only_on_change() {
    let pipelines = [10u64, 11, 12, 13, 13];
    let cmds = [
        DrawCommand { vertex_count: 3, first_vertex: 0, color_index: 0, topology: 3 },
        DrawCommand { vertex_count: 4, first_vertex: 3, color_index: 1, topology: 4 },
        DrawCommand { vertex_count: 2, first_vertex: 7, color_index: 2, topology: 1 },
    ];
    assert_eq!(
        draw_plan(&cmds, &pipelines, false),
        vec![
            DrawOp::BindPipeline(13),
            DrawOp::Draw { vertex_count: 3, first_vertex: 0, first_instance: 0 },
            DrawOp::Draw { vertex_count: 4, first_vertex: 3, first_instance: 1 },
            DrawOp::BindPipeline(11),
            DrawOp::Draw { vertex_count: 2, first_vertex: 7, first_instance: 2 },
        ]
    );
    assert!(draw_plan(&cmds, &pipelines, true).is_empty());
}

#[test]
fn frames_rotate() {
    assert_eq!(next_frame(0, 2), 1);
    assert_eq!(next_frame(1, 2), 0);
    assert_eq!(next_frame(4, 3), 2);
}

#[test]
fn every_error_has_its_text() {
    assert_eq!(SurfaceError::UnableToGetCapabilities.message(), "Unable to get Surface Capabilities!");
    assert_eq!(SwapchainError::InitFailed.message(), "Failed to Initalize Swapchain!");
    assert_eq!(SwapchainError::AquireImageFailed.message(), "Failed to aquire swapchian Images!");
    assert_eq!(ContextError::NoVulkanLibrary.message(), "No Vulkan library found!");
    assert_eq!(ContextError::MissingVulkanEntryPoint.message(), "Unable to load vulkan library!");
    assert_eq!(
        ContextError::DisplayHandleError(HandleErrorKind::NotSupported).message(),
        "Unable to load Display Handle!"
    );
    assert_eq!(
        ContextError::DisplayHandleError(HandleErrorKind::Other).message(),
        "An unknown error occured trying to load a Display Handle!"
    );
    assert_eq!(ContextError::FailedToInitInistance.message(), "Failed to load Vulkan Instance!");
    assert_eq!(ContextError::InitSurfaceFailed.message(), "Faild to initalize Surface!");
    assert_eq!(ContextError::PhysicalDeviceNotFound.message(), "No compatable Physical Device is available!");
    assert_eq!(PipelineError::InitPiplineLayoutFailed.message(), "Failed to initalize PipelineLayout!");
    assert_eq!(PipelineError::InitShaderCompilerFailed.message(), "Failed to initalize Shader Compiler!");
    assert_eq!(PipelineError::InitPipelineFailed(-1).message(), "Failed to initalize unknown(-1) Pipeline!");
}

#[test]
fn acquire_and_present_outcomes() {
    assert_eq!(acquire_outcome(Ok(2)), AcquireOutcome::Draw(2));
    assert_eq!(acquire_outcome(Err(RESULT_OUT_OF_DATE)), AcquireOutcome::Skip);
    assert_eq!(acquire_outcome(Err(-3)), AcquireOutcome::Fail(RenderTargetError::FailedToAquireNextImage));
    assert_eq!(present_outcome(Ok(())), Ok(()));
    assert_eq!(present_outcome(Err(RESULT_SUBOPTIMAL)), Err(RenderTargetError::SwapchainNeedsRecreation));
    assert_eq!(present_outcome(Err(RESULT_OUT_OF_DATE)), Err(RenderTargetError::SwapchainNeedsRecreation));
    assert_eq!(present_outcome(Err(-4)), Err(RenderTargetError::GraphicPresentationFailed));
    assert_eq!(
        SwapchainError::CreateImageViewFailed(usize::MAX).message(),
        format!("Failed to create ImageView({})!", usize::MAX)
    );
}
