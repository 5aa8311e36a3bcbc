use battle_tok_render::gpu_context::{choose_context_present_mode, surface_extent, GpuContextConfig};
use battle_tok_render::pipeline::{
    accepts_resize, choose_render_present_mode, get_recommended_resolution, is_software_adapter,
    names_software_renderer,
    surface_size, tile_data_buffer_size, PresentModeChoice, RenderConfig,
};
use battle_tok_render::render_pass::{pass_order, RenderPassPriority};

#[test]
fn recommended_resolution_depends_on_renderer() {
    assert_eq!(get_recommended_resolution(true), (1280, 720));
    assert_eq!(get_recommended_resolution(false), (1920, 1080));
}

#[test]
fn render_config_default_is_uncapped_1080p() {
    let config = RenderConfig::default();
    assert_eq!((config.width, config.height, config.vsync), (1920, 1080, false));
}

#[test]
fn software_renderers_are_detected_by_name_or_device_type() {
    assert!(is_software_adapter("llvmpipe (LLVM 15.0.7, 256 bits)", false));
    assert!(is_software_adapter("Vulkan LavaPipe", false));
    assert!(is_software_adapter("Google SwiftShader", false));
    assert!(is_software_adapter("Some GPU", true));
    assert!(!is_software_adapter("NVIDIA GeForce RTX 3080", false));
    assert!(!is_software_adapter("", false));
}

#[test]
fn render_present_mode_choice() {
    assert_eq!(choose_render_present_mode(true, false, true, true), PresentModeChoice::AutoVsync);
    assert_eq!(choose_render_present_mode(false, true, true, true), PresentModeChoice::Mailbox);
    assert_eq!(choose_render_present_mode(false, true, true, false), PresentModeChoice::Fifo);
    assert_eq!(choose_render_present_mode(false, false, true, true), PresentModeChoice::Immediate);
    assert_eq!(choose_render_present_mode(false, false, false, true), PresentModeChoice::Mailbox);
    assert_eq!(choose_render_present_mode(false, false, false, false), PresentModeChoice::Fifo);
}

#[test]
fn context_present_mode_choice() {
    assert_eq!(choose_context_present_mode(true, true, true), PresentModeChoice::AutoVsync);
    assert_eq!(choose_context_present_mode(false, true, true), PresentModeChoice::Immediate);
    assert_eq!(choose_context_present_mode(false, false, true), PresentModeChoice::Mailbox);
    assert_eq!(choose_context_present_mode(false, false, false), PresentModeChoice::AutoVsync);
}

#[test]
fn surface_sizes() {
    let config = RenderConfig::default();
    assert_eq!(surface_size(0, 600, &config), (1920, 600));
    assert_eq!(surface_size(800, 0, &config), (800, 1080));
    assert_eq!(surface_extent(0, 0), (1, 1));
    assert_eq!(surface_extent(640, 480), (640, 480));
    assert!(accepts_resize(1, 1));
    assert!(!accepts_resize(0, 10));
    assert!(!accepts_resize(10, 0));
}

#[test]
fn tile_buffer_size_for_configured_resolution() {
    assert_eq!(tile_data_buffer_size(1920, 1080), 16 + 8160 * 136);
    assert_eq!(tile_data_buffer_size(1280, 720), 16 + 80 * 45 * 136);
}

#[test]
fn gpu_context_config_defaults() {
    let config = GpuContextConfig::default_for_build(true);
    assert!(!config.vsync);
    assert!(config.high_performance);
    assert!(config.debug);
    assert!(!GpuContextConfig::default_for_build(false).debug);
}

#[test]
fn passes_run_by_priority_then_insertion_order() {
    let priorities = [RenderPassPriority::UI, RenderPassPriority::Geometry, RenderPassPriority::Background, RenderPassPriority::Geometry, RenderPassPriority::PostProcess, RenderPassPriority::Translucent];
    assert_eq!(pass_order(&priorities), vec![2, 1, 3, 5, 4, 0]);
    assert_eq!(pass_order(&[]), Vec::<usize>::new());
    assert_eq!(RenderPassPriority::UI.value(), 400);
    assert_eq!(RenderPassPriority::Background.value(), 0);
}

#[test]
fn software_names_are_matched_after_lower_casing() {
    assert!(names_software_renderer("vulkan lavapipe", false));
    assert!(!names_software_renderer("Vulkan LavaPipe", false));
    assert!(names_software_renderer("anything", true));
    assert!(!names_software_renderer("llvm pipe", false));
}
