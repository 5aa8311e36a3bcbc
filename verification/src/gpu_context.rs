//! Choices made when creating the shared GPU context.

use vstd::prelude::*;
use crate::pipeline::PresentModeChoice;

verus! {

/// Settings for creating the GPU context.
#[derive(Copy, Clone, Debug)]
pub struct GpuContextConfig {
    /// Present with vertical sync (capped) or without (uncapped).
    pub vsync: bool,
    /// Prefer the high-performance adapter over the low-power one.
    pub high_performance: bool,
    /// Enable debug validation.
    pub debug: bool,
}

impl GpuContextConfig {
    /// The default settings of a build: uncapped, high performance, and debug validation
    /// exactly when the build has debug assertions.
    pub fn default_for_build(debug_assertions: bool) -> (config: GpuContextConfig)
        ensures
            !config.vsync,
            config.high_performance,
            config.debug == debug_assertions,
    {
        GpuContextConfig { vsync: false, high_performance: true, debug: debug_assertions }
    }
}

/// The presentation mode of the GPU context: vertical sync when asked for, otherwise
/// Immediate, else Mailbox, else vertical sync.
pub fn choose_context_present_mode(vsync: bool, supports_immediate: bool, supports_mailbox: bool) -> (mode: PresentModeChoice)
    ensures
        mode == (if vsync {
            PresentModeChoice::AutoVsync
        } else if supports_immediate {
            PresentModeChoice::Immediate
        } else if supports_mailbox {
            PresentModeChoice::Mailbox
        } else {
            PresentModeChoice::AutoVsync
        }),
{
    if vsync {
        PresentModeChoice::AutoVsync
    } else if supports_immediate {
        PresentModeChoice::Immediate
    } else if supports_mailbox {
        PresentModeChoice::Mailbox
    } else {
        PresentModeChoice::AutoVsync
    }
}

/// The extent of the surface and depth texture for a window of `width × height`: each side at
/// least 1.
pub fn surface_extent(width: u32, height: u32) -> (extent: (u32, u32))
    ensures
        extent.0 == (if width > 0 { width } else { 1 }),
        extent.1 == (if height > 0 { height } else { 1 }),
{
    (if width > 0 { width } else { 1 }, if height > 0 { height } else { 1 })
}

} // verus!
