//! Choices made while setting up rendering: resolution, presentation mode, software renderer
//! detection and surface size.

use vstd::prelude::*;
use crate::culling::{TileBufferHeader, TILE_BUFFER_HEADER_SIZE, TILE_DATA_SIZE};

verus! {

/// Window and presentation settings for the render pipeline.
#[derive(Copy, Clone, Debug)]
pub struct RenderConfig {
    /// Window width in pixels.
    pub width: u32,
    /// Window height in pixels.
    pub height: u32,
    /// Whether presentation waits for vertical sync.
    pub vsync: bool,
}

impl Default for RenderConfig {
    /// 1920×1080 without vertical sync.
    fn default() -> (config: RenderConfig)
        ensures
            config.width == 1920,
            config.height == 1080,
            !config.vsync,
    {
        RenderConfig { width: 1920, height: 1080, vsync: false }
    }
}

/// 1280×720 for a software renderer, 1920×1080 for a real GPU.
pub fn get_recommended_resolution(is_software: bool) -> (resolution: (u32, u32))
    ensures
        resolution == (if is_software { (1280u32, 720u32) } else { (1920u32, 1080u32) }),
{
    if is_software {
        (1280, 720)
    } else {
        (1920, 1080)
    }
}

/// How frames are presented; the same modes as the GPU API offers.
#[derive(Copy, Clone, Debug, PartialEq, Eq, Structural)]
pub enum PresentModeChoice {
    /// Vertical sync, chosen by the driver.
    AutoVsync,
    /// No waiting at all.
    Immediate,
    /// Latest frame wins, without tearing.
    Mailbox,
    /// First in, first out (vertical sync).
    Fifo,
}

/// The presentation mode of the main render pipeline: vertical sync when asked for; on a
/// software renderer Mailbox if offered, else Fifo; on a GPU Immediate, else Mailbox, else Fifo.
pub fn choose_render_present_mode(
    vsync: bool,
    is_software: bool,
    supports_immediate: bool,
    supports_mailbox: bool,
) -> (mode: PresentModeChoice)
    ensures
        mode == (if vsync {
            PresentModeChoice::AutoVsync
        } else if is_software {
            if supports_mailbox { PresentModeChoice::Mailbox } else { PresentModeChoice::Fifo }
        } else if supports_immediate {
            PresentModeChoice::Immediate
        } else if supports_mailbox {
            PresentModeChoice::Mailbox
        } else {
            PresentModeChoice::Fifo
        }),
{
    if vsync {
        PresentModeChoice::AutoVsync
    } else if is_software {
        if supports_mailbox {
            PresentModeChoice::Mailbox
        } else {
            PresentModeChoice::Fifo
        }
    } else if supports_immediate {
        PresentModeChoice::Immediate
    } else if supports_mailbox {
        PresentModeChoice::Mailbox
    } else {
        PresentModeChoice::Fifo
    }
}

/// The size the surface is configured with: the window's size, each side falling back to the
/// configured one when the window reports 0.
pub fn surface_size(window_width: u32, window_height: u32, config: &RenderConfig) -> (size: (u32, u32))
    ensures
        size.0 == (if window_width > 0 { window_width } else { config.width }),
        size.1 == (if window_height > 0 { window_height } else { config.height }),
{
    let width = if window_width > 0 { window_width } else { config.width };
    let height = if window_height > 0 { window_height } else { config.height };
    (width, height)
}

/// Whether a resize to `new_width × new_height` reconfigures the surface: only when both
/// sides are positive.
pub fn accepts_resize(new_width: u32, new_height: u32) -> (accepted: bool)
    ensures
        accepted == (new_width > 0 && new_height > 0),
{
    new_width > 0 && new_height > 0
}

/// Bytes of the GPU tile buffer for a `width × height` configuration: the header and one
/// tile per grid cell.
pub fn tile_data_buffer_size(width: u32, height: u32) -> (size: usize)
    requires
        TileBufferHeader::fits(width, height),
        TILE_BUFFER_HEADER_SIZE + crate::culling::ceil_div(width as int, 16) * crate::culling::ceil_div(height as int, 16) * TILE_DATA_SIZE <= usize::MAX,
    ensures
        size == TILE_BUFFER_HEADER_SIZE + crate::culling::ceil_div(width as int, 16) * crate::culling::ceil_div(height as int, 16) * TILE_DATA_SIZE,
{
    let header = TileBufferHeader::for_resolution(width, height);
    let tile_count = header.total_tiles as usize;
    TILE_BUFFER_HEADER_SIZE + tile_count * TILE_DATA_SIZE
}

/// The characters of `s`, in order.
pub fn chars_of(s: &str) -> (chars: Vec<char>)
    ensures
        chars@ == s@,
{
    let mut chars: Vec<char> = Vec::new();
    for c in it: s.chars()
        invariant
            chars@ == it.seq().take(it.index() as int),
    {
        chars.push(c);
    }
    chars
}

/// The lower-case form of a string, as `str::to_lowercase` gives it.
pub uninterp spec fn spec_to_lowercase(s: Seq<char>) -> Seq<char>;

/// Calls `str::to_lowercase`, whose result is a function of the string alone.
#[verifier::external_body]
fn to_lowercase(s: &str) -> (lower: String)
    ensures
        lower@ == spec_to_lowercase(s@),
{
    s.to_lowercase()
}

/// Whether `needle` occurs in `hay` at position `at`.
pub open spec fn occurs_at(hay: Seq<char>, needle: Seq<char>, at: int) -> bool {
    0 <= at && at + needle.len() <= hay.len() && hay.subrange(at, at + needle.len()) == needle
}

/// Whether `needle` occurs somewhere in `hay`.
pub open spec fn contains_seq(hay: Seq<char>, needle: Seq<char>) -> bool {
    exists|at: int| #[trigger] occurs_at(hay, needle, at)
}

/// Whether `needle` occurs somewhere in `hay`.
pub fn contains_chars(hay: &Vec<char>, needle: &Vec<char>) -> (found: bool)
    ensures
        found == contains_seq(hay@, needle@),
{
    let n = needle.len();
    if n > hay.len() {
        proof {
            assert forall|at: int| !#[trigger] occurs_at(hay@, needle@, at) by {}
        }
        return false;
    }
    if n == 0 {
        assert(hay@.subrange(0, 0) =~= needle@);
        assert(occurs_at(hay@, needle@, 0));
        return true;
    }
    let last = hay.len() - n;
    let mut at: usize = 0;
    while at <= last
        invariant
            n == needle@.len(),
            n > 0,
            last + n == hay@.len(),
            last + n <= usize::MAX,
            at <= last + 1,
            forall|k: int| 0 <= k < at ==> !#[trigger] occurs_at(hay@, needle@, k),
        decreases last + 1 - at,
    {
        let mut j: usize = 0;
        let mut same = true;
        while j < n
            invariant
                n == needle@.len(),
                last + n == hay@.len(),
                last + n <= usize::MAX,
                at <= last,
                j <= n,
                same == (forall|k: int| 0 <= k < j ==> hay@[at + k] == needle@[k]),
            decreases n - j,
        {
            if hay[at + j] != needle[j] {
                same = false;
            }
            j = j + 1;
        }
        if same {
            assert(hay@.subrange(at as int, at + n) =~= needle@);
            assert(occurs_at(hay@, needle@, at as int));
            return true;
        }
        proof {
            if occurs_at(hay@, needle@, at as int) {
                let k = choose|k: int| 0 <= k < n && hay@[at + k] != needle@[k];
                assert(hay@.subrange(at as int, at + n)[k] == hay@[at + k]);
            }
        }
        at = at + 1;
    }
    proof {
        assert forall|k: int| !#[trigger] occurs_at(hay@, needle@, k) by {
            if 0 <= k < at {
            }
        }
    }
    false
}

/// Whether a lower-cased adapter name marks a software renderer (it mentions llvmpipe,
/// lavapipe or swiftshader), or the adapter is a CPU device.
pub open spec fn spec_names_software_renderer(lower: Seq<char>, is_cpu: bool) -> bool {
    contains_seq(lower, "llvmpipe"@) || contains_seq(lower, "lavapipe"@) || contains_seq(lower, "swiftshader"@) || is_cpu
}

/// Whether an adapter is a software renderer: its lower-cased name marks one, or it is a CPU
/// device.
pub open spec fn spec_is_software_adapter(name: Seq<char>, is_cpu: bool) -> bool {
    spec_names_software_renderer(spec_to_lowercase(name), is_cpu)
}

/// Whether the lower-cased adapter name `lower` (of the CPU device type when `is_cpu`) marks
/// a software renderer.
pub fn names_software_renderer(lower: &str, is_cpu: bool) -> (software: bool)
    ensures
        software == spec_names_software_renderer(lower@, is_cpu),
{
    let lower_chars = chars_of(lower);
    contains_chars(&lower_chars, &chars_of("llvmpipe"))
        || contains_chars(&lower_chars, &chars_of("lavapipe"))
        || contains_chars(&lower_chars, &chars_of("swiftshader"))
        || is_cpu
}

/// Whether an adapter named `name` (of the CPU device type when `is_cpu`) is a software
/// renderer.
pub fn is_software_adapter(name: &str, is_cpu: bool) -> (software: bool)
    ensures
        software == spec_is_software_adapter(name@, is_cpu),
{
    let lower = to_lowercase(name);
    names_software_renderer(lower.as_str(), is_cpu)
}

} // verus!
