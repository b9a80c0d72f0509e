//! Surface configuration choices.

use vstd::prelude::*;

verus! {

/// Presentation pacing modes a surface may offer.
#[derive(Debug, Clone, Copy, PartialEq, Eq, Structural)]
pub enum PresentMode {
    AutoVsync,
    AutoNoVsync,
    Fifo,
    FifoRelaxed,
    Immediate,
    Mailbox,
}

/// Alpha compositing modes a surface may offer.
#[derive(Debug, Clone, Copy, PartialEq, Eq, Structural)]
pub enum CompositeAlphaMode {
    Auto,
    Opaque,
    PreMultiplied,
    PostMultiplied,
    Inherit,
}

/// Whether `mode` occurs in `available`.
fn offers_present_mode(available: &[PresentMode], mode: PresentMode) -> (r: bool)
    ensures
        r == available@.contains(mode),
{
    let mut i: usize = 0;
    while i < available.len()
        invariant
            i <= available@.len(),
            forall|j: int| 0 <= j < i ==> available@[j] != mode,
        decreases available@.len() - i,
    {
        if available[i] == mode {
            return true;
        }
        i = i + 1;
    }
    false
}

/// Whether `mode` occurs in `available`.
fn offers_alpha_mode(available: &[CompositeAlphaMode], mode: CompositeAlphaMode) -> (r: bool)
    ensures
        r == available@.contains(mode),
{
    let mut i: usize = 0;
    while i < available.len()
        invariant
            i <= available@.len(),
            forall|j: int| 0 <= j < i ==> available@[j] != mode,
        decreases available@.len() - i,
    {
        if available[i] == mode {
            return true;
        }
        i = i + 1;
    }
    false
}

/// Preferred pacing: Fifo, then AutoVsync, then Mailbox; Fifo when the
/// surface offers none of them.
pub open spec fn spec_select_present_mode(available: Seq<PresentMode>) -> PresentMode {
    if available.contains(PresentMode::Fifo) {
        PresentMode::Fifo
    } else if available.contains(PresentMode::AutoVsync) {
        PresentMode::AutoVsync
    } else if available.contains(PresentMode::Mailbox) {
        PresentMode::Mailbox
    } else {
        PresentMode::Fifo
    }
}

/// Choose presentation pacing for the platform.
///
/// FIFO keeps both platforms synchronized with the compositor. Mailbox can
/// let the edit-mode redraw loop saturate the GPU with frames that are never
/// displayed, while Immediate may tear during fast page movement.
pub fn select_present_mode(available: &[PresentMode]) -> (r: PresentMode)
    ensures
        r == spec_select_present_mode(available@),
{
    if offers_present_mode(available, PresentMode::Fifo) {
        PresentMode::Fifo
    } else if offers_present_mode(available, PresentMode::AutoVsync) {
        PresentMode::AutoVsync
    } else if offers_present_mode(available, PresentMode::Mailbox) {
        PresentMode::Mailbox
    } else {
        PresentMode::Fifo
    }
}

/// Preferred alpha mode: PreMultiplied, then PostMultiplied, then Auto;
/// Opaque when the surface offers none of them.
pub open spec fn spec_select_alpha_mode(available: Seq<CompositeAlphaMode>) -> CompositeAlphaMode {
    if available.contains(CompositeAlphaMode::PreMultiplied) {
        CompositeAlphaMode::PreMultiplied
    } else if available.contains(CompositeAlphaMode::PostMultiplied) {
        CompositeAlphaMode::PostMultiplied
    } else if available.contains(CompositeAlphaMode::Auto) {
        CompositeAlphaMode::Auto
    } else {
        CompositeAlphaMode::Opaque
    }
}

/// Choose how the window composites with the desktop, preferring modes
/// that keep translucency.
pub fn select_alpha_mode(available: &[CompositeAlphaMode]) -> (r: CompositeAlphaMode)
    ensures
        r == spec_select_alpha_mode(available@),
{
    if offers_alpha_mode(available, CompositeAlphaMode::PreMultiplied) {
        CompositeAlphaMode::PreMultiplied
    } else if offers_alpha_mode(available, CompositeAlphaMode::PostMultiplied) {
        CompositeAlphaMode::PostMultiplied
    } else if offers_alpha_mode(available, CompositeAlphaMode::Auto) {
        CompositeAlphaMode::Auto
    } else {
        CompositeAlphaMode::Opaque
    }
}

/// Surface size after the window is resized to `width × height`: each edge
/// clamped to the device's largest texture edge `max_dim`, as a safety net
/// on very high-DPI or multi-monitor setups. `None` for a zero-area
/// (minimized) window, which leaves the surface configured as it was.
pub fn resized_surface_size(width: u32, height: u32, max_dim: u32) -> (r: Option<(u32, u32)>)
    ensures
        r is None <==> (width == 0 || height == 0),
        r matches Some((w, h)) ==> w == (if width < max_dim {
            width
        } else {
            max_dim
        }) && h == (if height < max_dim {
            height
        } else {
            max_dim
        }),
{
    if width == 0 || height == 0 {
        return None;
    }
    let w = if width < max_dim {
        width
    } else {
        max_dim
    };
    let h = if height < max_dim {
        height
    } else {
        max_dim
    };
    Some((w, h))
}

/// The window keeps its translucency whenever the surface allows it: with
/// PreMultiplied or PostMultiplied offered the choice is an offered
/// translucent mode (PreMultiplied first); Opaque is chosen only when none
/// of PreMultiplied, PostMultiplied and Auto is offered, and any mode other
/// than Opaque is one the surface offers.
pub proof fn law_alpha_mode_keeps_translucency(available: Seq<CompositeAlphaMode>)
    ensures
        (available.contains(CompositeAlphaMode::PreMultiplied) || available.contains(
            CompositeAlphaMode::PostMultiplied,
        )) ==> ((spec_select_alpha_mode(available) == CompositeAlphaMode::PreMultiplied
            || spec_select_alpha_mode(available) == CompositeAlphaMode::PostMultiplied)
            && available.contains(spec_select_alpha_mode(available))),
        available.contains(CompositeAlphaMode::PreMultiplied) ==> spec_select_alpha_mode(available)
            == CompositeAlphaMode::PreMultiplied,
        spec_select_alpha_mode(available) == CompositeAlphaMode::Opaque ==> !available.contains(
            CompositeAlphaMode::PreMultiplied,
        ) && !available.contains(CompositeAlphaMode::PostMultiplied) && !available.contains(
            CompositeAlphaMode::Auto,
        ),
        spec_select_alpha_mode(available) != CompositeAlphaMode::Opaque ==> available.contains(
            spec_select_alpha_mode(available),
        ),
        spec_select_alpha_mode(available) != CompositeAlphaMode::Inherit,
{
}

/// The chosen pacing is one the surface offers whenever it offers Fifo,
/// AutoVsync or Mailbox, and it is never Immediate.
pub proof fn law_present_mode_is_offered_and_paced(available: Seq<PresentMode>)
    ensures
        (available.contains(PresentMode::Fifo) || available.contains(PresentMode::AutoVsync)
            || available.contains(PresentMode::Mailbox)) ==> available.contains(
            spec_select_present_mode(available),
        ),
        spec_select_present_mode(available) != PresentMode::Immediate,
        available.contains(PresentMode::Fifo) ==> spec_select_present_mode(available)
            == PresentMode::Fifo,
{
}

} // verus!
