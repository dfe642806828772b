//! Surface sizing and per-frame decisions of the renderer.

use vstd::prelude::*;

verus! {

/// Pixel dimensions of the output surface.
#[derive(Debug, Clone, Copy, PartialEq, Eq, Structural)]
pub struct WindowSize {
    pub width: u32,
    pub height: u32,
}

impl WindowSize {
    /// A surface can be configured only with both dimensions non-zero.
    pub open spec fn spec_is_drawable(&self) -> bool {
        self.width > 0 && self.height > 0
    }

    #[verifier::when_used_as_spec(spec_is_drawable)]
    pub fn is_drawable(&self) -> (r: bool)
        ensures
            r == self.spec_is_drawable(),
    {
        self.width > 0 && self.height > 0
    }
}

/// The surface size that the swap chain, the depth attachment and the
/// projection were last configured with.
pub struct Viewport {
    size: WindowSize,
}

impl Viewport {
    pub closed spec fn size_spec(&self) -> WindowSize {
        self.size
    }

    pub fn new(size: WindowSize) -> (r: Viewport)
        ensures
            r.size_spec() == size,
    {
        Viewport { size }
    }

    pub fn size(&self) -> (r: WindowSize)
        ensures
            r == self.size_spec(),
    {
        self.size
    }

    /// Records a new surface size. Returns `true` when the caller must now
    /// reconfigure the surface, rebuild the depth attachment and resize the
    /// projection to the new size; a size with a zero dimension is ignored.
    pub fn resize(&mut self, new_size: WindowSize) -> (r: bool)
        ensures
            r == new_size.spec_is_drawable(),
            r ==> final(self).size_spec() == new_size,
            !r ==> *final(self) == *old(self),
    {
        if new_size.is_drawable() {
            self.size = new_size;
            true
        } else {
            false
        }
    }
}

/// One indexed, instanced draw: every index of a model's mesh, repeated
/// once per live instance.
#[derive(Debug, Clone, Copy, PartialEq, Eq, Structural)]
pub struct DrawCall {
    pub index_count: u32,
    pub instance_count: u32,
}

/// Why the next surface image could not be acquired.
#[derive(Debug, Clone, Copy, PartialEq, Eq, Structural)]
pub enum SurfaceFailure {
    Timeout,
    Outdated,
    Lost,
    OutOfMemory,
}

/// What the frame loop does about a failed acquisition.
#[derive(Debug, Clone, Copy, PartialEq, Eq, Structural)]
pub enum FrameRecovery {
    /// Configure the surface again and draw on the next frame.
    Reconfigure,
    /// Give up: the failure ends the program.
    Fatal,
}

pub open spec fn spec_recovery_for(failure: SurfaceFailure) -> FrameRecovery {
    match failure {
        SurfaceFailure::Outdated | SurfaceFailure::Lost => FrameRecovery::Reconfigure,
        _ => FrameRecovery::Fatal,
    }
}

/// An outdated or lost surface is recovered by configuring it again; any
/// other failure is fatal.
pub fn recovery_for(failure: SurfaceFailure) -> (r: FrameRecovery)
    ensures
        r == spec_recovery_for(failure),
{
    match failure {
        SurfaceFailure::Outdated | SurfaceFailure::Lost => FrameRecovery::Reconfigure,
        _ => FrameRecovery::Fatal,
    }
}

/// Picks the surface format among those the adapter offers, given for each
/// whether it is sRGB: the first sRGB one, else the first one, and none when
/// nothing is offered.
pub fn surface_format_index(is_srgb: &Vec<bool>) -> (r: Option<usize>)
    ensures
        is_srgb@.len() == 0 <==> r is None,
        (exists|i: int| 0 <= i < is_srgb@.len() && is_srgb@[i]) ==> (r matches Some(k) && k
            < is_srgb@.len() && is_srgb@[k as int] && forall|j: int|
            0 <= j < k ==> !is_srgb@[j]),
        (forall|i: int| 0 <= i < is_srgb@.len() ==> !is_srgb@[i]) && is_srgb@.len() > 0 ==> r
            == Some(0usize),
{
    let mut i: usize = 0;
    while i < is_srgb.len()
        invariant
            i <= is_srgb@.len(),
            forall|j: int| 0 <= j < i ==> !is_srgb@[j],
        decreases is_srgb@.len() - i,
    {
        if is_srgb[i] {
            return Some(i);
        }
        i = i + 1;
    }
    if is_srgb.len() > 0 {
        Some(0)
    } else {
        None
    }
}

} // verus!
