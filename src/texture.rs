use vstd::prelude::*;

verus! {

/// Status value that a graphics driver reports for a framebuffer that can be drawn into.
pub const FRAMEBUFFER_COMPLETE: u32 = 0x8CD5;

/// Why an off-screen render target could not be set up.
#[derive(Debug, Clone, Copy, PartialEq, Eq, Structural)]
pub enum TargetError {
    /// The driver reported this status instead of `FRAMEBUFFER_COMPLETE`.
    Incomplete(u32),
}

/// A 2D off-screen render target: a framebuffer with a color texture attached,
/// or a plain sampled texture when `framebuffer` is `None`.
#[derive(Debug, Clone, Copy, PartialEq, Eq, Structural)]
pub struct FrameBufferTexture {
    pub framebuffer: Option<u32>,
    pub texture: u32,
    pub width: i32,
    pub height: i32,
}

impl FrameBufferTexture {
    /// Wraps a freshly created framebuffer and its color texture, accepting it
    /// only when the driver reported it complete.
    pub fn new(framebuffer: u32, texture: u32, width: i32, height: i32, status: u32) -> (r: Result<FrameBufferTexture, TargetError>)
        ensures
            status == FRAMEBUFFER_COMPLETE ==> r == Ok::<FrameBufferTexture, TargetError>(FrameBufferTexture { framebuffer: Some(framebuffer), texture, width, height }),
            status != FRAMEBUFFER_COMPLETE ==> r == Err::<FrameBufferTexture, TargetError>(TargetError::Incomplete(status)),
    {
        if status == FRAMEBUFFER_COMPLETE {
            Ok(FrameBufferTexture { framebuffer: Some(framebuffer), texture, width, height })
        } else {
            Err(TargetError::Incomplete(status))
        }
    }
}

/// A cubemap render target: one texture and six framebuffers, face `i` drawing into
/// the texture's `i`-th side (+X, -X, +Y, -Y, +Z, -Z).
#[derive(Debug, Clone, Copy)]
pub struct CubemapTexture {
    pub framebuffers: [u32; 6],
    pub texture: u32,
    pub size: i32,
}

/// Index of the first face whose status is not complete, if any.
pub open spec fn first_incomplete(statuses: Seq<u32>, k: int) -> Option<int>
    decreases statuses.len() - k,
{
    if k < 0 || k >= statuses.len() {
        None
    } else if statuses[k] != FRAMEBUFFER_COMPLETE {
        Some(k)
    } else {
        first_incomplete(statuses, k + 1)
    }
}

impl CubemapTexture {
    /// Wraps a cubemap texture and its six face framebuffers, accepting them only
    /// when the driver reported every face complete; otherwise the first face that
    /// is not complete gives the error.
    pub fn new(framebuffers: [u32; 6], texture: u32, size: i32, statuses: [u32; 6]) -> (r: Result<CubemapTexture, TargetError>)
        ensures
            first_incomplete(statuses@, 0) is None ==> r == Ok::<CubemapTexture, TargetError>(CubemapTexture { framebuffers, texture, size }),
            first_incomplete(statuses@, 0) matches Some(k) ==> r == Err::<CubemapTexture, TargetError>(TargetError::Incomplete(statuses@[k])),
    {
        let mut i: usize = 0;
        while i < 6
            invariant
                0 <= i <= 6,
                statuses@.len() == 6,
                first_incomplete(statuses@, 0) == first_incomplete(statuses@, i as int),
            decreases 6 - i,
        {
            if statuses[i] != FRAMEBUFFER_COMPLETE {
                return Err(TargetError::Incomplete(statuses[i]));
            }
            i = i + 1;
        }
        Ok(CubemapTexture { framebuffers, texture, size })
    }
}

/// Target of the post-processing stage: color and depth textures on one framebuffer.
#[derive(Debug, Clone, Copy, PartialEq, Eq, Structural)]
pub struct PostProcessingTexture {
    pub framebuffer: u32,
    pub color_buffer_texture: u32,
    pub depth_buffer_texture: u32,
    pub width: i32,
    pub height: i32,
}

impl PostProcessingTexture {
    /// Wraps a freshly created color and depth target, accepting it only when the
    /// driver reported it complete.
    pub fn new(framebuffer: u32, color_buffer_texture: u32, depth_buffer_texture: u32, width: i32, height: i32, status: u32) -> (r: Result<PostProcessingTexture, TargetError>)
        ensures
            status == FRAMEBUFFER_COMPLETE ==> r == Ok::<PostProcessingTexture, TargetError>(PostProcessingTexture { framebuffer, color_buffer_texture, depth_buffer_texture, width, height }),
            status != FRAMEBUFFER_COMPLETE ==> r == Err::<PostProcessingTexture, TargetError>(TargetError::Incomplete(status)),
    {
        if status == FRAMEBUFFER_COMPLETE {
            Ok(PostProcessingTexture { framebuffer, color_buffer_texture, depth_buffer_texture, width, height })
        } else {
            Err(TargetError::Incomplete(status))
        }
    }
}

/// A texture read from an image file.
#[derive(Debug, Clone, Copy, PartialEq, Eq, Structural)]
pub struct ImageTexture {
    pub texture: u32,
}

impl ImageTexture {
    /// Binding for a texture uploaded from an image: it has no framebuffer behind
    /// it, and its size is not tracked.
    pub fn new(texture: u32) -> (r: FrameBufferTexture)
        ensures
            r == (FrameBufferTexture { framebuffer: None, texture, width: 0, height: 0 }),
    {
        FrameBufferTexture { framebuffer: None, texture, width: 0, height: 0 }
    }
}

/// The three maps of a physically based material.
#[derive(Debug, Clone, Copy, PartialEq, Eq, Structural)]
pub struct PBRTextures {
    pub texture: u32,
    pub normals: u32,
    pub roughness: u32,
}

} // verus!
