//! Plain data types shared with the rendering and capture layers.

use vstd::prelude::*;

verus! {

/// A colored screen-space vertex with 16-bit coordinates.
#[derive(Clone, Copy)]
pub struct PosColVertex {
    pub pos: [i16; 2],
    pub color: u32,
}

/// Which shader stage a source string targets.
pub enum ShaderStage {
    Vertex,
    Fragment,
    Compute,
}

/// Events injected into the render event loop from outside.
pub enum MyEvent {
    CanvasResize(i64, i64),
}

/// Lifecycle phase of the whole application, owned by the top-level
/// orchestrator and handed around explicitly.
#[derive(Clone, Copy, Debug, PartialEq, Eq, Structural)]
pub enum AppState {
    Uninit,
    Initializing,
    InitializingMem,
    InitRayon,
    AwaitingRayonThreads,
    AwaitingLastWorker,
    RayonBuildDone,
    StartAudioCapture,
    StartAudioCaptureAsync,
    WaitingForUserAudio,
    PreparingWasmWorker,
    MediaStreamTrack,
    GetUserMediaFailed,
    Playing,
}

/// Hands a WGSL shader source through unchanged; the place where a
/// renderer backend would patch color handling before compilation.
pub fn fix_webgl_color(wgsl_shader: &str) -> (r: String)
    ensures
        r@ == wgsl_shader@,
{
    wgsl_shader.to_owned()
}

} // verus!
