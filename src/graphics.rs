use vstd::prelude::*;

verus! {

/// Which rendering backend draws the game.
#[derive(Clone, Copy, PartialEq, Eq, Structural, Debug)]
pub enum GraphicsMethod {
    Cpu,
    OpenGL,
    WGPUDefault,
}

} // verus!
