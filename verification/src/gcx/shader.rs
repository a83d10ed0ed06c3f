//! Shader program sources, assembled stage by stage.

use vstd::prelude::*;

verus! {

/// The source of a vertex stage.
#[derive(Debug)]
pub struct ShaderVextex {
    pub src: String,
}

/// The source of a fragment stage.
#[derive(Debug)]
pub struct ShaderFragment {
    pub src: String,
}

/// The source of a compute stage.
#[derive(Debug)]
pub struct ShaderCompute {
    pub src: String,
}

/// Collects the stage sources of one shader program.
#[derive(Debug)]
pub struct ShaderBuilder {
    pub vertex: Option<ShaderVextex>,
    pub fragment: Option<ShaderFragment>,
    pub compute: Option<ShaderCompute>,
}

impl ShaderBuilder {
    /// A builder with no stages.
    pub fn new() -> (b: ShaderBuilder)
        ensures
            b.vertex is None,
            b.fragment is None,
            b.compute is None,
    {
        ShaderBuilder { vertex: None, fragment: None, compute: None }
    }

    /// The builder with its vertex stage set to `src`.
    pub fn vertex(self, src: String) -> (b: ShaderBuilder)
        ensures
            b.vertex matches Some(v) && v.src@ == src@,
            b.fragment == self.fragment,
            b.compute == self.compute,
    {
        ShaderBuilder { vertex: Some(ShaderVextex { src }), ..self }
    }

    /// The builder with its fragment stage set to `src`.
    pub fn fragment(self, src: String) -> (b: ShaderBuilder)
        ensures
            b.fragment matches Some(v) && v.src@ == src@,
            b.vertex == self.vertex,
            b.compute == self.compute,
    {
        ShaderBuilder { fragment: Some(ShaderFragment { src }), ..self }
    }

    /// The builder with its compute stage set to `src`.
    pub fn compute(self, src: String) -> (b: ShaderBuilder)
        ensures
            b.compute matches Some(v) && v.src@ == src@,
            b.vertex == self.vertex,
            b.fragment == self.fragment,
    {
        ShaderBuilder { compute: Some(ShaderCompute { src }), ..self }
    }
}

impl Default for ShaderBuilder {
    /// Same as [`ShaderBuilder::new`].
    fn default() -> (b: ShaderBuilder)
        ensures
            b.vertex is None,
            b.fragment is None,
            b.compute is None,
    {
        ShaderBuilder::new()
    }
}

} // verus!
