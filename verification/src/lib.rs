pub mod bitmap;
pub mod processing;

use vstd::prelude::*;

verus! {

/// Query parameters accepted by the rendering endpoint.
pub struct RenderImageParams {
    pub uri: String,
}

} // verus!
