//! The OpenGL display backend, which draws nothing yet.
use vstd::prelude::*;

verus! {

pub struct OpenGLCanvas {}

} // verus!
