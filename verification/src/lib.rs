use vstd::prelude::*;

pub mod text;
pub mod llm;
pub mod model;
pub mod json;
pub mod state;
pub mod minutes;
pub mod audio;
pub mod speaker;
pub mod storage;
pub mod oauth;
pub mod paths;

verus! {

} // verus!
