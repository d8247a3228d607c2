use vstd::prelude::*;

pub mod frag;
pub mod html;
pub mod invocation;
pub mod laws;
pub mod render;
pub mod terminal;
pub mod web;
pub mod template;
pub mod token;

verus! {

/// Does nothing.
#[allow(unused)]
pub fn nihongo_mei_no_kansuu() {
}

} // verus!
