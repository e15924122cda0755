use vstd::prelude::*;

pub mod error;
pub mod registry;
pub mod primitive;
pub mod text;
pub mod activity;
pub mod link;
pub mod actor;
pub mod use_case;
pub mod columns;
pub mod class;
pub mod class_layout;
pub mod use_case_layout;
pub mod diagram;

verus! {

} // verus!
