//! Verified core of the `grr` GIR generator and of the Evolution subject
//! prefix reducer.
use vstd::prelude::*;

pub mod fold;
pub mod gir;
pub mod json;
pub mod model;
pub mod text;
pub mod xml_out;
pub mod collect;
pub mod database;
pub mod enrich;
pub mod naming;
pub mod order;
pub mod realize;
pub mod stringing;
pub mod subject;

verus! {

} // verus!
