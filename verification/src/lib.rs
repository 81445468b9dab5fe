use vstd::prelude::*;

pub mod decoders;
pub mod help;
pub mod i18n;
pub mod sorting;
pub mod text;
pub mod wavedrom;

verus! {

} // verus!
