use vstd::prelude::*;

pub mod boot;
pub mod builder;
pub mod cpio;
pub mod cpio_laws;
pub mod gpt;
pub mod luks2;
pub mod sorted;
pub mod text;
pub mod tpm;

verus! {

} // verus!
