#![allow(unused_imports)]

use vstd::prelude::*;

pub mod atlas;
pub mod batches;
pub mod cask;
pub mod ddtree;
pub mod decoding;
pub mod device;
pub mod dflash;
pub mod dots_ocr;
pub mod draft;
pub mod draws;
pub mod eviction;
pub mod expert_rows;
pub mod experts;
pub mod float;
pub mod gemma4;
pub mod heaviest;
pub mod hfq;
pub mod hip;
pub mod hosted;
pub mod hybrid;
pub mod hybrid_own;
pub mod image;
pub mod json;
pub mod loading;
pub mod meaning;
pub mod names;
pub mod order;
pub mod paths;
pub mod published;
pub mod quant;
pub mod qwen2;
pub mod qwen35;
pub mod qwen35_vl;
pub mod rounding;
pub mod rows;
pub mod sampling;
pub mod siblings;
pub mod speculative;
pub mod stepwise;
pub mod tokens;
pub mod tower;

verus! {

} // verus!
