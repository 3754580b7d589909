//! What a model file tells besides its tensors, and how its tensors are stored.

use vstd::prelude::*;

use crate::json::Json;

verus! {

/// A model file, as far as its configuration goes.
pub struct HfqFile {
    /// The metadata document.
    pub metadata_json: String,
}

/// Why a configuration cannot be read from a document that is complete.
#[derive(Debug, Clone, Copy, PartialEq, Eq, Structural)]
pub enum ConfigError {
    /// A head size was asked for with no heads to divide by.
    ZeroHeads,
}

/// 1e-6 as a double.
pub const D_1E_6: u64 = 0x3EB0_C6F7_A0B5_ED8D;

/// 1e-5 as a double.
pub const D_1E_5: u64 = 0x3EE4_F8B5_88E3_68F1;

/// 10 000 as a double.
pub const D_1E4: u64 = 0x40C3_8800_0000_0000;

/// 1 000 000 as a double.
pub const D_1E6: u64 = 0x412E_8480_0000_0000;

/// 10 000 000 as a double.
pub const D_1E7: u64 = 0x4163_12D0_0000_0000;

/// 0.25 as a double.
pub const D_QUARTER: u64 = 0x3FD0_0000_0000_0000;

/// 1 as a double.
pub const D_ONE: u64 = 0x3FF0_0000_0000_0000;

/// 0 as a double.
pub const D_ZERO: u64 = 0;

/// A value, or what stands for it where it is missing.
pub open spec fn or<T>(o: Option<T>, default: T) -> T {
    match o {
        Some(x) => x,
        None => default,
    }
}

/// A value, or another source for it.
pub open spec fn or_else<T>(o: Option<T>, other: Option<T>) -> Option<T> {
    if o is Some {
        o
    } else {
        other
    }
}

/// A value, or what stands for it where it is missing.
pub fn value_or<T: Copy>(o: Option<T>, default: T) -> (r: T)
    ensures
        r == or(o, default),
{
    match o {
        Some(x) => x,
        None => default,
    }
}

/// A value, or another source for it.
pub fn first_of<T: Copy>(o: Option<T>, other: Option<T>) -> (r: Option<T>)
    ensures
        r == or_else(o, other),
{
    match o {
        Some(x) => Some(x),
        None => other,
    }
}

/// The part of a metadata document that describes the text model: the
/// configuration's `text_config`, or the configuration itself.
pub open spec fn text_section(meta: crate::json::JVal) -> Option<crate::json::JVal> {
    match meta.get("config"@) {
        Some(config) => Some(or(config.get("text_config"@), config)),
        None => None,
    }
}

/// The part of a metadata document that describes the text model.
pub fn text_config(meta: &Json) -> (r: Option<&Json>)
    ensures
        match r {
            Some(tc) => text_section(meta@) == Some(tc@),
            None => text_section(meta@) is None,
        },
{
    match meta.get("config") {
        Some(config) => match config.get("text_config") {
            Some(tc) => Some(tc),
            None => Some(config),
        },
        None => None,
    }
}

} // verus!
