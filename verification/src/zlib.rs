//! The numeric conventions shared with the inflate engine: return codes, flush modes
//! and the meaning of the `data_type` word.
use vstd::prelude::*;

verus! {

pub const Z_OK: i32 = 0;

pub const Z_STREAM_END: i32 = 1;

pub const Z_NEED_DICT: i32 = 2;

pub const Z_ERRNO: i32 = -1;

pub const Z_STREAM_ERROR: i32 = -2;

pub const Z_DATA_ERROR: i32 = -3;

pub const Z_MEM_ERROR: i32 = -4;

pub const Z_BUF_ERROR: i32 = -5;

pub const Z_BLOCK: i32 = 5;

pub const Z_NO_FLUSH: i32 = 0;

/// The text that belongs to a return code of the inflate engine.
pub open spec fn error_description(error_code: i32) -> Seq<char> {
    if error_code == Z_OK {
        "No error"@
    } else if error_code == Z_STREAM_END {
        "End of stream"@
    } else if error_code == Z_NEED_DICT {
        "Dictionary needed"@
    } else if error_code == Z_ERRNO {
        "File error"@
    } else if error_code == Z_STREAM_ERROR {
        "Stream error"@
    } else if error_code == Z_DATA_ERROR {
        "Data error"@
    } else if error_code == Z_MEM_ERROR {
        "Memory error"@
    } else if error_code == Z_BUF_ERROR {
        "Buffer error"@
    } else if error_code == Z_BLOCK {
        "Block error"@
    } else {
        "Unknown error"@
    }
}

/// Describes a return code of the inflate engine in words.
pub fn zlib_error_description(error_code: i32) -> (text: &'static str)
    ensures
        text@ == error_description(error_code),
{
    match error_code {
        Z_OK => "No error",
        Z_STREAM_END => "End of stream",
        Z_NEED_DICT => "Dictionary needed",
        Z_ERRNO => "File error",
        Z_STREAM_ERROR => "Stream error",
        Z_DATA_ERROR => "Data error",
        Z_MEM_ERROR => "Memory error",
        Z_BUF_ERROR => "Buffer error",
        Z_BLOCK => "Block error",
        _ => "Unknown error",
    }
}

} // verus!
