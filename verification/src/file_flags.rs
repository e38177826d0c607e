//! Bits of the `flags` field of a file action.

use vstd::prelude::*;

verus! {

/// The file cannot be written.
pub const READ_ONLY: u32 = 1;

/// The replacement applies whatever the local checksum.
pub const FORCE: u32 = 2;

/// The file is to be shown in the editor.
pub const OPEN: u32 = 4;

/// The file does not exist on the computer yet.
pub const NEW: u32 = 8;

} // verus!
