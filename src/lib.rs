// Raw memory access over an explicit byte region: typed reads and writes,
// pointer chains, reversible edits and wildcard byte-pattern scanning.
//
// `memory` is the region that every access goes through, `value` the plain
// types stored in it, `address` the handle and its pointer-chase operations,
// `memory_edit` the reversible edits, `pattern_match` the scanner, and `util`
// the hex text helpers.

pub mod address;
pub mod memory;
pub mod memory_edit;
pub mod pattern_match;
pub mod util;
pub mod value;
