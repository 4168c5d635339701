//! The resource-definition chunk envelope (RDEF).
//!
//! Only the envelope is modeled: shader kind and version, global flags,
//! the author string, and the counts and chunk-relative offsets of the two
//! catalogs. Encoding the catalog records themselves is an external
//! collaborator's concern; the envelope leaves the slots they will fill.

use vstd::prelude::*;

verus! {

/// The envelope of a resource-definition chunk. The catalogs are carried
/// as bare counts: their record arrays are not modeled here.
#[derive(Debug, PartialEq, Eq, Clone)]
pub struct RdefChunk {
    pub shader_ty: u32,
    pub major: u8,
    pub minor: u8,
    pub flags: u32,
    pub author: Vec<u8>,
    pub constant_buffer_count: u32,
    pub resource_binding_count: u32,
}

impl RdefChunk {
    /// The packed version token: shader kind in the high half, then the
    /// major and minor versions in two four-bit fields.
    pub fn version_token(&self) -> (r: u32)
        ensures
            r == rdef_version_token(self.shader_ty, self.major, self.minor),
    {
        ((self.shader_ty << 16) & 0xffff0000) | (((self.major as u32) << 4) & 0xf0) | ((
        self.minor as u32) & 0xf)
    }
}

/// The packed version token of a resource-definition chunk.
pub open spec fn rdef_version_token(shader_ty: u32, major: u8, minor: u8) -> u32 {
    ((shader_ty << 16) & 0xffff0000) | (((major as u32) << 4) & 0xf0) | ((minor as u32) & 0xf)
}

} // verus!
