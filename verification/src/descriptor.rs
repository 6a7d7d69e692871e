//! Patch descriptors and the check of their shape.

use crate::text::opt_text;
use vstd::prelude::*;

verus! {

/// One declarative patch instruction.
///
/// A descriptor is well formed when exactly one of `offset`, `wildcard`
/// and `method_name` is given, and exactly one of `hex_replace` and
/// `hex_insert`.
#[derive(Debug, Default, PartialEq, Eq)]
pub struct PatchDescriptor {
    /// A literal offset in hexadecimal, with or without `0x`.
    pub offset: Option<String>,
    /// A wildcard byte pattern to scan the buffer for.
    pub wildcard: Option<String>,
    /// A symbol to look up in the symbol dump.
    pub method_name: Option<String>,
    /// Hex bytes to write over the bytes at the target.
    pub hex_replace: Option<String>,
    /// Hex bytes to insert at the target.
    pub hex_insert: Option<String>,
    /// With a wildcard target: how many matched bytes to keep in front of
    /// the payload.
    pub position: Option<u64>,
}

/// Mathematical content of a [`PatchDescriptor`].
pub ghost struct PatchDescriptorView {
    pub offset: Option<Seq<char>>,
    pub wildcard: Option<Seq<char>>,
    pub method_name: Option<Seq<char>>,
    pub hex_replace: Option<Seq<char>>,
    pub hex_insert: Option<Seq<char>>,
    pub position: Option<u64>,
}

impl View for PatchDescriptor {
    type V = PatchDescriptorView;

    open spec fn view(&self) -> PatchDescriptorView {
        PatchDescriptorView {
            offset: opt_text(self.offset),
            wildcard: opt_text(self.wildcard),
            method_name: opt_text(self.method_name),
            hex_replace: opt_text(self.hex_replace),
            hex_insert: opt_text(self.hex_insert),
            position: self.position,
        }
    }
}

/// The contents of a list of descriptors.
pub open spec fn descriptor_views(patches: Seq<PatchDescriptor>) -> Seq<PatchDescriptorView> {
    patches.map_values(|p: PatchDescriptor| p@)
}

/// 1 for a field that is given, 0 for one that is not.
pub open spec fn given(field: Option<Seq<char>>) -> nat {
    if field is Some {
        1
    } else {
        0
    }
}

/// How many target selectors the descriptor carries.
pub open spec fn selector_count(patch: PatchDescriptorView) -> nat {
    given(patch.offset) + given(patch.wildcard) + given(patch.method_name)
}

/// How many payloads the descriptor carries.
pub open spec fn payload_count(patch: PatchDescriptorView) -> nat {
    given(patch.hex_replace) + given(patch.hex_insert)
}

/// Whether the descriptor has exactly one target selector and exactly one
/// payload.
pub open spec fn well_formed(patch: PatchDescriptorView) -> bool {
    selector_count(patch) == 1 && payload_count(patch) == 1
}

/// Checks the shape of a descriptor: exactly one of offset, wildcard and
/// method name, and exactly one of replace and insert.
pub fn validate_patch_structure(patch: &PatchDescriptor) -> (ok: bool)
    ensures
        ok == well_formed(patch@),
{
    let mut selectors: u8 = 0;
    if patch.offset.is_some() {
        selectors += 1;
    }
    if patch.wildcard.is_some() {
        selectors += 1;
    }
    if patch.method_name.is_some() {
        selectors += 1;
    }
    let mut payloads: u8 = 0;
    if patch.hex_replace.is_some() {
        payloads += 1;
    }
    if patch.hex_insert.is_some() {
        payloads += 1;
    }
    selectors == 1 && payloads == 1
}

/// A descriptor with two target selectors, or with none, is not well
/// formed; nor is one without a payload, or with both.
pub proof fn lemma_ambiguous_is_malformed(patch: PatchDescriptorView)
    ensures
        patch.offset is Some && patch.wildcard is Some ==> !well_formed(patch),
        patch.offset is Some && patch.method_name is Some ==> !well_formed(patch),
        patch.wildcard is Some && patch.method_name is Some ==> !well_formed(patch),
        patch.offset is None && patch.wildcard is None && patch.method_name is None
            ==> !well_formed(patch),
        patch.hex_replace is None && patch.hex_insert is None ==> !well_formed(patch),
        patch.hex_replace is Some && patch.hex_insert is Some ==> !well_formed(patch),
{
}

} // verus!
