//! Inventory of the firmware components embedded in an AMD platform BIOS
//! image. From a raw byte buffer the crate locates firmware entry table
//! anchors, follows the signature-tagged directory structures each one
//! declares, decodes every leaf component header it reaches, and reconciles
//! the discoveries into one deduplicated, version-ordered report per anchor.
//! A separate scan extracts the human-readable AGESA build identifier, from
//! plaintext or from an LZMA-compressed firmware volume.
//!
//! Every record decoder, the recursive directory walk (hardened against
//! cyclic images), and the reconciliation step carry contracts that pin down
//! their results exactly; the external pattern scanner and the LZMA decoder
//! are trusted at a narrow, named interface.

/// The directory walk, the reconciliation of its discoveries, and the
/// whole-image analysis built on them.
pub mod parsers;
/// The fixed-layout records of the firmware image and their decoders.
pub mod structs;
/// Address resolution, the external pattern scanner and LZMA interfaces, and
/// the AGESA build-identifier extraction.
pub mod utils;

use vstd::prelude::*;

verus! {

/// The length of any slice fits in usize; stated as a broadcast fact so that
/// bounds in `requires` clauses over slice views also bound the indices.
pub broadcast proof fn lemma_slice_len_bound<T>(data: &[T])
    ensures
        #[trigger] data@.len() <= usize::MAX,
{
    vstd::slice::axiom_spec_len(data);
}

} // verus!
