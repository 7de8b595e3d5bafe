use vstd::prelude::*;

verus! {

/// Why a link was abandoned. Every error is fatal.
#[derive(Debug, Clone)]
pub enum LinkError {
    /// An object could not be decoded.
    ParseFailure { file: String },
    /// Two non-weak definitions of one symbol tag.
    MultipleDefinition { tag: String },
    /// `_start` is absent or unresolved at layout time.
    MissingEntryPoint,
    /// A referenced symbol tag has no definition.
    DanglingReference { tag: String },
    /// A relocation kind outside absolute, pc-relative and PLT-relative.
    UnsupportedRelocKind { file: String, section: usize },
    /// A relocation whose width is not four bytes.
    UnsupportedRelocWidth { tag: String, width: usize },
    /// A relocation target that is neither a section-bearing symbol of the
    /// same object nor a named global external.
    UnsupportedReference { file: String, section: usize },
    /// The image, or the number of its symbols, exceeds what this machine can address.
    ImageTooLarge,
}

} // verus!
