use vstd::prelude::*;

verus! {

/// Why a document, an element, or a single device was rejected.
#[derive(Debug, Clone)]
pub enum ParseError {
    /// The document was not well-formed XML.
    Xml,
    /// A required attribute was absent: the element context and the attribute name.
    MissingAttr(String, String),
    /// An attribute was present but not acceptable: context, attribute name, value.
    InvalidAttr(String, String, String),
    /// A symmetric and an asymmetric processor description met across inheritance.
    ProcessorMergeConflict,
    /// The named device ended up without a resolved core.
    MissingCore(String),
    /// A device carried neither `Dname` nor `Dvariant` anywhere on its ancestor chain.
    MissingName,
    /// The named device has no processor element anywhere on its ancestor chain.
    MissingProcessor(String),
}

} // verus!
