//! Why a context pack is refused. Every refusal publishes nothing.
use vstd::prelude::*;
use crate::context::policy::PathError;

verus! {

#[derive(Debug, Clone, Copy, PartialEq, Eq, Structural)]
pub enum ContextError {
    IdentityMismatch,
    ModuleCount,
    InvalidModule,
    UnsafePath(PathError),
    CardExcluded,
    OwnershipExcluded,
    UnknownDependency,
    CyclicDependency,
    UnknownArea,
    AmbiguousOwnership,
    MainSceneNotResource,
    RequestTooLarge,
    DuplicateOrExcludedRequest,
    RequestMissing,
    RequestChanged,
    RequiredMissing,
    RequestBudget,
    RequiredNotText,
    RequiredOverBudget,
    SizeOverflow,
    LinkedPath,
    CaseAlias,
    NonRegular,
    InventoryLimit,
    SourceChanged,
    NotUtf8,
    ReadBound,
    OutputInsideSource,
}

impl ContextError {
    /// The text that `message` gives for this error.
    pub open spec fn message_text(self) -> Seq<char> {
        match self {
            ContextError::IdentityMismatch => "Game context identity/schema mismatch; Bridge-repository memory is not game memory"@,
            ContextError::ModuleCount => "Game module registry must contain 1..32 areas"@,
            ContextError::InvalidModule => "Invalid/duplicate game module identifier, title or limits"@,
            ContextError::UnsafePath(PathError::NotSafe) => "Not a safe game-relative path"@,
            ContextError::UnsafePath(PathError::NotCanonical) => "Not a canonical game-relative path"@,
            ContextError::UnsafePath(PathError::ReservedName) => "Reserved Windows filename"@,
            ContextError::CardExcluded => "Module card points to an excluded path"@,
            ContextError::OwnershipExcluded => "Module ownership points to excluded data"@,
            ContextError::UnknownDependency => "Unknown module dependency"@,
            ContextError::CyclicDependency => "Cyclic game module dependency"@,
            ContextError::UnknownArea => "Unknown game area; no broad fallback was used"@,
            ContextError::AmbiguousOwnership => "Ambiguous module ownership"@,
            ContextError::MainSceneNotResource => "Game main scene must be a res:// path"@,
            ContextError::RequestTooLarge => "Task or requested-file list is too large"@,
            ContextError::DuplicateOrExcludedRequest => "Duplicate or excluded file request"@,
            ContextError::RequestMissing => "Requested file is missing or excluded"@,
            ContextError::RequestChanged => "Requested file changed; create a new area pack first"@,
            ContextError::RequiredMissing => "Required context source/card is missing or excluded"@,
            ContextError::RequestBudget => "Requested files exceed the 8 MiB pack budget; split the request"@,
            ContextError::RequiredNotText => "Required startup context must be readable text"@,
            ContextError::RequiredOverBudget => "Required context exceeds the reading budget"@,
            ContextError::SizeOverflow => "Requested size overflow"@,
            ContextError::LinkedPath => "Linked game path cannot enter a context pack"@,
            ContextError::CaseAlias => "Case-aliased game path"@,
            ContextError::NonRegular => "Non-regular game file"@,
            ContextError::InventoryLimit => "Game inventory exceeds bounded indexing limits; no partial pack was published"@,
            ContextError::SourceChanged => "Source changed while capturing context; retry"@,
            ContextError::NotUtf8 => "Selected text file is not UTF-8"@,
            ContextError::ReadBound => "Context file exceeds its byte bound"@,
            ContextError::OutputInsideSource => "Context output must be outside game source"@,
        }
    }

    pub fn message(&self) -> (s: &'static str)
        ensures
            s@ == self.message_text(),
    {
        match self {
            ContextError::IdentityMismatch => "Game context identity/schema mismatch; Bridge-repository memory is not game memory",
            ContextError::ModuleCount => "Game module registry must contain 1..32 areas",
            ContextError::InvalidModule => "Invalid/duplicate game module identifier, title or limits",
            ContextError::UnsafePath(PathError::NotSafe) => "Not a safe game-relative path",
            ContextError::UnsafePath(PathError::NotCanonical) => "Not a canonical game-relative path",
            ContextError::UnsafePath(PathError::ReservedName) => "Reserved Windows filename",
            ContextError::CardExcluded => "Module card points to an excluded path",
            ContextError::OwnershipExcluded => "Module ownership points to excluded data",
            ContextError::UnknownDependency => "Unknown module dependency",
            ContextError::CyclicDependency => "Cyclic game module dependency",
            ContextError::UnknownArea => "Unknown game area; no broad fallback was used",
            ContextError::AmbiguousOwnership => "Ambiguous module ownership",
            ContextError::MainSceneNotResource => "Game main scene must be a res:// path",
            ContextError::RequestTooLarge => "Task or requested-file list is too large",
            ContextError::DuplicateOrExcludedRequest => "Duplicate or excluded file request",
            ContextError::RequestMissing => "Requested file is missing or excluded",
            ContextError::RequestChanged => "Requested file changed; create a new area pack first",
            ContextError::RequiredMissing => "Required context source/card is missing or excluded",
            ContextError::RequestBudget => "Requested files exceed the 8 MiB pack budget; split the request",
            ContextError::RequiredNotText => "Required startup context must be readable text",
            ContextError::RequiredOverBudget => "Required context exceeds the reading budget",
            ContextError::SizeOverflow => "Requested size overflow",
            ContextError::LinkedPath => "Linked game path cannot enter a context pack",
            ContextError::CaseAlias => "Case-aliased game path",
            ContextError::NonRegular => "Non-regular game file",
            ContextError::InventoryLimit => "Game inventory exceeds bounded indexing limits; no partial pack was published",
            ContextError::SourceChanged => "Source changed while capturing context; retry",
            ContextError::NotUtf8 => "Selected text file is not UTF-8",
            ContextError::ReadBound => "Context file exceeds its byte bound",
            ContextError::OutputInsideSource => "Context output must be outside game source",
        }
    }
}

} // verus!
