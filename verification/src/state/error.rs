//! The closed failure taxonomy of the state machine. Every command handler
//! validates its preconditions and reports exactly one of these conditions,
//! without mutating anything, when a precondition does not hold.

use vstd::prelude::*;

verus! {

#[derive(Clone, Copy, Debug, PartialEq, Eq, Structural)]
pub enum StateError {
    NoDocumentOpen,
    DocumentNotFound,
    DocumentAlreadyOpen,
    NoExistingExportSettings,
    UndoOperationNowAllowed,
    FrameNotInDocument,
    AnimationNotInDocument,
    NoHitboxSelected,
    HitboxAlreadyExists,
    AnimationAlreadyExists,
    NotEditingAnyFrame,
    NotEditingAnyAnimation,
    InvalidHitboxName,
    NoAnimationFrameSelected,
    InvalidAnimationFrameIndex,
    NoAnimationFrameForThisTime,
    NotExporting,
    NotRenaming,
    NotAdjustingAnimationFrameDuration,
    NotAdjustingAnimationFramePosition,
    NotAdjustingHitboxSize,
    MissingHitboxSizeData,
    NotAdjustingHitboxPosition,
    MissingHitboxPositionData,
}

impl StateError {
    /// A short sentence for reporting the condition on a status line.
    pub fn message(&self) -> (r: &'static str)
        ensures
            self is NoDocumentOpen ==> r@ == "No document is open"@,
            self is DocumentNotFound ==> r@ == "Requested document was not found"@,
            self is DocumentAlreadyOpen ==> r@ == "A document with this path is already open"@,
            self is FrameNotInDocument ==> r@ == "Requested frame is not in document"@,
            self is AnimationNotInDocument ==> r@ == "Requested animation is not in document"@,
            self is AnimationAlreadyExists ==> r@ == "An animation with this name already exists"@,
            self is NotRenaming ==> r@ == "Not currently renaming an item"@,
    {
        match self {
            StateError::NoDocumentOpen => "No document is open",
            StateError::DocumentNotFound => "Requested document was not found",
            StateError::DocumentAlreadyOpen => "A document with this path is already open",
            StateError::NoExistingExportSettings => "Sheet has no export settings",
            StateError::UndoOperationNowAllowed => "Cannot perform undo operation",
            StateError::FrameNotInDocument => "Requested frame is not in document",
            StateError::AnimationNotInDocument => "Requested animation is not in document",
            StateError::NoHitboxSelected => "Expected a hitbox to be selected",
            StateError::HitboxAlreadyExists => "A hitbox with this name already exists",
            StateError::AnimationAlreadyExists => "An animation with this name already exists",
            StateError::NotEditingAnyFrame => "Not currently editing any frame",
            StateError::NotEditingAnyAnimation => "Not currently editing any animation",
            StateError::InvalidHitboxName => "Frame does not have a hitbox with the requested name",
            StateError::NoAnimationFrameSelected => "Expected an animation frame to be selected",
            StateError::InvalidAnimationFrameIndex => "Animation does not have a frame at the requested index",
            StateError::NoAnimationFrameForThisTime => "No animation frame found for requested time",
            StateError::NotExporting => "Not currently adjusting export settings",
            StateError::NotRenaming => "Not currently renaming an item",
            StateError::NotAdjustingAnimationFrameDuration => "Not currently adjusting animation frame duration",
            StateError::NotAdjustingAnimationFramePosition => "Not currently adjusting animation frame position",
            StateError::NotAdjustingHitboxSize => "Not currently adjusting hitbox size",
            StateError::MissingHitboxSizeData => "Missing data while adjusting hitbox size",
            StateError::NotAdjustingHitboxPosition => "Not currently adjusting hitbox position",
            StateError::MissingHitboxPositionData => "Missing data while adjusting hitbox position",
        }
    }
}

} // verus!
