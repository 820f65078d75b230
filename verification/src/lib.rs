//! Core of a sprite-sheet animation editor: the sheet content model, the
//! command vocabulary produced by the interface layer, and the document /
//! application state machine that applies commands one at a time.
//!
//! Everything observable is specified against ghost models (`SheetModel`,
//! `DocumentModel`, `StateModel`): each mutating operation states exactly how
//! the new model relates to the old one, and the well-formedness invariants
//! (unique document paths, unique animation names, the zoom lattice, the
//! rename pair) are established by the constructors and preserved by every
//! operation.

pub mod codec;
pub mod command;
pub mod digits;
pub mod sheet;
pub mod state;
