//! The decisions of the actor that keeps the documents: what each turn of
//! its loop does with what its inlet gave.

use crate::identity::Address;
use vstd::prelude::*;

verus! {

/// What a producer may ask of the document actor.
#[derive(Debug, Clone, PartialEq, Eq)]
pub enum DatabaseCommand {
    RequestUpgradeToProvider(Address),
}

/// What the document actor tells its owner.
#[derive(Debug, Clone, Copy, PartialEq, Eq, Structural)]
pub enum DatabaseEvent {
    RequestUpgradeToProvider,
}

/// What one turn of the document actor's loop does.
#[derive(Debug, Clone, PartialEq, Eq)]
pub enum DatabaseStep {
    /// Take note of the request to become a provider at this locator, and
    /// go on.
    NoteUpgradeRequest(Address),
    /// The inlet is closed: leave the loop.
    Exit,
}

/// A turn of the loop as a mathematical value.
pub enum DatabaseStepView {
    NoteUpgradeRequest(Seq<u8>),
    Exit,
}

impl View for DatabaseStep {
    type V = DatabaseStepView;

    open spec fn view(&self) -> DatabaseStepView {
        match *self {
            DatabaseStep::NoteUpgradeRequest(a) => DatabaseStepView::NoteUpgradeRequest(a@),
            DatabaseStep::Exit => DatabaseStepView::Exit,
        }
    }
}

/// The document actor. It keeps no state of its own.
pub struct DatabaseManager {}

impl DatabaseManager {
    /// The document actor.
    pub fn new() -> (r: DatabaseManager)
        ensures
            r == (DatabaseManager {  }),
    {
        DatabaseManager {  }
    }

    /// Decides one turn of the loop on the inlet's side: a command is taken
    /// note of, and a closed inlet ends the loop.
    pub fn handle_command(&mut self, command: Option<DatabaseCommand>) -> (step: DatabaseStep)
        ensures
            *final(self) == *old(self),
            step@ == (match command {
                Some(DatabaseCommand::RequestUpgradeToProvider(a)) =>
                    DatabaseStepView::NoteUpgradeRequest(a@),
                None => DatabaseStepView::Exit,
            }),
    {
        match command {
            Some(DatabaseCommand::RequestUpgradeToProvider(a)) => DatabaseStep::NoteUpgradeRequest(
                a,
            ),
            None => DatabaseStep::Exit,
        }
    }
}

} // verus!
