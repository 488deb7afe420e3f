use chippy::database_manager::{DatabaseCommand, DatabaseEvent, DatabaseManager, DatabaseStep};
use chippy::identity::Address;

#[test]
fn upgrade_request_is_taken_note_of() {
    let mut m = DatabaseManager::new();
    let at = Address::from_bytes(vec![4, 10, 0, 0, 1]);
    assert_eq!(
        m.handle_command(Some(DatabaseCommand::RequestUpgradeToProvider(at.clone()))),
        DatabaseStep::NoteUpgradeRequest(at)
    );
}

#[test]
fn closed_inlet_ends_the_document_actor() {
    let mut m = DatabaseManager::new();
    assert_eq!(m.handle_command(None), DatabaseStep::Exit);
    assert_eq!(DatabaseEvent::RequestUpgradeToProvider, DatabaseEvent::RequestUpgradeToProvider);
}
