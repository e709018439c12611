use dsh_launcher::plugin::state::{
    derive_state, validate, PluginAction, PluginError, PluginErrorKind, PluginState, RowState,
};

#[test]
fn test_derive_state() {
    assert_eq!(derive_state(false, false, false, &[]), PluginState::Uninstalled);
    assert_eq!(derive_state(true, false, false, &[]), PluginState::Plain);
    assert_eq!(derive_state(true, true, true, &[RowState::Enabled, RowState::Disabled]), PluginState::Enabled);
    assert_eq!(derive_state(true, true, true, &[RowState::Disabled, RowState::Disabled]), PluginState::Disabled);
    assert_eq!(derive_state(true, false, true, &[RowState::Disabled]), PluginState::Enabled);
    assert_eq!(derive_state(true, true, true, &[]), PluginState::Enabled);
    assert_eq!(derive_state(true, true, true, &[RowState::Expression]), PluginState::Enabled);
}

#[test]
fn test_validate_enable_disable_rules() {
    assert_eq!(
        validate(PluginAction::Enable, PluginState::Uninstalled, &[]).unwrap_err().kind,
        PluginErrorKind::IllegalTransition
    );
    assert_eq!(
        validate(PluginAction::Disable, PluginState::Plain, &[]).unwrap_err().kind,
        PluginErrorKind::IllegalTransition
    );
    assert_eq!(
        validate(PluginAction::Enable, PluginState::Enabled, &[RowState::Expression]).unwrap_err().kind,
        PluginErrorKind::IllegalTransition
    );
    assert!(validate(PluginAction::Enable, PluginState::Disabled, &[RowState::Disabled]).is_ok());
    assert!(validate(PluginAction::Disable, PluginState::Enabled, &[RowState::Enabled]).is_ok());
    assert!(validate(PluginAction::Disable, PluginState::Enabled, &[RowState::Enabled, RowState::Expression]).is_ok());
    assert_eq!(
        validate(PluginAction::Install, PluginState::Enabled, &[]).unwrap_err().kind,
        PluginErrorKind::IllegalTransition
    );
    assert!(validate(PluginAction::Uninstall, PluginState::Uninstalled, &[]).is_ok());
}

#[test]
fn test_exit_codes() {
    assert_eq!(PluginErrorKind::IllegalTransition.exit_code(), 2);
    assert_eq!(PluginErrorKind::NotFound.exit_code(), 3);
    assert_eq!(PluginErrorKind::Busy.exit_code(), 4);
    assert_eq!(PluginErrorKind::VerificationFailed.exit_code(), 5);
    assert_eq!(PluginErrorKind::CapabilityMissing.exit_code(), 6);
    assert_eq!(PluginErrorKind::ManagedBlockConflict.exit_code(), 7);
    assert_eq!(PluginErrorKind::DshNotInstalled.exit_code(), 8);
}

#[test]
fn test_derive_and_validate_matrix() {
    assert_eq!(derive_state(true, true, true, &[RowState::Disabled]), PluginState::Disabled);
    assert_eq!(
        derive_state(true, true, true, &[RowState::Disabled, RowState::Enabled]),
        PluginState::Enabled
    );
    assert_eq!(derive_state(true, false, true, &[RowState::Disabled]), PluginState::Enabled);
}

#[test]
fn errors_carry_their_kind() {
    let text = |s: &str| s.to_string();
    assert_eq!(PluginError::illegal(text("m")).kind, PluginErrorKind::IllegalTransition);
    assert_eq!(PluginError::not_found(text("m")).kind, PluginErrorKind::NotFound);
    assert_eq!(PluginError::busy(text("m")).kind, PluginErrorKind::Busy);
    assert_eq!(PluginError::verification(text("m")).kind, PluginErrorKind::VerificationFailed);
    assert_eq!(PluginError::dsh_missing(text("m")).kind, PluginErrorKind::DshNotInstalled);
    assert_eq!(PluginError::conflict(text("m")).kind, PluginErrorKind::ManagedBlockConflict);
    assert_eq!(PluginError::internal(text("m")).kind, PluginErrorKind::Internal);
    assert_eq!(PluginErrorKind::Internal.exit_code(), 1);
    assert!(PluginError::busy(text("m")).ipc_message().contains("m"));
}
