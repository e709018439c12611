//! The life cycle of a plugin: its states, the actions on it and when they are legal.

use crate::text;
use vstd::prelude::*;

verus! {

/// The state of a plugin package.
#[derive(Debug, Clone, Copy, PartialEq, Eq, Structural)]
pub enum PluginState {
    /// The dependency is absent.
    Uninstalled,
    /// The dependency is present but declares no bundle.
    Plain,
    /// The bundle is in place with at least one row enabled.
    Enabled,
    /// The bundle is in place with all its rows disabled.
    Disabled,
}

impl PluginState {
    pub open spec fn name(self) -> Seq<char> {
        match self {
            PluginState::Uninstalled => "uninstalled"@,
            PluginState::Plain => "plain"@,
            PluginState::Enabled => "enabled"@,
            PluginState::Disabled => "disabled"@,
        }
    }

    pub fn as_str(&self) -> (r: &'static str)
        ensures
            r@ == self.name(),
    {
        match self {
            PluginState::Uninstalled => "uninstalled",
            PluginState::Plain => "plain",
            PluginState::Enabled => "enabled",
            PluginState::Disabled => "disabled",
        }
    }
}

/// The state of a row.
#[derive(Debug, Clone, Copy, PartialEq, Eq, Structural)]
pub enum RowState {
    Enabled,
    Disabled,
    /// An expression decides; the launcher does not override it.
    Expression,
}

/// What can be asked of a plugin.
#[derive(Debug, Clone, Copy, PartialEq, Eq, Structural)]
pub enum PluginAction {
    Install,
    Enable,
    Disable,
    Uninstall,
    Repair,
    Quarantine,
}

impl PluginAction {
    pub open spec fn name(self) -> Seq<char> {
        match self {
            PluginAction::Install => "install"@,
            PluginAction::Enable => "enable"@,
            PluginAction::Disable => "disable"@,
            PluginAction::Uninstall => "uninstall"@,
            PluginAction::Repair => "repair"@,
            PluginAction::Quarantine => "quarantine"@,
        }
    }

    pub fn as_str(&self) -> (r: &'static str)
        ensures
            r@ == self.name(),
    {
        match self {
            PluginAction::Install => "install",
            PluginAction::Enable => "enable",
            PluginAction::Disable => "disable",
            PluginAction::Uninstall => "uninstall",
            PluginAction::Repair => "repair",
            PluginAction::Quarantine => "quarantine",
        }
    }
}

/// The kinds of failure.
#[derive(Debug, Clone, Copy, PartialEq, Eq, Structural)]
pub enum PluginErrorKind {
    /// The action is not legal in this state.
    IllegalTransition,
    /// There is no such target.
    NotFound,
    /// Another operation on the same package is under way.
    Busy,
    /// The change did not hold and was rolled back.
    VerificationFailed,
    /// The machine lacks a capability.
    CapabilityMissing,
    /// The managed block or the file around it is malformed.
    ManagedBlockConflict,
    /// dsh is not installed or cannot be run safely.
    DshNotInstalled,
    /// Anything else.
    Internal,
}

impl PluginErrorKind {
    pub open spec fn code(self) -> i32 {
        match self {
            PluginErrorKind::IllegalTransition => 2,
            PluginErrorKind::NotFound => 3,
            PluginErrorKind::Busy => 4,
            PluginErrorKind::VerificationFailed => 5,
            PluginErrorKind::CapabilityMissing => 6,
            PluginErrorKind::ManagedBlockConflict => 7,
            PluginErrorKind::DshNotInstalled => 8,
            PluginErrorKind::Internal => 1,
        }
    }

    /// The exit code of the command line for this kind of failure.
    pub fn exit_code(&self) -> (r: i32)
        ensures
            r == self.code(),
            1 <= r <= 8,
    {
        match self {
            PluginErrorKind::IllegalTransition => 2,
            PluginErrorKind::NotFound => 3,
            PluginErrorKind::Busy => 4,
            PluginErrorKind::VerificationFailed => 5,
            PluginErrorKind::CapabilityMissing => 6,
            PluginErrorKind::ManagedBlockConflict => 7,
            PluginErrorKind::DshNotInstalled => 8,
            PluginErrorKind::Internal => 1,
        }
    }
}

/// Different kinds of failure have different exit codes, and none of them is success.
pub proof fn law_exit_codes_tell_kinds_apart(a: PluginErrorKind, b: PluginErrorKind)
    ensures
        a.code() == b.code() ==> a == b,
        a.code() != 0,
{
}

/// A failure: its kind and what to tell the user.
#[derive(Debug)]
pub struct PluginError {
    pub kind: PluginErrorKind,
    pub message: String,
}

/// What a `PluginError` holds.
pub ghost struct ErrorText {
    pub kind: PluginErrorKind,
    pub message: Seq<char>,
}

impl View for PluginError {
    type V = ErrorText;

    open spec fn view(&self) -> ErrorText {
        ErrorText { kind: self.kind, message: self.message@ }
    }
}

pub open spec fn illegal_error(message: Seq<char>) -> ErrorText {
    ErrorText { kind: PluginErrorKind::IllegalTransition, message }
}

pub open spec fn not_found_error(message: Seq<char>) -> ErrorText {
    ErrorText { kind: PluginErrorKind::NotFound, message }
}

pub open spec fn busy_error(message: Seq<char>) -> ErrorText {
    ErrorText { kind: PluginErrorKind::Busy, message }
}

pub open spec fn verification_error(message: Seq<char>) -> ErrorText {
    ErrorText { kind: PluginErrorKind::VerificationFailed, message }
}

pub open spec fn dsh_missing_error(message: Seq<char>) -> ErrorText {
    ErrorText { kind: PluginErrorKind::DshNotInstalled, message }
}

pub open spec fn conflict_error(message: Seq<char>) -> ErrorText {
    ErrorText { kind: PluginErrorKind::ManagedBlockConflict, message }
}

pub open spec fn internal_error(message: Seq<char>) -> ErrorText {
    ErrorText { kind: PluginErrorKind::Internal, message }
}

impl PluginError {
    pub fn new(kind: PluginErrorKind, message: String) -> (r: Self)
        ensures
            r.kind == kind,
            r.message == message,
    {
        Self { kind, message }
    }

    pub fn illegal(message: String) -> (r: Self)
        ensures
            r@ == illegal_error(message@),
    {
        Self::new(PluginErrorKind::IllegalTransition, message)
    }

    pub fn not_found(message: String) -> (r: Self)
        ensures
            r@ == not_found_error(message@),
    {
        Self::new(PluginErrorKind::NotFound, message)
    }

    pub fn busy(message: String) -> (r: Self)
        ensures
            r@ == busy_error(message@),
    {
        Self::new(PluginErrorKind::Busy, message)
    }

    pub fn verification(message: String) -> (r: Self)
        ensures
            r@ == verification_error(message@),
    {
        Self::new(PluginErrorKind::VerificationFailed, message)
    }

    pub fn dsh_missing(message: String) -> (r: Self)
        ensures
            r@ == dsh_missing_error(message@),
    {
        Self::new(PluginErrorKind::DshNotInstalled, message)
    }

    pub fn conflict(message: String) -> (r: Self)
        ensures
            r@ == conflict_error(message@),
    {
        Self::new(PluginErrorKind::ManagedBlockConflict, message)
    }

    pub fn internal(message: String) -> (r: Self)
        ensures
            r@ == internal_error(message@),
    {
        Self::new(PluginErrorKind::Internal, message)
    }

    /// What the user sees: the exit code in brackets, then the message.
    pub fn ipc_message(&self) -> (r: String)
        ensures
            r@ == "["@ + crate::model::decimal(self.kind.code() as nat) + "] "@ + self.message@,
    {
        let code = self.kind.exit_code();
        text::cat4("[", text::decimal(code as u64).as_str(), "] ", self.message.as_str())
    }
}

/// Every row is disabled.
pub open spec fn all_are(rows: Seq<RowState>, state: RowState) -> bool {
    forall|i: int| 0 <= i < rows.len() ==> #[trigger] rows[i] == state
}

fn all_rows_are(rows: &[RowState], state: RowState) -> (b: bool)
    ensures
        b == all_are(rows@, state),
{
    let mut i: usize = 0;
    while i < rows.len()
        invariant
            i <= rows.len(),
            forall|j: int| 0 <= j < i ==> #[trigger] rows@[j] == state,
        decreases rows.len() - i,
    {
        if rows[i] != state {
            return false;
        }
        i += 1;
    }
    true
}

/// The state that the facts on disk amount to.
pub open spec fn state_of(
    dependency_present: bool,
    in_bundles: bool,
    declares_bundle: bool,
    rows: Seq<RowState>,
) -> PluginState {
    if !dependency_present {
        PluginState::Uninstalled
    } else if !declares_bundle {
        PluginState::Plain
    } else if in_bundles && rows.len() > 0 && all_are(rows, RowState::Disabled) {
        PluginState::Disabled
    } else {
        PluginState::Enabled
    }
}

pub fn derive_state(
    dependency_present: bool,
    in_bundles: bool,
    declares_bundle: bool,
    rows: &[RowState],
) -> (r: PluginState)
    ensures
        r == state_of(dependency_present, in_bundles, declares_bundle, rows@),
{
    if !dependency_present {
        return PluginState::Uninstalled;
    }
    if !declares_bundle {
        return PluginState::Plain;
    }
    if !in_bundles || rows.len() == 0 {
        return PluginState::Enabled;
    }
    if all_rows_are(rows, RowState::Disabled) {
        PluginState::Disabled
    } else {
        PluginState::Enabled
    }
}

/// Why an action is illegal, if it is.
pub open spec fn objection(action: PluginAction, state: PluginState, rows: Seq<RowState>) -> Option<
    Seq<char>,
> {
    match action {
        PluginAction::Install => if state != PluginState::Uninstalled {
            Some(
                "插件已安装（当前状态 "@ + state.name()
                    + "），install 不是合法转换；如需更新请使用 sync"@,
            )
        } else {
            None
        },
        PluginAction::Enable | PluginAction::Disable => match state {
            PluginState::Uninstalled => Some(
                "插件未安装，无法执行 "@ + action.name() + "；请先 install"@,
            ),
            PluginState::Plain => Some(
                "该包不声明 dsh.bundle（普通依赖），没有可"@ + action.name() + "的行"@,
            ),
            _ => if rows.len() == 0 {
                Some("该插件没有可"@ + action.name() + "的行（dump 中未发现其贡献行）"@)
            } else if all_are(rows, RowState::Expression) {
                Some("该插件的全部行由 !!js 表达式控制 disabled，启动器拒绝覆盖"@)
            } else {
                None
            },
        },
        _ => None,
    }
}

/// Accepts exactly the actions that are legal in the given state.
pub fn validate(action: PluginAction, state: PluginState, rows: &[RowState]) -> (r: Result<
    (),
    PluginError,
>)
    ensures
        match r {
            Ok(_) => objection(action, state, rows@) is None,
            Err(e) => objection(action, state, rows@) is Some && e@ == illegal_error(
                objection(action, state, rows@)->0,
            ),
        },
{
    match action {
        PluginAction::Install => {
            if state != PluginState::Uninstalled {
                return Err(
                    PluginError::illegal(
                        text::cat3(
                            "插件已安装（当前状态 ",
                            state.as_str(),
                            "），install 不是合法转换；如需更新请使用 sync",
                        ),
                    ),
                );
            }
        },
        PluginAction::Enable | PluginAction::Disable => {
            match state {
                PluginState::Uninstalled => {
                    return Err(
                        PluginError::illegal(
                            text::cat3("插件未安装，无法执行 ", action.as_str(), "；请先 install"),
                        ),
                    );
                },
                PluginState::Plain => {
                    return Err(
                        PluginError::illegal(
                            text::cat3(
                                "该包不声明 dsh.bundle（普通依赖），没有可",
                                action.as_str(),
                                "的行",
                            ),
                        ),
                    );
                },
                PluginState::Enabled | PluginState::Disabled => {},
            }
            if rows.len() == 0 {
                return Err(
                    PluginError::illegal(
                        text::cat3(
                            "该插件没有可",
                            action.as_str(),
                            "的行（dump 中未发现其贡献行）",
                        ),
                    ),
                );
            }
            if all_rows_are(rows, RowState::Expression) {
                return Err(
                    PluginError::illegal(
                        "该插件的全部行由 !!js 表达式控制 disabled，启动器拒绝覆盖".to_owned(),
                    ),
                );
            }
        },
        PluginAction::Uninstall | PluginAction::Repair | PluginAction::Quarantine => {},
    }
    Ok(())
}

} // verus!
