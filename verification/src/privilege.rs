//! Running a function with the effective user and group of somebody else.
//!
//! The switch is a state machine over the system calls that it makes. Its
//! caller performs the call that is due and hands back what came of it.
use crate::machine::{self, Machine, Step, StepView};
use vstd::pervasive::unreached;
use vstd::prelude::*;

verus! {

/// A call that the switch needs.
#[derive(Debug, Clone, Copy, PartialEq, Eq, Structural)]
pub enum UserCall {
    /// Set the effective group and leave the real and the saved one.
    EnterGroup(u32),
    /// Set the effective user and leave the real and the saved one.
    EnterUser(u32),
    /// Run the function.
    Run,
    /// Set the effective user to the real one.
    LeaveUser,
    /// Set the effective group to the real one.
    LeaveGroup,
    /// Read the last error of the system.
    LastError,
}

/// What came of a call.
#[derive(Debug, Clone, Copy, PartialEq, Eq, Structural)]
pub enum UserEvent {
    /// The system call returned a status: 0 for success.
    Status(i32),
    /// The function returned, or panicked.
    Ran {
        /// Whether it panicked.
        panicked: bool,
    },
    /// The last error of the system.
    Errno(i32),
}

/// How the function ended.
#[derive(Debug, Clone, Copy, PartialEq, Eq, Structural)]
pub enum Ending {
    /// It returned, and its value is to be returned.
    Returned,
    /// It panicked, and the panic is to go on.
    Panicked,
}

impl View for Ending {
    type V = Ending;

    open spec fn view(&self) -> Ending {
        *self
    }
}

/// Whether an event can come of a call.
pub open spec fn can_answer(call: UserCall, event: UserEvent) -> bool {
    match call {
        UserCall::Run => event is Ran,
        UserCall::LastError => event is Errno,
        _ => event is Status,
    }
}

/// Whether an event can come of a call.
pub fn answers(call: UserCall, event: UserEvent) -> (fits: bool)
    ensures
        fits == can_answer(call, event),
{
    match call {
        UserCall::Run => matches!(event, UserEvent::Ran { .. }),
        UserCall::LastError => matches!(event, UserEvent::Errno(_)),
        _ => matches!(event, UserEvent::Status(_)),
    }
}

/// How far the switch has come.
#[derive(Debug, Clone, Copy, PartialEq, Eq, Structural)]
pub enum UserStage {
    /// Entering the group.
    EnterGroup,
    /// Reading why the group could not be entered.
    GroupRefused,
    /// Entering the user.
    EnterUser,
    /// Reading why the user could not be entered.
    UserRefused,
    /// Leaving the group again, as the user could not be entered.
    UndoGroup {
        /// Why.
        errno: i32,
    },
    /// Running the function.
    Run,
    /// Leaving the user.
    LeaveUser {
        /// How the function ended.
        ending: Ending,
    },
    /// Leaving the group.
    LeaveGroup {
        /// How the function ended.
        ending: Ending,
        /// Whether the user could be left.
        user_left: bool,
    },
    /// Reading why the user or the group could not be left.
    LeaveRefused,
}

/// A function that runs with the effective user and group of somebody else.
#[derive(Debug, Clone, Copy, PartialEq, Eq, Structural)]
pub struct AsUser {
    /// User to run as.
    pub uid: u32,
    /// Group to run as.
    pub gid: u32,
    /// How far the switch has come.
    pub stage: UserStage,
}

impl View for AsUser {
    type V = AsUser;

    open spec fn view(&self) -> AsUser {
        *self
    }
}

impl AsUser {
    /// The switch goes on at a stage.
    pub open spec fn at(self, stage: UserStage) -> StepView<AsUser, Ending, i32> {
        StepView::Next(AsUser { stage, ..self })
    }

    /// Whether the group was entered and not asked to be left since.
    pub open spec fn group_entered(self) -> bool {
        match self.stage {
            UserStage::EnterGroup | UserStage::GroupRefused | UserStage::LeaveRefused => false,
            _ => true,
        }
    }

    /// Whether the user was entered and not asked to be left since.
    pub open spec fn user_entered(self) -> bool {
        self.stage == UserStage::Run || self.stage is LeaveUser
    }
}

impl Machine for AsUser {
    type Call = UserCall;

    type Event = UserEvent;

    type Value = Ending;

    type Failure = i32;

    open spec fn call(self) -> UserCall {
        match self.stage {
            UserStage::EnterGroup => UserCall::EnterGroup(self.gid),
            UserStage::GroupRefused => UserCall::LastError,
            UserStage::EnterUser => UserCall::EnterUser(self.uid),
            UserStage::UserRefused => UserCall::LastError,
            UserStage::UndoGroup { .. } => UserCall::LeaveGroup,
            UserStage::Run => UserCall::Run,
            UserStage::LeaveUser { .. } => UserCall::LeaveUser,
            UserStage::LeaveGroup { .. } => UserCall::LeaveGroup,
            UserStage::LeaveRefused => UserCall::LastError,
        }
    }

    open spec fn next(self, event: UserEvent) -> StepView<AsUser, Ending, i32> {
        match self.stage {
            UserStage::EnterGroup => if event->Status_0 == 0 {
                self.at(UserStage::EnterUser)
            } else {
                self.at(UserStage::GroupRefused)
            },
            UserStage::GroupRefused => StepView::Finished(Err(event->Errno_0)),
            UserStage::EnterUser => if event->Status_0 == 0 {
                self.at(UserStage::Run)
            } else {
                self.at(UserStage::UserRefused)
            },
            UserStage::UserRefused => self.at(UserStage::UndoGroup { errno: event->Errno_0 }),
            UserStage::UndoGroup { errno } => StepView::Finished(Err(errno)),
            UserStage::Run => self.at(
                UserStage::LeaveUser {
                    ending: if event->panicked {
                        Ending::Panicked
                    } else {
                        Ending::Returned
                    },
                },
            ),
            UserStage::LeaveUser { ending } => self.at(
                UserStage::LeaveGroup { ending, user_left: event->Status_0 == 0 },
            ),
            UserStage::LeaveGroup { ending, user_left } => if user_left && event->Status_0 == 0 {
                StepView::Finished(Ok(ending))
            } else {
                self.at(UserStage::LeaveRefused)
            },
            UserStage::LeaveRefused => StepView::Finished(Err(event->Errno_0)),
        }
    }
}

impl View for UserCall {
    type V = UserCall;

    open spec fn view(&self) -> UserCall {
        *self
    }
}

/// Begins to run a function with only the effective user and group changed.
pub fn as_user(uid: u32, gid: u32) -> (machine: AsUser)
    ensures
        machine == (AsUser { uid, gid, stage: UserStage::EnterGroup }),
{
    AsUser { uid, gid, stage: UserStage::EnterGroup }
}

impl AsUser {
    /// The call that is due.
    pub fn call(&self) -> (call: UserCall)
        ensures
            call == Machine::call(*self),
    {
        match self.stage {
            UserStage::EnterGroup => UserCall::EnterGroup(self.gid),
            UserStage::GroupRefused => UserCall::LastError,
            UserStage::EnterUser => UserCall::EnterUser(self.uid),
            UserStage::UserRefused => UserCall::LastError,
            UserStage::UndoGroup { .. } => UserCall::LeaveGroup,
            UserStage::Run => UserCall::Run,
            UserStage::LeaveUser { .. } => UserCall::LeaveUser,
            UserStage::LeaveGroup { .. } => UserCall::LeaveGroup,
            UserStage::LeaveRefused => UserCall::LastError,
        }
    }

    fn go(self, stage: UserStage) -> (step: Step<AsUser, Ending, i32>)
        ensures
            step@ == self.at(stage),
    {
        Step::Next(AsUser { uid: self.uid, gid: self.gid, stage })
    }

    /// Goes on with what came of the call. Where the machine ends with an error
    /// it is that of the system.
    pub fn step(self, event: UserEvent) -> (step: Step<AsUser, Ending, i32>)
        requires
            can_answer(Machine::call(self), event),
        ensures
            step@ == self.next(event),
    {
        match (self.stage, event) {
            (UserStage::EnterGroup, UserEvent::Status(status)) => if status == 0 {
                self.go(UserStage::EnterUser)
            } else {
                self.go(UserStage::GroupRefused)
            },
            (UserStage::GroupRefused, UserEvent::Errno(errno)) => Step::Finished(Err(errno)),
            (UserStage::EnterUser, UserEvent::Status(status)) => if status == 0 {
                self.go(UserStage::Run)
            } else {
                self.go(UserStage::UserRefused)
            },
            (UserStage::UserRefused, UserEvent::Errno(errno)) => self.go(
                UserStage::UndoGroup { errno },
            ),
            (UserStage::UndoGroup { errno }, _) => Step::Finished(Err(errno)),
            (UserStage::Run, UserEvent::Ran { panicked }) => self.go(
                UserStage::LeaveUser {
                    ending: if panicked {
                        Ending::Panicked
                    } else {
                        Ending::Returned
                    },
                },
            ),
            (UserStage::LeaveUser { ending }, UserEvent::Status(status)) => self.go(
                UserStage::LeaveGroup { ending, user_left: status == 0 },
            ),
            (UserStage::LeaveGroup { ending, user_left }, UserEvent::Status(status)) => {
                if user_left && status == 0 {
                    Step::Finished(Ok(ending))
                } else {
                    self.go(UserStage::LeaveRefused)
                }
            },
            (UserStage::LeaveRefused, UserEvent::Errno(errno)) => Step::Finished(Err(errno)),
            (_, _) => unreached(),
        }
    }
}

/// The function runs only as the user and in the group that were asked for, and
/// nothing ends before the user and the group that were entered were asked to
/// be left.
pub proof fn law_user_and_group_are_left(machine: AsUser, event: UserEvent)
    requires
        can_answer(Machine::call(machine), event),
    ensures
        Machine::call(machine) == UserCall::Run ==> machine.user_entered()
            && machine.group_entered(),
        machine.next(event) matches StepView::Finished(_) ==> {
            &&& !machine.user_entered()
            &&& machine.group_entered() ==> Machine::call(machine) == UserCall::LeaveGroup
        },
        machine.next(event) matches StepView::Next(next) ==> {
            &&& next.uid == machine.uid && next.gid == machine.gid
            &&& machine.user_entered() && !next.user_entered() ==> Machine::call(machine)
                == UserCall::LeaveUser
            &&& machine.group_entered() && !next.group_entered() ==> Machine::call(machine)
                == UserCall::LeaveGroup
        },
{
}

/// The function runs between entering the group and the user and leaving them,
/// the user first. Its ending is the result, unless leaving fails.
pub proof fn law_run_as_user(
    uid: u32,
    gid: u32,
    panicked: bool,
    user_status: i32,
    group_status: i32,
    errno: i32,
)
    ensures
        machine::run(
            AsUser { uid, gid, stage: UserStage::EnterGroup },
            seq![
                UserEvent::Status(0),
                UserEvent::Status(0),
                UserEvent::Ran { panicked },
                UserEvent::Status(user_status),
                UserEvent::Status(group_status),
                UserEvent::Errno(errno),
            ],
        ) == {
            let calls = seq![
                UserCall::EnterGroup(gid),
                UserCall::EnterUser(uid),
                UserCall::Run,
                UserCall::LeaveUser,
                UserCall::LeaveGroup,
            ];
            if user_status == 0 && group_status == 0 {
                (
                    calls,
                    StepView::<AsUser, Ending, i32>::Finished(
                        Ok(
                            if panicked {
                                Ending::Panicked
                            } else {
                                Ending::Returned
                            },
                        ),
                    ),
                )
            } else {
                (
                    calls.push(UserCall::LastError),
                    StepView::<AsUser, Ending, i32>::Finished(Err(errno)),
                )
            }
        },
{
    reveal_with_fuel(machine::run, 7);
}

/// Where the user cannot be entered the function does not run, the group is
/// left again, and the error is the one of the user, not of leaving the group.
pub proof fn law_refused_user_undoes_group(
    uid: u32,
    gid: u32,
    status: i32,
    errno: i32,
    undo_status: i32,
)
    requires
        status != 0,
    ensures
        machine::run(
            AsUser { uid, gid, stage: UserStage::EnterGroup },
            seq![
                UserEvent::Status(0),
                UserEvent::Status(status),
                UserEvent::Errno(errno),
                UserEvent::Status(undo_status),
            ],
        ) == (
            seq![
                UserCall::EnterGroup(gid),
                UserCall::EnterUser(uid),
                UserCall::LastError,
                UserCall::LeaveGroup,
            ],
            StepView::<AsUser, Ending, i32>::Finished(Err(errno)),
        ),
{
    reveal_with_fuel(machine::run, 5);
}

/// Where the group cannot be entered nothing else is tried: the function does
/// not run, and the error is that of the system.
pub proof fn law_refused_group_ends(uid: u32, gid: u32, status: i32, errno: i32)
    requires
        status != 0,
    ensures
        machine::run(
            AsUser { uid, gid, stage: UserStage::EnterGroup },
            seq![UserEvent::Status(status), UserEvent::Errno(errno)],
        ) == (
            seq![UserCall::EnterGroup(gid), UserCall::LastError],
            StepView::<AsUser, Ending, i32>::Finished(Err(errno)),
        ),
{
    reveal_with_fuel(machine::run, 3);
}

/// A run of the function ends by returning or by a panic, the last error is a
/// number, and every other call has a status.
pub proof fn law_events_fit_calls(call: UserCall, event: UserEvent)
    ensures
        can_answer(call, event) <==> match event {
            UserEvent::Ran { .. } => call is Run,
            UserEvent::Errno(_) => call is LastError,
            UserEvent::Status(_) => call is EnterGroup || call is EnterUser || call is LeaveUser
                || call is LeaveGroup,
        },
{
}

} // verus!
