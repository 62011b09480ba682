//! The steps in which the sandbox is started and its end awaited.
use vstd::prelude::*;

verus! {

/// What is to be done next.
#[derive(Clone, Copy, Debug, PartialEq, Eq, Structural)]
pub enum Launch {
    /// Create a file in memory that may be executed, with [`EXECUTABLE_FLAGS`].
    CreateExecutable,
    /// Create a file in memory without saying whether it may be executed, with
    /// [`PLAIN_FLAGS`].
    CreatePlain,
    /// Write the program into the file.
    Write,
    /// Give the file the permissions [`MODE`].
    Protect,
    /// Seal the file against changes, with [`SEALS`].
    Seal,
    /// Fork.
    Fork,
    /// In the child: execute the file.
    Execute,
    /// In the parent: close the file.
    Close,
    /// In the parent: wait for the child.
    Wait,
    /// Exit with this code.
    Finished(u8),
    /// Report this error.
    Failed(BubblewrapError),
}

/// Why the sandbox could not be run, with the number of the system's error.
#[derive(Clone, Copy, Debug, PartialEq, Eq, Structural)]
pub enum BubblewrapError {
    MemfdCreate(i32),
    Write(i32),
    Fchmod(i32),
    Fcntl(i32),
    Fork(i32),
    Execveat(i32),
    Waitpid(i32),
    MemfdClose(i32),
    /// The sandbox was terminated by this signal.
    BwrapSignaled(i32),
    /// The sandbox ended in another way, with this wait status.
    BwrapUnexpectedStatus(i32),
}

/// How a child ended.
#[derive(Clone, Copy, Debug, PartialEq, Eq, Structural)]
pub enum ChildStatus {
    /// With this exit code.
    Exited(i32),
    /// By this signal.
    Signaled(i32),
    /// In another way, with this wait status.
    Other(i32),
}

/// What came of a step.
#[derive(Clone, Copy, Debug, PartialEq, Eq, Structural)]
pub enum LaunchEvent {
    /// It was done.
    Done,
    /// It failed with this error number.
    Failed(i32),
    /// The fork was done, and this is the parent.
    Parent,
    /// The fork was done, and this is the child.
    Child,
    /// The child ended.
    Ended(ChildStatus),
}

/// The error number of a system call with an invalid argument, such as a flag
/// that the kernel does not know.
pub const EINVAL: i32 = 22;

/// `libc::EINVAL`: an argument is invalid.
#[verifier::external_body]
fn einval() -> (r: i32)
    ensures
        r == 22,
{
    libc::EINVAL
}

/// The flags of a file that may be executed: it is closed when a program is
/// executed, can be sealed, and may be executed itself.
pub const EXECUTABLE_FLAGS: u32 = 0x13;

/// The flags of a file for kernels that do not know the last of these.
pub const PLAIN_FLAGS: u32 = 0x03;

/// The permissions of the file: its owner may read and execute it.
pub const MODE: u32 = 0o500;

/// The seals of the file: against more seals, shrinking, growing and writing.
pub const SEALS: i32 = 0x0f;

/// `libc::MFD_CLOEXEC`: close the file when a program is executed.
#[verifier::external_body]
fn mfd_cloexec() -> (r: u32)
    ensures
        r == 0x01,
{
    libc::MFD_CLOEXEC
}

/// `libc::MFD_ALLOW_SEALING`: the file can be sealed.
#[verifier::external_body]
fn mfd_allow_sealing() -> (r: u32)
    ensures
        r == 0x02,
{
    libc::MFD_ALLOW_SEALING
}

/// `libc::MFD_EXEC`: the file may be executed.
#[verifier::external_body]
fn mfd_exec() -> (r: u32)
    ensures
        r == 0x10,
{
    libc::MFD_EXEC
}

/// `libc::F_SEAL_SEAL`: no more seals.
#[verifier::external_body]
fn f_seal_seal() -> (r: i32)
    ensures
        r == 0x01,
{
    libc::F_SEAL_SEAL
}

/// `libc::F_SEAL_SHRINK`: the file does not shrink.
#[verifier::external_body]
fn f_seal_shrink() -> (r: i32)
    ensures
        r == 0x02,
{
    libc::F_SEAL_SHRINK
}

/// `libc::F_SEAL_GROW`: the file does not grow.
#[verifier::external_body]
fn f_seal_grow() -> (r: i32)
    ensures
        r == 0x04,
{
    libc::F_SEAL_GROW
}

/// `libc::F_SEAL_WRITE`: the file is not written.
#[verifier::external_body]
fn f_seal_write() -> (r: i32)
    ensures
        r == 0x08,
{
    libc::F_SEAL_WRITE
}

/// The flags for [`Launch::CreateExecutable`].
pub fn executable_flags() -> (r: u32)
    ensures
        r == EXECUTABLE_FLAGS,
{
    assert(0x01u32 | 0x02u32 | 0x10u32 == 0x13u32) by (bit_vector);
    mfd_cloexec() | mfd_allow_sealing() | mfd_exec()
}

/// The flags for [`Launch::CreatePlain`].
pub fn plain_flags() -> (r: u32)
    ensures
        r == PLAIN_FLAGS,
{
    assert(0x01u32 | 0x02u32 == 0x03u32) by (bit_vector);
    mfd_cloexec() | mfd_allow_sealing()
}

/// The seals for [`Launch::Seal`].
pub fn seals() -> (r: i32)
    ensures
        r == SEALS,
{
    assert(0x08i32 | 0x04i32 | 0x02i32 | 0x01i32 == 0x0fi32) by (bit_vector);
    f_seal_write() | f_seal_grow() | f_seal_shrink() | f_seal_seal()
}

/// What follows from the end of the child: its exit code is handed on, in the
/// range that an exit code has.
pub open spec fn child_outcome(status: ChildStatus) -> Launch {
    match status {
        ChildStatus::Exited(code) => Launch::Finished((code % 256) as u8),
        ChildStatus::Signaled(signal) => Launch::Failed(BubblewrapError::BwrapSignaled(signal)),
        ChildStatus::Other(status) => Launch::Failed(
            BubblewrapError::BwrapUnexpectedStatus(status),
        ),
    }
}

/// What follows from a step and what came of it. An event that cannot come of a
/// step changes nothing.
pub open spec fn launch_step(step: Launch, event: LaunchEvent) -> Launch {
    match (step, event) {
        (Launch::CreateExecutable, LaunchEvent::Done) => Launch::Write,
        (Launch::CreateExecutable, LaunchEvent::Failed(error)) => if error == EINVAL {
            Launch::CreatePlain
        } else {
            Launch::Failed(BubblewrapError::MemfdCreate(error))
        },
        (Launch::CreatePlain, LaunchEvent::Done) => Launch::Write,
        (Launch::CreatePlain, LaunchEvent::Failed(error)) => Launch::Failed(
            BubblewrapError::MemfdCreate(error),
        ),
        (Launch::Write, LaunchEvent::Done) => Launch::Protect,
        (Launch::Write, LaunchEvent::Failed(error)) => Launch::Failed(BubblewrapError::Write(error)),
        (Launch::Protect, LaunchEvent::Done) => Launch::Seal,
        (Launch::Protect, LaunchEvent::Failed(error)) => Launch::Failed(
            BubblewrapError::Fchmod(error),
        ),
        (Launch::Seal, LaunchEvent::Done) => Launch::Fork,
        (Launch::Seal, LaunchEvent::Failed(error)) => Launch::Failed(BubblewrapError::Fcntl(error)),
        (Launch::Fork, LaunchEvent::Parent) => Launch::Close,
        (Launch::Fork, LaunchEvent::Child) => Launch::Execute,
        (Launch::Fork, LaunchEvent::Failed(error)) => Launch::Failed(BubblewrapError::Fork(error)),
        (Launch::Execute, LaunchEvent::Failed(error)) => Launch::Failed(
            BubblewrapError::Execveat(error),
        ),
        (Launch::Close, LaunchEvent::Done) => Launch::Wait,
        (Launch::Close, LaunchEvent::Failed(error)) => Launch::Failed(
            BubblewrapError::MemfdClose(error),
        ),
        (Launch::Wait, LaunchEvent::Ended(status)) => child_outcome(status),
        (Launch::Wait, LaunchEvent::Failed(error)) => Launch::Failed(
            BubblewrapError::Waitpid(error),
        ),
        _ => step,
    }
}

/// What follows from the end of the child.
pub fn settle_child(status: ChildStatus) -> (r: Launch)
    ensures
        r == child_outcome(status),
{
    match status {
        ChildStatus::Exited(code) => {
            assert(code as u8 == code % 256) by (bit_vector);
            Launch::Finished(code as u8)
        },
        ChildStatus::Signaled(signal) => Launch::Failed(BubblewrapError::BwrapSignaled(signal)),
        ChildStatus::Other(status) => Launch::Failed(
            BubblewrapError::BwrapUnexpectedStatus(status),
        ),
    }
}

/// What follows from a step and what came of it.
pub fn advance_launch(step: Launch, event: LaunchEvent) -> (r: Launch)
    ensures
        r == launch_step(step, event),
{
    match (step, event) {
        (Launch::CreateExecutable, LaunchEvent::Done) => Launch::Write,
        (Launch::CreateExecutable, LaunchEvent::Failed(error)) => if error == einval() {
            Launch::CreatePlain
        } else {
            Launch::Failed(BubblewrapError::MemfdCreate(error))
        },
        (Launch::CreatePlain, LaunchEvent::Done) => Launch::Write,
        (Launch::CreatePlain, LaunchEvent::Failed(error)) => Launch::Failed(
            BubblewrapError::MemfdCreate(error),
        ),
        (Launch::Write, LaunchEvent::Done) => Launch::Protect,
        (Launch::Write, LaunchEvent::Failed(error)) => Launch::Failed(BubblewrapError::Write(error)),
        (Launch::Protect, LaunchEvent::Done) => Launch::Seal,
        (Launch::Protect, LaunchEvent::Failed(error)) => Launch::Failed(
            BubblewrapError::Fchmod(error),
        ),
        (Launch::Seal, LaunchEvent::Done) => Launch::Fork,
        (Launch::Seal, LaunchEvent::Failed(error)) => Launch::Failed(BubblewrapError::Fcntl(error)),
        (Launch::Fork, LaunchEvent::Parent) => Launch::Close,
        (Launch::Fork, LaunchEvent::Child) => Launch::Execute,
        (Launch::Fork, LaunchEvent::Failed(error)) => Launch::Failed(BubblewrapError::Fork(error)),
        (Launch::Execute, LaunchEvent::Failed(error)) => Launch::Failed(
            BubblewrapError::Execveat(error),
        ),
        (Launch::Close, LaunchEvent::Done) => Launch::Wait,
        (Launch::Close, LaunchEvent::Failed(error)) => Launch::Failed(
            BubblewrapError::MemfdClose(error),
        ),
        (Launch::Wait, LaunchEvent::Ended(status)) => settle_child(status),
        (Launch::Wait, LaunchEvent::Failed(error)) => Launch::Failed(
            BubblewrapError::Waitpid(error),
        ),
        _ => step,
    }
}

/// The exit code of the command is handed on unchanged.
pub proof fn exit_code_is_handed_on(code: i32)
    requires
        0 <= code < 256,
    ensures
        launch_step(Launch::Wait, LaunchEvent::Ended(ChildStatus::Exited(code)))
            == Launch::Finished(code as u8),
{
}

/// A signal that ended the child is reported, and so is any other status than an
/// exit, each as it was waited for.
pub proof fn other_ends_are_reported(number: i32)
    ensures
        launch_step(Launch::Wait, LaunchEvent::Ended(ChildStatus::Signaled(number)))
            == Launch::Failed(BubblewrapError::BwrapSignaled(number)),
        launch_step(Launch::Wait, LaunchEvent::Ended(ChildStatus::Other(number)))
            == Launch::Failed(BubblewrapError::BwrapUnexpectedStatus(number)),
{
}

/// How many steps can follow at most.
pub open spec fn steps_left(step: Launch) -> int {
    match step {
        Launch::CreateExecutable => 8,
        Launch::CreatePlain => 7,
        Launch::Write => 6,
        Launch::Protect => 5,
        Launch::Seal => 4,
        Launch::Fork => 3,
        Launch::Close => 2,
        Launch::Wait => 1,
        Launch::Execute => 1,
        Launch::Finished(_) => 0,
        Launch::Failed(_) => 0,
    }
}

/// Every event that comes of a step brings the end closer, the end itself is
/// final, and a file is made anew at most once.
pub proof fn launches_end(step: Launch, event: LaunchEvent)
    ensures
        launch_step(step, event) != step ==> 0 <= steps_left(launch_step(step, event)) < steps_left(
            step,
        ),
        steps_left(step) == 0 ==> launch_step(step, event) == step,
        launch_step(step, event) == Launch::CreatePlain ==> step == Launch::CreateExecutable || step
            == Launch::CreatePlain,
{
}

/// A file is only made without saying that it may be executed where the kernel
/// does not know how to say so.
pub proof fn only_unknown_flags_are_retried(error: i32)
    ensures
        launch_step(Launch::CreateExecutable, LaunchEvent::Failed(error)) == Launch::CreatePlain
            <==> error == EINVAL,
        launch_step(Launch::CreatePlain, LaunchEvent::Failed(error)) == Launch::Failed(
            BubblewrapError::MemfdCreate(error),
        ),
{
}

/// A retried file differs from the first in nothing but the flag that the kernel
/// did not know.
pub proof fn retried_files_differ_in_one_flag()
    ensures
        EXECUTABLE_FLAGS & !0x10u32 == PLAIN_FLAGS,
        EXECUTABLE_FLAGS & 0x10u32 != 0,
{
    assert(0x13u32 & !0x10u32 == 0x03u32) by (bit_vector);
    assert(0x13u32 & 0x10u32 == 0x10u32) by (bit_vector);
}

/// The name under which an error of a step is reported.
pub open spec fn step_error(step: Launch, error: i32) -> BubblewrapError
    recommends
        steps_left(step) > 0,
{
    match step {
        Launch::Write => BubblewrapError::Write(error),
        Launch::Protect => BubblewrapError::Fchmod(error),
        Launch::Seal => BubblewrapError::Fcntl(error),
        Launch::Fork => BubblewrapError::Fork(error),
        Launch::Execute => BubblewrapError::Execveat(error),
        Launch::Close => BubblewrapError::MemfdClose(error),
        Launch::Wait => BubblewrapError::Waitpid(error),
        _ => BubblewrapError::MemfdCreate(error),
    }
}

/// An error is reported as it came, under the name of the step. The one exception
/// is a flag that the kernel does not know.
pub proof fn errors_are_reported(step: Launch, error: i32)
    requires
        steps_left(step) > 0,
        step != Launch::CreateExecutable || error != EINVAL,
    ensures
        launch_step(step, LaunchEvent::Failed(error)) == Launch::Failed(step_error(step, error)),
{
}

/// A program is executed only in a child, after it was written, protected and
/// sealed, each without an error.
pub proof fn programs_are_sealed_before_they_run(step: Launch, event: LaunchEvent)
    ensures
        launch_step(step, event) != step ==> match launch_step(step, event) {
            Launch::Execute => step == Launch::Fork && event == LaunchEvent::Child,
            Launch::Fork => step == Launch::Seal && event == LaunchEvent::Done,
            Launch::Seal => step == Launch::Protect && event == LaunchEvent::Done,
            Launch::Protect => step == Launch::Write && event == LaunchEvent::Done,
            _ => true,
        },
{
}

/// A launch finishes only with the exit code of the child it waited for.
pub proof fn only_exited_children_finish(step: Launch, event: LaunchEvent)
    requires
        !(step is Finished),
    ensures
        launch_step(step, event) matches Launch::Finished(code) ==> {
            &&& step == Launch::Wait
            &&& event matches LaunchEvent::Ended(ChildStatus::Exited(status))
            &&& code == status % 256
        },
{
}

/// What becomes of a launch through a series of events.
pub open spec fn launch_run(step: Launch, events: Seq<LaunchEvent>) -> Launch
    decreases events.len(),
{
    if events.len() == 0 {
        step
    } else {
        launch_step(launch_run(step, events.drop_last()), events.last())
    }
}

/// A step that is done is followed by the next: the file is created, written,
/// protected and sealed, then the process forks, and the parent closes the file and
/// waits for the child.
pub proof fn steps_that_are_done_go_on()
    ensures
        launch_step(Launch::CreateExecutable, LaunchEvent::Done) == Launch::Write,
        launch_step(Launch::CreatePlain, LaunchEvent::Done) == Launch::Write,
        launch_step(Launch::Write, LaunchEvent::Done) == Launch::Protect,
        launch_step(Launch::Protect, LaunchEvent::Done) == Launch::Seal,
        launch_step(Launch::Seal, LaunchEvent::Done) == Launch::Fork,
        launch_step(Launch::Fork, LaunchEvent::Parent) == Launch::Close,
        launch_step(Launch::Fork, LaunchEvent::Child) == Launch::Execute,
        launch_step(Launch::Close, LaunchEvent::Done) == Launch::Wait,
{
}

/// A launch in which every step succeeds ends with the exit code of the child, also
/// where the file had to be made anew.
pub proof fn successful_launches_end_with_the_exit_code(code: i32)
    requires
        0 <= code < 256,
    ensures
        launch_run(
            Launch::CreateExecutable,
            seq![
                LaunchEvent::Done,
                LaunchEvent::Done,
                LaunchEvent::Done,
                LaunchEvent::Done,
                LaunchEvent::Parent,
                LaunchEvent::Done,
                LaunchEvent::Ended(ChildStatus::Exited(code)),
            ],
        ) == Launch::Finished(code as u8),
        launch_run(
            Launch::CreateExecutable,
            seq![
                LaunchEvent::Failed(22),
                LaunchEvent::Done,
                LaunchEvent::Done,
                LaunchEvent::Done,
                LaunchEvent::Done,
                LaunchEvent::Parent,
                LaunchEvent::Done,
                LaunchEvent::Ended(ChildStatus::Exited(code)),
            ],
        ) == Launch::Finished(code as u8),
{
    let done = LaunchEvent::Done;
    let end = LaunchEvent::Ended(ChildStatus::Exited(code));
    let start = Launch::CreateExecutable;
    let a0 = Seq::<LaunchEvent>::empty();
    let a1 = a0.push(done);
    let a2 = a1.push(done);
    let a3 = a2.push(done);
    let a4 = a3.push(done);
    let a5 = a4.push(LaunchEvent::Parent);
    let a6 = a5.push(done);
    let a7 = a6.push(end);
    assert(a1.drop_last() =~= a0 && a2.drop_last() =~= a1 && a3.drop_last() =~= a2);
    assert(a4.drop_last() =~= a3 && a5.drop_last() =~= a4 && a6.drop_last() =~= a5);
    assert(a7.drop_last() =~= a6);
    assert(launch_run(start, a0) == start);
    assert(launch_run(start, a1) == Launch::Write);
    assert(launch_run(start, a2) == Launch::Protect);
    assert(launch_run(start, a3) == Launch::Seal);
    assert(launch_run(start, a4) == Launch::Fork);
    assert(launch_run(start, a5) == Launch::Close);
    assert(launch_run(start, a6) == Launch::Wait);
    assert(a7 =~= seq![done, done, done, done, LaunchEvent::Parent, done, end]);
    let b1 = a0.push(LaunchEvent::Failed(22));
    let b2 = b1.push(done);
    let b3 = b2.push(done);
    let b4 = b3.push(done);
    let b5 = b4.push(done);
    let b6 = b5.push(LaunchEvent::Parent);
    let b7 = b6.push(done);
    let b8 = b7.push(end);
    assert(b1.drop_last() =~= a0 && b2.drop_last() =~= b1 && b3.drop_last() =~= b2);
    assert(b4.drop_last() =~= b3 && b5.drop_last() =~= b4 && b6.drop_last() =~= b5);
    assert(b7.drop_last() =~= b6 && b8.drop_last() =~= b7);
    assert(launch_run(start, b1) == Launch::CreatePlain);
    assert(launch_run(start, b2) == Launch::Write);
    assert(launch_run(start, b3) == Launch::Protect);
    assert(launch_run(start, b4) == Launch::Seal);
    assert(launch_run(start, b5) == Launch::Fork);
    assert(launch_run(start, b6) == Launch::Close);
    assert(launch_run(start, b7) == Launch::Wait);
    assert(b8 =~= seq![
        LaunchEvent::Failed(22),
        done,
        done,
        done,
        done,
        LaunchEvent::Parent,
        done,
        end,
    ]);
}

/// A launch fails only where a step failed or the child did not exit.
pub proof fn only_failures_fail(step: Launch, event: LaunchEvent)
    requires
        !(step is Failed),
    ensures
        launch_step(step, event) is Failed ==> event is Failed || event matches LaunchEvent::Ended(
            ChildStatus::Signaled(_),
        ) || event matches LaunchEvent::Ended(ChildStatus::Other(_)),
{
}

/// Every failure is reported with its number, under the name of the call that
/// failed.
pub proof fn failures_keep_their_number(error: i32)
    ensures
        error != 22 ==> launch_step(Launch::CreateExecutable, LaunchEvent::Failed(error))
            == Launch::Failed(BubblewrapError::MemfdCreate(error)),
        error == 22 ==> launch_step(Launch::CreateExecutable, LaunchEvent::Failed(error))
            == Launch::CreatePlain,
        launch_step(Launch::CreatePlain, LaunchEvent::Failed(error)) == Launch::Failed(
            BubblewrapError::MemfdCreate(error),
        ),
        launch_step(Launch::Write, LaunchEvent::Failed(error)) == Launch::Failed(
            BubblewrapError::Write(error),
        ),
        launch_step(Launch::Protect, LaunchEvent::Failed(error)) == Launch::Failed(
            BubblewrapError::Fchmod(error),
        ),
        launch_step(Launch::Seal, LaunchEvent::Failed(error)) == Launch::Failed(
            BubblewrapError::Fcntl(error),
        ),
        launch_step(Launch::Fork, LaunchEvent::Failed(error)) == Launch::Failed(
            BubblewrapError::Fork(error),
        ),
        launch_step(Launch::Execute, LaunchEvent::Failed(error)) == Launch::Failed(
            BubblewrapError::Execveat(error),
        ),
        launch_step(Launch::Close, LaunchEvent::Failed(error)) == Launch::Failed(
            BubblewrapError::MemfdClose(error),
        ),
        launch_step(Launch::Wait, LaunchEvent::Failed(error)) == Launch::Failed(
            BubblewrapError::Waitpid(error),
        ),
{
}

/// The child's end alone decides what follows from it: its exit code, in the range
/// of one byte, or what ended it.
pub proof fn ends_of_children_decide(number: i32)
    ensures
        child_outcome(ChildStatus::Exited(number)) matches Launch::Finished(code) && (number - code)
            % 256 == 0,
        child_outcome(ChildStatus::Signaled(number)) == Launch::Failed(
            BubblewrapError::BwrapSignaled(number),
        ),
        child_outcome(ChildStatus::Other(number)) == Launch::Failed(
            BubblewrapError::BwrapUnexpectedStatus(number),
        ),
        forall|status: ChildStatus|
            launch_step(Launch::Wait, LaunchEvent::Ended(status)) == #[trigger] child_outcome(
                status,
            ),
{
}

/// An event that cannot come of a step changes nothing, and nothing changes what
/// has ended.
pub proof fn stray_events_change_nothing(step: Launch, event: LaunchEvent)
    ensures
        step is Finished || step is Failed ==> launch_step(step, event) == step,
        event == LaunchEvent::Done && (step == Launch::Fork || step == Launch::Execute || step
            == Launch::Wait) ==> launch_step(step, event) == step,
        (event == LaunchEvent::Parent || event == LaunchEvent::Child) && step != Launch::Fork
            ==> launch_step(step, event) == step,
        event is Ended && step != Launch::Wait ==> launch_step(step, event) == step,
{
}

/// The file is made for its owner to read and execute, and takes every seal.
pub proof fn files_are_sealed_against_everything()
    ensures
        MODE == 0o400 + 0o100,
        SEALS == 0x01 + 0x02 + 0x04 + 0x08,
        PLAIN_FLAGS == 0x01 + 0x02,
        EXECUTABLE_FLAGS == 0x01 + 0x02 + 0x10,
        EINVAL == 22,
{
}

} // verus!
