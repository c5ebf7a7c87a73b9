//! The decisions taken while listening to live CAN interfaces. The
//! sockets, the poll loop and the threads that run it stay outside; they
//! report each event here and carry out the action returned.

use vstd::prelude::*;

verus! {

/// Where a listening thread sends the frames it reads.
#[derive(Debug, Clone, Copy, PartialEq, Eq, Structural)]
pub enum Listener {
    /// Posted to a Dart port.
    DartPort,
    /// Sent on the session's channel.
    Channel,
}

/// What the poll loop of a listening thread observed.
#[derive(Debug, Clone, Copy, PartialEq, Eq, Structural)]
pub enum PollEvent {
    /// The stop waker fired.
    Wake,
    /// The pause waker fired.
    TogglePause,
    /// The socket was readable and a frame was read.
    FrameRead,
    /// The socket was readable but reading would block.
    WouldBlock,
    /// Reading from the socket failed otherwise.
    ReadFailed,
}

/// What a listening thread does next.
#[derive(Debug, Clone, Copy, PartialEq, Eq, Structural)]
pub enum PollAction {
    /// Leave the poll loop for good.
    Exit,
    /// Stop frames from arriving.
    Pause,
    /// Let frames arrive again.
    Unpause,
    /// Hand the frame to the listener.
    Deliver,
    /// Tell the Dart port that nothing more is there, then wait for the
    /// next poll.
    ReportIdle,
    /// Wait for the next poll.
    EndBatch,
}

/// The action for an event: stop on the stop waker, flip the pause state
/// on the pause waker, deliver a frame read, and after a read that would
/// block tell a Dart listener that the socket is idle.
pub open spec fn poll_action_spec(listener: Listener, paused: bool, event: PollEvent) -> PollAction {
    match event {
        PollEvent::Wake => PollAction::Exit,
        PollEvent::TogglePause => if paused {
            PollAction::Unpause
        } else {
            PollAction::Pause
        },
        PollEvent::FrameRead => PollAction::Deliver,
        PollEvent::WouldBlock => match listener {
            Listener::DartPort => PollAction::ReportIdle,
            Listener::Channel => PollAction::EndBatch,
        },
        PollEvent::ReadFailed => PollAction::EndBatch,
    }
}

/// Decides what a listening thread does on `event`.
pub fn poll_action(listener: Listener, paused: bool, event: PollEvent) -> (res: PollAction)
    ensures
        res == poll_action_spec(listener, paused, event),
{
    match event {
        PollEvent::Wake => PollAction::Exit,
        PollEvent::TogglePause => if paused {
            PollAction::Unpause
        } else {
            PollAction::Pause
        },
        PollEvent::FrameRead => PollAction::Deliver,
        PollEvent::WouldBlock => match listener {
            Listener::DartPort => PollAction::ReportIdle,
            Listener::Channel => PollAction::EndBatch,
        },
        PollEvent::ReadFailed => PollAction::EndBatch,
    }
}

/// What the session's listener took off its channel.
#[derive(Debug, Clone, Copy, PartialEq, Eq, Structural)]
pub enum Received {
    /// A frame, with code 0.
    Frame,
    /// A message with no frame: the session is finishing.
    Stop,
    /// A frame with a code other than 0.
    Unexpected,
    /// The channel failed.
    Failed,
}

/// What the session's listener does next.
#[derive(Debug, Clone, Copy, PartialEq, Eq, Structural)]
pub enum ListenAction {
    /// Hand the frame to the callback and keep listening.
    Deliver,
    /// Keep listening.
    Continue,
    /// Stop listening and return this code.
    Return(i32),
}

/// Decides what the session's listener does with what it received: frames
/// go to the callback, a failed receive is skipped, and anything else
/// ends listening with code 0.
pub fn listen_action(received: Received) -> (res: ListenAction)
    ensures
        res == match received {
            Received::Frame => ListenAction::Deliver,
            Received::Failed => ListenAction::Continue,
            Received::Stop => ListenAction::Return(0),
            Received::Unexpected => ListenAction::Return(0),
        },
{
    match received {
        Received::Frame => ListenAction::Deliver,
        Received::Failed => ListenAction::Continue,
        Received::Stop => ListenAction::Return(0),
        Received::Unexpected => ListenAction::Return(0),
    }
}

/// The code that finishing a session gives: 0 when every interface was
/// stopped and the listener told, -1 when the listener could not be told,
/// -99 when an interface could not be stopped.
pub fn finish_code(all_stopped: bool, listener_told: bool) -> (res: i32)
    ensures
        res == (if !all_stopped {
            -99i32
        } else if listener_told {
            0i32
        } else {
            -1i32
        }),
{
    if !all_stopped {
        -99
    } else if listener_told {
        0
    } else {
        -1
    }
}

/// What stopping one interface comes to.
#[derive(Debug, Clone, Copy, PartialEq, Eq, Structural)]
pub enum KillOutcome {
    /// Its thread was woken to stop; the interface is forgotten.
    Removed,
    /// Its thread could not be woken; the interface is kept.
    WakeFailed,
    /// No such interface is listened to.
    NotListening,
}

/// Decides what stopping an interface comes to, from whether it is
/// listened to and whether waking its thread succeeded.
pub fn kill_outcome(found: bool, woke: bool) -> (res: KillOutcome)
    ensures
        res == (if !found {
            KillOutcome::NotListening
        } else if woke {
            KillOutcome::Removed
        } else {
            KillOutcome::WakeFailed
        }),
{
    if !found {
        KillOutcome::NotListening
    } else if woke {
        KillOutcome::Removed
    } else {
        KillOutcome::WakeFailed
    }
}

} // verus!
