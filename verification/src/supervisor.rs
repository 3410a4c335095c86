//! Supervision of the helper process: its phases, what is logged, and when
//! and how an invocation ends.

use vstd::prelude::*;

verus! {

/// The phase of an invocation.
#[derive(Clone, Copy, Debug, PartialEq, Eq)]
pub enum Phase {
    /// The process was started.
    Spawned,
    /// Its output streams are being read.
    StreamsAttached,
    /// It has exited, with a code unless a signal ended it.
    Exited { code: Option<i32> },
}

/// One of the two output streams of the process.
#[derive(Clone, Copy, Debug, PartialEq, Eq)]
pub enum Stream {
    Output,
    Error,
}

/// The level at which a line of the process is logged.
#[derive(Clone, Copy, Debug, PartialEq, Eq)]
pub enum LogLevel {
    Debug,
    Warn,
}

/// What happened to the process.
#[derive(Clone, Copy, Debug, PartialEq, Eq)]
pub enum HelperEvent {
    /// Reading began, on the streams that the process has.
    Attached { output: bool, error: bool },
    /// A line arrived on a stream.
    Line { stream: Stream },
    /// A stream has ended.
    Closed { stream: Stream },
    /// The process has exited.
    Exit { code: Option<i32> },
}

/// Why an invocation failed.
#[derive(Clone, Copy, Debug, PartialEq, Eq)]
pub enum HelperError {
    /// The process could not be started.
    SpawnFailed,
    /// The process did not exit with code zero.
    ExitCode { code: Option<i32> },
}

/// The state of one invocation.
#[derive(Clone, Copy, Debug, PartialEq, Eq)]
pub struct Supervisor {
    pub phase: Phase,
    /// Whether the output stream is still to be read to its end.
    pub output_open: bool,
    /// Whether the error stream is still to be read to its end.
    pub error_open: bool,
}

/// The level for a line of a stream: debug for the output, warn for errors.
pub open spec fn level_of(stream: Stream) -> LogLevel {
    match stream {
        Stream::Output => LogLevel::Debug,
        Stream::Error => LogLevel::Warn,
    }
}

/// How an invocation that could not even be started ends.
pub fn spawn_failed() -> (r: Result<(), HelperError>)
    ensures
        r == Err::<(), HelperError>(HelperError::SpawnFailed),
{
    Err(HelperError::SpawnFailed)
}

impl Supervisor {
    /// The state after an event. Reading begins once, after the start; a
    /// stream ends when it is reported closed; the exit is taken once, after
    /// reading began. Anything else changes nothing.
    pub open spec fn after(self, event: HelperEvent) -> Supervisor {
        match event {
            HelperEvent::Attached { output, error } => if self.phase is Spawned {
                Supervisor { phase: Phase::StreamsAttached, output_open: output, error_open: error }
            } else {
                self
            },
            HelperEvent::Line { stream } => self,
            HelperEvent::Closed { stream } => match stream {
                Stream::Output => Supervisor { output_open: false, ..self },
                Stream::Error => Supervisor { error_open: false, ..self },
            },
            HelperEvent::Exit { code } => if self.phase is StreamsAttached {
                Supervisor { phase: Phase::Exited { code }, ..self }
            } else {
                self
            },
        }
    }

    /// The level at which an event is logged: that of the stream for a line,
    /// nothing for any other event.
    pub open spec fn logged(event: HelperEvent) -> Option<LogLevel> {
        match event {
            HelperEvent::Line { stream } => Some(level_of(stream)),
            _ => None,
        }
    }

    /// How the invocation ended: nothing until the process has exited and
    /// both streams were read to their end; then success for exit code zero,
    /// and the error with the code for any other exit.
    pub open spec fn verdict(self) -> Option<Result<(), HelperError>> {
        match self.phase {
            Phase::Exited { code } => if self.output_open || self.error_open {
                None
            } else if code == Some(0i32) {
                Some(Ok(()))
            } else {
                Some(Err(HelperError::ExitCode { code }))
            },
            _ => None,
        }
    }

    /// The state of a process that was just started.
    pub fn spawned() -> (r: Supervisor)
        ensures
            r == (Supervisor { phase: Phase::Spawned, output_open: false, error_open: false }),
            r.verdict() is None,
    {
        Supervisor { phase: Phase::Spawned, output_open: false, error_open: false }
    }

    /// Takes an event, and returns the level at which its line is to be
    /// logged, if it is a line.
    pub fn on_event(&mut self, event: HelperEvent) -> (r: Option<LogLevel>)
        ensures
            *final(self) == old(self).after(event),
            r == Supervisor::logged(event),
    {
        match event {
            HelperEvent::Attached { output, error } => {
                match self.phase {
                    Phase::Spawned => {
                        self.phase = Phase::StreamsAttached;
                        self.output_open = output;
                        self.error_open = error;
                    },
                    _ => {},
                }
                None
            },
            HelperEvent::Line { stream } => match stream {
                Stream::Output => Some(LogLevel::Debug),
                Stream::Error => Some(LogLevel::Warn),
            },
            HelperEvent::Closed { stream } => {
                match stream {
                    Stream::Output => {
                        self.output_open = false;
                    },
                    Stream::Error => {
                        self.error_open = false;
                    },
                }
                None
            },
            HelperEvent::Exit { code } => {
                match self.phase {
                    Phase::StreamsAttached => {
                        self.phase = Phase::Exited { code };
                    },
                    _ => {},
                }
                None
            },
        }
    }

    /// How the invocation ended, once it has.
    pub fn result(&self) -> (r: Option<Result<(), HelperError>>)
        ensures
            r == self.verdict(),
    {
        match self.phase {
            Phase::Exited { code } => {
                if self.output_open || self.error_open {
                    None
                } else {
                    match code {
                        Some(c) => if c == 0 {
                            Some(Ok(()))
                        } else {
                            Some(Err(HelperError::ExitCode { code }))
                        },
                        None => Some(Err(HelperError::ExitCode { code })),
                    }
                }
            },
            _ => None,
        }
    }
}

/// An invocation is never over while a stream is still to be read: the
/// process is not waited for alone.
pub proof fn lemma_streams_are_drained(state: Supervisor)
    requires
        state.verdict() is Some,
    ensures
        !state.output_open,
        !state.error_open,
        state.phase is Exited,
{
}

} // verus!
