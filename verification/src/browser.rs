//! A launched browser: its process and the connection to it.

use crate::connection::{Connection, ConnectionView};
use vstd::prelude::*;

verus! {

/// Where a browser process is in its life.
#[derive(Debug, Clone, Copy, PartialEq, Eq, Structural)]
pub enum ProcessState {
    /// Started; its endpoint is not known yet.
    Starting,
    /// Its endpoint is known.
    Running,
    /// Killed, or seen to have exited.
    Terminated,
}

/// The browser's process as the operating system knows it.
#[derive(Debug, Clone, Copy, PartialEq, Eq, Structural)]
pub struct ChildProcess {
    pub id: u32,
    pub state: ProcessState,
}

impl ChildProcess {
    /// A process that was just started.
    pub fn new(id: u32) -> (r: ChildProcess)
        ensures
            r == (ChildProcess { id: id, state: ProcessState::Starting }),
    {
        ChildProcess { id: id, state: ProcessState::Starting }
    }

    /// The process announced its endpoint: a starting process is running
    /// from now on; any other stays as it is.
    pub fn endpoint_discovered(&mut self)
        ensures
            final(self).id == old(self).id,
            final(self).state == if old(self).state == ProcessState::Starting {
                ProcessState::Running
            } else {
                old(self).state
            },
    {
        match self.state {
            ProcessState::Starting => {
                self.state = ProcessState::Running;
            },
            _ => {},
        }
    }

    /// The process was seen to have exited.
    pub fn exited(&mut self)
        ensures
            *final(self) == (ChildProcess { id: old(self).id, state: ProcessState::Terminated }),
    {
        self.state = ProcessState::Terminated;
    }

    /// Ends the process: says whether it is to be killed, which it is unless
    /// it has terminated before. A second call asks for nothing.
    pub fn close(&mut self) -> (kill: bool)
        ensures
            *final(self) == (ChildProcess { id: old(self).id, state: ProcessState::Terminated }),
            kill == (old(self).state != ProcessState::Terminated),
    {
        let kill = match self.state {
            ProcessState::Terminated => false,
            _ => true,
        };
        self.state = ProcessState::Terminated;
        kill
    }
}

/// What is left to do when a browser is closed.
#[derive(Debug)]
pub struct Teardown {
    /// The requests to fail with `ConnectionClosed`.
    pub failed: Vec<u64>,
    /// Whether the process is to be killed.
    pub kill: bool,
}

/// A browser process together with the connection to it.
#[derive(Debug)]
pub struct Browser {
    pub connection: Connection,
    pub child_process: ChildProcess,
}

impl Browser {
    /// The connection is well formed.
    pub open spec fn well_formed(self) -> bool {
        self.connection@.well_formed()
    }

    /// A browser from its connection and its process.
    pub fn new(connection: Connection, child_process: ChildProcess) -> (r: Browser)
        ensures
            r.connection == connection,
            r.child_process == child_process,
    {
        Browser { connection: connection, child_process: child_process }
    }

    /// Closes the browser: first the connection, which fails every
    /// outstanding request, then the process. It always completes, and a
    /// second call finds nothing left to do.
    pub fn close(&mut self) -> (r: Teardown)
        requires
            old(self).well_formed(),
        ensures
            final(self).well_formed(),
            final(self).connection@ == (ConnectionView {
                transport: old(self).connection@.transport.close(),
                ..old(self).connection@
            }),
            final(self).child_process == (ChildProcess {
                id: old(self).child_process.id,
                state: ProcessState::Terminated,
            }),
            r.failed@ == old(self).connection@.transport.pending,
            r.kill == (old(self).child_process.state != ProcessState::Terminated),
    {
        let failed = self.connection.close();
        let kill = self.child_process.close();
        Teardown { failed: failed, kill: kill }
    }
}

} // verus!
