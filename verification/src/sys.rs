//! What calls to the operating system come back with, and what follows from it.

use vstd::prelude::*;
use vstd::slice::slice_subrange;

verus! {

/// The kinds of failure that are told apart.
#[derive(Clone, Copy, PartialEq, Eq, Debug, Structural)]
pub enum Failure {
    NotFound,
    ConnectionRefused,
    AlreadyExists,
    Other,
}

/// What a read comes back with.
#[derive(Debug, PartialEq, Eq)]
pub enum Reading {
    /// Bytes, at least one.
    Data(Vec<u8>),
    /// The other side is closed.
    End,
    /// Nothing is there yet.
    Blocked,
    /// The read failed, for the reason given.
    Failed(String),
}

/// What [`Reading`] says.
#[verifier::ext_equal]
pub enum Arrival {
    Data(Seq<u8>),
    End,
    Blocked,
    Failed(Seq<char>),
}

impl View for Reading {
    type V = Arrival;

    open spec fn view(&self) -> Arrival {
        match *self {
            Reading::Data(data) => Arrival::Data(data@),
            Reading::End => Arrival::End,
            Reading::Blocked => Arrival::Blocked,
            Reading::Failed(reason) => Arrival::Failed(reason@),
        }
    }
}

/// What a write comes back with.
#[derive(Clone, Copy, PartialEq, Eq, Debug, Structural)]
pub enum Writing {
    /// So many bytes were taken.
    Written(usize),
    /// No byte can be taken yet.
    Blocked,
    Failed,
}

/// The signals that are told apart.
#[derive(Clone, Copy, PartialEq, Eq, Debug, Structural)]
pub enum Signal {
    WindowChange,
    Terminate,
    Other,
}

/// What a descriptor is watched for.
#[derive(Clone, Copy, PartialEq, Eq, Debug, Structural)]
pub struct Interest {
    pub read: bool,
    pub write: bool,
}

/// What has come about on a descriptor.
#[derive(Clone, Copy, PartialEq, Eq, Debug, Structural)]
pub struct Events {
    pub readable: bool,
    pub writable: bool,
    pub hung_up: bool,
    pub failed: bool,
    pub invalid: bool,
}

impl Events {
    pub open spec fn spec_any(self) -> bool {
        self.readable || self.writable || self.hung_up || self.failed || self.invalid
    }

    /// Whether anything has come about.
    pub fn any(&self) -> (any: bool)
        ensures
            any == self.spec_any(),
    {
        self.readable || self.writable || self.hung_up || self.failed || self.invalid
    }

    pub open spec fn spec_wants_read(self) -> bool {
        self.readable || self.hung_up || self.failed
    }

    /// Whether a read would come back with something, be it the end or a failure.
    pub fn wants_read(&self) -> (wants: bool)
        ensures
            wants == self.spec_wants_read(),
    {
        self.readable || self.hung_up || self.failed
    }
}

/// Which side of a fork this is.
#[derive(Clone, Copy, PartialEq, Eq, Debug, Structural)]
pub enum Fork {
    Parent(i32),
    Child,
}

/// The side of a fork that is handed `pid`.
pub fn fork(pid: i32) -> (side: Fork)
    ensures
        side == if pid == 0 { Fork::Child } else { Fork::Parent(pid) },
{
    if pid == 0 {
        Fork::Child
    } else {
        Fork::Parent(pid)
    }
}

/// Whether a child process runs, or the status that it ended with.
#[derive(Clone, Copy, PartialEq, Eq, Debug, Structural)]
pub enum Status {
    Running,
    Exited(i32),
}

/// The number of the signal in a wait status, 0 where the process ended by itself.
pub open spec fn signal_of(status: i32) -> int {
    status as int % 128
}

/// The exit code in a wait status.
pub open spec fn exit_code_of(status: i32) -> int {
    (status as int / 256) % 256
}

/// What a wait that came back with `waited`, 0 while nothing has happened, and with a wait
/// status says of the process.
pub open spec fn status_of(waited: i32, status: i32) -> Status {
    if waited != 0 && signal_of(status) == 0 {
        Status::Exited(exit_code_of(status) as i32)
    } else if waited != 0 && 1 <= signal_of(status) <= 126 {
        Status::Exited((128 + signal_of(status)) as i32)
    } else {
        Status::Running
    }
}

/// `libc::WIFEXITED` holds of a wait status without a signal number.
#[verifier::external_body]
fn wifexited(status: i32) -> (exited: bool)
    ensures
        exited == (signal_of(status) == 0),
{
    libc::WIFEXITED(status)
}

/// `libc::WEXITSTATUS` is the second lowest byte of a wait status.
#[verifier::external_body]
fn wexitstatus(status: i32) -> (code: i32)
    ensures
        code == exit_code_of(status),
{
    libc::WEXITSTATUS(status)
}

/// `libc::WIFSIGNALED` holds of a wait status with a signal number, but not of the
/// number 127, which marks a stopped or continued process.
#[verifier::external_body]
fn wifsignaled(status: i32) -> (signaled: bool)
    ensures
        signaled == (1 <= signal_of(status) <= 126),
{
    libc::WIFSIGNALED(status)
}

/// `libc::WTERMSIG` is the lowest seven bits of a wait status.
#[verifier::external_body]
fn wtermsig(status: i32) -> (signal: i32)
    ensures
        signal == signal_of(status),
{
    libc::WTERMSIG(status)
}

/// What a wait without blocking says of the process. One that a signal ended has the
/// signal's number above 128 for its status.
pub fn try_wait(waited: i32, status: i32) -> (result: Status)
    ensures
        result == status_of(waited, status),
{
    if waited == 0 {
        Status::Running
    } else if wifexited(status) {
        Status::Exited(wexitstatus(status))
    } else if wifsignaled(status) {
        Status::Exited(128 + wtermsig(status))
    } else {
        Status::Running
    }
}

/// The window size that a terminal answers with: none where it gives no answer or has
/// no rows or no columns.
pub fn window_size(answered: bool, rows: u16, cols: u16) -> (size: Option<(u16, u16)>)
    ensures
        size == if answered && rows > 0 && cols > 0 { Some((rows, cols)) } else { None },
{
    if answered && rows > 0 && cols > 0 {
        Some((rows, cols))
    } else {
        None
    }
}

/// What to do next to get data written.
#[derive(Clone, Copy, PartialEq, Eq, Debug, Structural)]
pub enum Delivery {
    /// Write what is left.
    Write,
    /// Wait until a byte can be taken, then write what is left.
    Wait,
    Done,
    Fail,
}

/// Data on its way out, all of which is to be written.
pub struct WriteAll {
    data: Vec<u8>,
    written: usize,
}

impl View for WriteAll {
    type V = Seq<u8>;

    /// What is left to write.
    closed spec fn view(&self) -> Seq<u8> {
        self.data@.skip(self.written as int)
    }
}

impl WriteAll {
    #[verifier::type_invariant]
    spec fn inv(self) -> bool {
        self.written <= self.data@.len()
    }

    pub fn new(data: Vec<u8>) -> (all: Self)
        ensures
            all@ == data@,
    {
        assert(data@.skip(0) == data@);
        WriteAll { data, written: 0 }
    }

    /// What is left to write.
    pub fn left(&self) -> (left: &[u8])
        ensures
            left@ == self@,
    {
        proof {
            use_type_invariant(self);
        }
        let left = slice_subrange(self.data.as_slice(), self.written, self.data.len());
        assert(left@ == self@);
        left
    }

    /// What to do, before anything else and after each wait.
    pub fn begin(&self) -> (next: Delivery)
        ensures
            next == if self@.len() == 0 { Delivery::Done } else { Delivery::Write },
    {
        if self.left().len() == 0 {
            Delivery::Done
        } else {
            Delivery::Write
        }
    }

    /// What to do after a write of what is left.
    pub fn wrote(&mut self, outcome: Writing) -> (next: Delivery)
        requires
            outcome matches Writing::Written(count) ==> count <= old(self)@.len(),
        ensures
            match outcome {
                Writing::Written(count) => {
                    &&& final(self)@ == old(self)@.skip(count as int)
                    &&& next == if final(self)@.len() == 0 {
                        Delivery::Done
                    } else {
                        Delivery::Write
                    }
                },
                Writing::Blocked => final(self)@ == old(self)@ && next is Wait,
                Writing::Failed => final(self)@ == old(self)@ && next is Fail,
            },
    {
        proof {
            use_type_invariant(&*self);
        }
        match outcome {
            Writing::Written(count) => {
                assert(self.data.len() == self.data@.len());
                self.written = self.written + count;
                assert(self@ == old(self)@.skip(count as int));
                self.begin()
            },
            Writing::Blocked => Delivery::Wait,
            Writing::Failed => Delivery::Fail,
        }
    }
}

} // verus!
