use vstd::prelude::*;

use crate::error::ProcessError;

verus! {

/// Identifies a process by its slot in the kernel's process table.
#[derive(Clone, Copy, Debug, PartialEq, Eq, Structural)]
pub struct ProcessId {
    pub id: usize,
}

/// A region of process memory shared with the driver through `allow`.
/// An unshared buffer has no process behind it and cannot be entered.
pub struct ProcessBuffer {
    pub data: Option<Vec<u8>>,
}

impl View for ProcessBuffer {
    type V = Option<Seq<u8>>;

    open spec fn view(&self) -> Option<Seq<u8>> {
        match self.data {
            Some(v) => Some(v@),
            None => None,
        }
    }
}

impl ProcessBuffer {
    pub fn unshared() -> (b: ProcessBuffer)
        ensures
            b@ is None,
    {
        ProcessBuffer { data: None }
    }

    pub fn shared(bytes: Vec<u8>) -> (b: ProcessBuffer)
        ensures
            b@ == Some(bytes@),
    {
        ProcessBuffer { data: Some(bytes) }
    }

    /// The length a process sees: zero for an unshared buffer.
    pub fn len(&self) -> (n: usize)
        ensures
            n == shared_len(self@),
    {
        match &self.data {
            Some(v) => v.len(),
            None => 0,
        }
    }
}

/// An upcall scheduled to a process: its number and three arguments.
#[derive(Clone, Copy, Debug, PartialEq, Eq, Structural)]
pub struct Upcall {
    pub pid: ProcessId,
    pub num: usize,
    pub arg0: usize,
    pub arg1: usize,
    pub arg2: usize,
}

/// The cipher a process has chosen, with whether it encrypts.
#[allow(non_camel_case_types)]
#[derive(Clone, Copy, Debug, PartialEq, Eq, Structural)]
pub enum AesOperation {
    AES128Ctr(bool),
    AES128CBC(bool),
    AES128ECB(bool),
    AES128CCM(bool),
}

/// The driver's per-process state.
pub struct App {
    pub pending_run_app: Option<ProcessId>,
    pub aes_operation: Option<AesOperation>,
    pub key: ProcessBuffer,
    pub iv: ProcessBuffer,
    pub source: ProcessBuffer,
    pub dest: ProcessBuffer,
    pub aoff: usize,
    pub moff: usize,
    pub mlen: usize,
    pub mic_len: usize,
    pub confidential: bool,
}

/// The per-process state, with each process buffer seen by its contents.
pub struct AppView {
    pub pending_run_app: Option<ProcessId>,
    pub aes_operation: Option<AesOperation>,
    pub key: Option<Seq<u8>>,
    pub iv: Option<Seq<u8>>,
    pub source: Option<Seq<u8>>,
    pub dest: Option<Seq<u8>>,
    pub aoff: usize,
    pub moff: usize,
    pub mlen: usize,
    pub mic_len: usize,
    pub confidential: bool,
}

impl View for App {
    type V = AppView;

    open spec fn view(&self) -> AppView {
        AppView {
            pending_run_app: self.pending_run_app,
            aes_operation: self.aes_operation,
            key: self.key@,
            iv: self.iv@,
            source: self.source@,
            dest: self.dest@,
            aoff: self.aoff,
            moff: self.moff,
            mlen: self.mlen,
            mic_len: self.mic_len,
            confidential: self.confidential,
        }
    }
}

/// The length a process sees of a buffer it shared: zero when unshared.
pub open spec fn shared_len(b: Option<Seq<u8>>) -> nat {
    match b {
        Some(s) => s.len(),
        None => 0,
    }
}

/// The state of a freshly allocated grant.
pub open spec fn default_app() -> AppView {
    AppView {
        pending_run_app: None,
        aes_operation: None,
        key: None,
        iv: None,
        source: None,
        dest: None,
        aoff: 0,
        moff: 0,
        mlen: 0,
        mic_len: 0,
        confidential: false,
    }
}

impl App {
    pub fn new() -> (a: App)
        ensures
            a@ == default_app(),
    {
        App {
            pending_run_app: None,
            aes_operation: None,
            key: ProcessBuffer::unshared(),
            iv: ProcessBuffer::unshared(),
            source: ProcessBuffer::unshared(),
            dest: ProcessBuffer::unshared(),
            aoff: 0,
            moff: 0,
            mlen: 0,
            mic_len: 0,
            confidential: false,
        }
    }
}

impl Default for App {
    fn default() -> (a: App)
        ensures
            a@ == default_app(),
    {
        App::new()
    }
}

/// A slot of the process table: whether the process runs, whether its
/// grant region could still be allocated, and the driver state it holds.
pub struct ProcessEntry {
    pub alive: bool,
    pub grant_room: bool,
    pub grant: Option<App>,
}

pub struct EntryView {
    pub alive: bool,
    pub grant_room: bool,
    pub grant: Option<AppView>,
}

impl View for ProcessEntry {
    type V = EntryView;

    open spec fn view(&self) -> EntryView {
        EntryView {
            alive: self.alive,
            grant_room: self.grant_room,
            grant: match self.grant {
                Some(a) => Some(a@),
                None => None,
            },
        }
    }
}

/// The driver's grant: one `App` per process that has entered it.
pub struct Grants {
    pub procs: Vec<ProcessEntry>,
}

impl View for Grants {
    type V = Seq<EntryView>;

    open spec fn view(&self) -> Seq<EntryView> {
        self.procs@.map_values(|e: ProcessEntry| e@)
    }
}

/// Why entering the grant of `pid` fails, if it does.
pub open spec fn enter_error(procs: Seq<EntryView>, pid: ProcessId) -> Option<ProcessError> {
    if pid.id >= procs.len() {
        Some(ProcessError::NoSuchApp)
    } else if !procs[pid.id as int].alive {
        Some(ProcessError::InactiveApp)
    } else if procs[pid.id as int].grant is None && !procs[pid.id as int].grant_room {
        Some(ProcessError::OutOfMemory)
    } else {
        None
    }
}

/// Whether `pid` holds an allocated grant that can be entered.
pub open spec fn has_app(procs: Seq<EntryView>, pid: ProcessId) -> bool {
    &&& pid.id < procs.len()
    &&& procs[pid.id as int].alive
    &&& procs[pid.id as int].grant is Some
}

/// The state of `pid` in the table.
pub open spec fn app_of(procs: Seq<EntryView>, pid: ProcessId) -> AppView {
    procs[pid.id as int].grant->Some_0
}

/// The process table with the state of `pid` replaced by `a`.
pub open spec fn with_app(procs: Seq<EntryView>, pid: ProcessId, a: AppView) -> Seq<EntryView> {
    procs.update(pid.id as int, EntryView { grant: Some(a), ..procs[pid.id as int] })
}

/// The process table after `pid` has entered the grant: a running process
/// without one gets a fresh state, nothing else changes.
pub open spec fn entered(procs: Seq<EntryView>, pid: ProcessId) -> Seq<EntryView> {
    if enter_error(procs, pid) is Some || procs[pid.id as int].grant is Some {
        procs
    } else {
        with_app(procs, pid, default_app())
    }
}

/// The state of `pid` once it has entered the grant.
pub open spec fn entered_app(procs: Seq<EntryView>, pid: ProcessId) -> AppView {
    app_of(entered(procs, pid), pid)
}

/// Entering a second time changes nothing and fails as the first did.
pub proof fn lemma_enter_twice(procs: Seq<EntryView>, pid: ProcessId)
    ensures
        enter_error(entered(procs, pid), pid) == enter_error(procs, pid),
        entered(entered(procs, pid), pid) == entered(procs, pid),
{
}

impl Grants {
    /// Gives `pid` access to its grant, allocating it on first use.
    pub fn enter(&mut self, pid: ProcessId) -> (r: Result<(), ProcessError>)
        ensures
            r == match enter_error(old(self)@, pid) {
                Some(e) => Err::<(), ProcessError>(e),
                None => Ok(()),
            },
            r is Ok ==> has_app(final(self)@, pid),
            final(self)@ == entered(old(self)@, pid),
    {
        if pid.id >= self.procs.len() {
            return Err(ProcessError::NoSuchApp);
        }
        if !self.procs[pid.id].alive {
            return Err(ProcessError::InactiveApp);
        }
        if self.procs[pid.id].grant.is_none() {
            if !self.procs[pid.id].grant_room {
                return Err(ProcessError::OutOfMemory);
            }
            self.procs[pid.id].grant = Some(App::new());
            assert(self@ =~= with_app(old(self)@, pid, default_app()));
        }
        Ok(())
    }

    pub fn app_ref(&self, pid: ProcessId) -> (a: &App)
        requires
            has_app(self@, pid),
        ensures
            a@ == app_of(self@, pid),
    {
        self.procs[pid.id].grant.as_ref().unwrap()
    }

    /// Moves the state of `pid` out of the table, leaving the slot empty.
    pub fn take_app(&mut self, pid: ProcessId) -> (a: App)
        requires
            has_app(old(self)@, pid),
        ensures
            a@ == app_of(old(self)@, pid),
            final(self)@ == old(self)@.update(
                pid.id as int,
                EntryView { grant: None, ..old(self)@[pid.id as int] },
            ),
    {
        let a = self.procs[pid.id].grant.take().unwrap();
        assert(self@ =~= old(self)@.update(
            pid.id as int,
            EntryView { grant: None, ..old(self)@[pid.id as int] },
        ));
        a
    }

    /// Puts the state of `pid` back into its slot.
    pub fn put_app(&mut self, pid: ProcessId, a: App)
        requires
            pid.id < old(self)@.len(),
        ensures
            final(self)@ == with_app(old(self)@, pid, a@),
    {
        self.procs[pid.id].grant = Some(a);
        assert(self@ =~= with_app(old(self)@, pid, a@));
    }
}

} // verus!
