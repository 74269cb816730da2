use vstd::prelude::*;

use crate::grant::{
    app_of, entered, has_app, with_app, AesOperation, AppView, EntryView, Grants, ProcessId, Upcall,
};
use crate::hil::{AesEngine, Engine, HwCall, CCM_NONCE_LENGTH};

verus! {

/// The number under which processes reach this driver.
pub const DRIVER_NUM: usize = 0x40006;

/// The AES driver: owns the hardware, two static buffers through which all
/// data passes, and the per-process state. At most one process (`appid`)
/// uses the hardware at a time; others queue a request in their own state.
pub struct AesDriver<H: AesEngine> {
    pub aes: Engine<H>,
    pub active: bool,
    pub apps: Grants,
    pub appid: Option<ProcessId>,
    pub source_buffer: Option<Vec<u8>>,
    pub data_copied: usize,
    pub dest_buffer: Option<Vec<u8>>,
    /// Upcalls scheduled to processes, oldest first.
    pub upcalls: Vec<Upcall>,
}

/// The driver's state: the process table, the owner, the static buffers
/// it holds, how much data of the current operation has been copied, the
/// record of hardware calls and the upcalls scheduled so far.
pub struct DriverView {
    pub procs: Seq<EntryView>,
    pub appid: Option<ProcessId>,
    pub source_buffer: Option<Seq<u8>>,
    pub dest_buffer: Option<Seq<u8>>,
    pub data_copied: usize,
    pub log: Seq<HwCall>,
    pub upcalls: Seq<Upcall>,
    pub active: bool,
}

/// The contents of a static buffer, if the driver holds it.
pub open spec fn held(b: Option<Vec<u8>>) -> Option<Seq<u8>> {
    match b {
        Some(v) => Some(v@),
        None => None,
    }
}

impl<H: AesEngine> View for AesDriver<H> {
    type V = DriverView;

    open spec fn view(&self) -> DriverView {
        DriverView {
            procs: self.apps@,
            appid: self.appid,
            source_buffer: held(self.source_buffer),
            dest_buffer: held(self.dest_buffer),
            data_copied: self.data_copied,
            log: self.aes.log(),
            upcalls: self.upcalls@,
            active: self.active,
        }
    }
}

/// The slot holds a running process with a queued request.
pub open spec fn queued(e: EntryView) -> bool {
    &&& e.alive
    &&& e.grant matches Some(a) && a.pending_run_app is Some
}

/// Every queued request names the process that queued it.
pub open spec fn requests_own(procs: Seq<EntryView>) -> bool {
    forall|i: int|
        #![trigger procs[i]]
        0 <= i < procs.len() && procs[i].grant is Some && procs[i].grant->Some_0.pending_run_app
            is Some ==> procs[i].grant->Some_0.pending_run_app->Some_0.id == i
}

/// The driver is well formed: every queued request names its own process.
pub open spec fn wf(d: DriverView) -> bool {
    requests_own(d.procs)
}

/// When starting the operation of a process with state `a` cannot fail on
/// a buffer too short or missing: with a key and an IV shared, a CCM nonce
/// needs `CCM_NONCE_LENGTH` bytes of the source buffer; with all three
/// process buffers shared, the other modes need the destination buffer.
pub open spec fn op_safe(a: AppView, sb: Option<Seq<u8>>, db: Option<Seq<u8>>) -> bool {
    match a.aes_operation {
        Some(AesOperation::AES128CCM(_)) => a.key is Some && a.iv is Some && sb is Some
            ==> sb->Some_0.len() >= CCM_NONCE_LENGTH,
        Some(_) => a.key is Some && a.iv is Some && a.source is Some && sb is Some ==> db is Some,
        None => true,
    }
}

/// Starting the operation of process `p` cannot panic.
pub open spec fn run_safe(s: DriverView, p: ProcessId) -> bool {
    has_app(s.procs, p) ==> op_safe(
        s.procs[p.id as int].grant->Some_0,
        s.source_buffer,
        s.dest_buffer,
    )
}

/// Starting any queued request cannot panic with static buffers `sb`, `db`.
pub open spec fn queue_safe(procs: Seq<EntryView>, sb: Option<Seq<u8>>, db: Option<Seq<u8>>) -> bool {
    forall|i: int|
        #![trigger procs[i]]
        0 <= i < procs.len() && queued(procs[i]) ==> op_safe(procs[i].grant->Some_0, sb, db)
}

/// Both hold a buffer or neither does, and held buffers have one length.
pub open spec fn same_shape(x: Option<Seq<u8>>, y: Option<Seq<u8>>) -> bool {
    &&& (x is Some <==> y is Some)
    &&& x is Some ==> x->Some_0.len() == y->Some_0.len()
}

/// `new` continues the record `old`.
pub open spec fn extends(old: Seq<HwCall>, new: Seq<HwCall>) -> bool {
    &&& old.len() <= new.len()
    &&& forall|j: int| 0 <= j < old.len() ==> new[j] == old[j]
}

/// Every request queued in `q` was queued in `p` by the same running
/// process, whose operation, key, IV and data are unchanged.
pub open spec fn requests_kept(p: Seq<EntryView>, q: Seq<EntryView>) -> bool {
    &&& q.len() == p.len()
    &&& forall|i: int|
        #![trigger q[i]]
        0 <= i < q.len() && q[i].grant is Some && q[i].grant->Some_0.pending_run_app is Some ==> {
            let b = q[i].grant->Some_0;
            &&& p[i].grant is Some
            &&& p[i].alive == q[i].alive
            &&& p[i].grant->Some_0.pending_run_app == b.pending_run_app
            &&& p[i].grant->Some_0.aes_operation == b.aes_operation
            &&& p[i].grant->Some_0.key == b.key
            &&& p[i].grant->Some_0.iv == b.iv
            &&& p[i].grant->Some_0.source == b.source
        }
}

/// What well-formedness and safe starts need carries over to a table that
/// keeps the requests, and to static buffers of the same shape.
pub proof fn lemma_requests_kept(
    p: Seq<EntryView>,
    q: Seq<EntryView>,
    sb: Option<Seq<u8>>,
    db: Option<Seq<u8>>,
    sb2: Option<Seq<u8>>,
    db2: Option<Seq<u8>>,
)
    requires
        requests_kept(p, q),
    ensures
        requests_own(p) ==> requests_own(q),
        queue_safe(p, sb, db) && same_shape(sb, sb2) && same_shape(db, db2) ==> queue_safe(
            q,
            sb2,
            db2,
        ),
{
    if requests_own(p) {
        assert forall|i: int|
            #![trigger q[i]]
            0 <= i < q.len() && q[i].grant is Some && q[i].grant->Some_0.pending_run_app
                is Some implies q[i].grant->Some_0.pending_run_app->Some_0.id == i by {
            assert(p[i].grant is Some);
        }
    }
    if queue_safe(p, sb, db) && same_shape(sb, sb2) && same_shape(db, db2) {
        assert forall|i: int| 0 <= i < q.len() && queued(#[trigger] q[i]) implies op_safe(
            q[i].grant->Some_0,
            sb2,
            db2,
        ) by {
            assert(queued(p[i]));
        }
    }
}

/// Entering a grant, or replacing the state of a process by one with the
/// same request, operation and buffers, keeps the requests.
pub proof fn lemma_kept_by_update(procs: Seq<EntryView>, pid: ProcessId, b: AppView)
    requires
        has_app(procs, pid),
        b.pending_run_app == app_of(procs, pid).pending_run_app,
        b.aes_operation == app_of(procs, pid).aes_operation,
        b.key == app_of(procs, pid).key,
        b.iv == app_of(procs, pid).iv,
        b.source == app_of(procs, pid).source,
    ensures
        requests_kept(procs, with_app(procs, pid, b)),
{
}

/// Entering a grant keeps the requests.
pub proof fn lemma_kept_by_enter(procs: Seq<EntryView>, pid: ProcessId)
    ensures
        requests_kept(procs, entered(procs, pid)),
{
}

impl<H: AesEngine> AesDriver<H> {
    /// A driver with no owner, holding both static buffers.
    pub fn new(aes: H, source_buffer: Vec<u8>, dest_buffer: Vec<u8>, grant: Grants) -> (d: AesDriver<H>)
        requires
            requests_own(grant@),
        ensures
            wf(d@),
            d.aes.hw == aes,
            d@ == (DriverView {
                procs: grant@,
                appid: None,
                source_buffer: Some(source_buffer@),
                dest_buffer: Some(dest_buffer@),
                data_copied: 0,
                log: aes.trace(),
                upcalls: Seq::empty(),
                active: false,
            }),
    {
        AesDriver {
            aes: Engine::new(aes),
            active: false,
            apps: grant,
            appid: None,
            source_buffer: Some(source_buffer),
            data_copied: 0,
            dest_buffer: Some(dest_buffer),
            upcalls: Vec::new(),
        }
    }

    /// Schedules upcall `num` with three arguments to `pid`.
    pub(crate) fn schedule_upcall(&mut self, pid: ProcessId, num: usize, arg0: usize, arg1: usize, arg2: usize)
        ensures
            final(self)@ == (DriverView {
                upcalls: old(self)@.upcalls.push(Upcall { pid, num, arg0, arg1, arg2 }),
                ..old(self)@
            }),
    {
        self.upcalls.push(Upcall { pid, num, arg0, arg1, arg2 });
    }
}

} // verus!
