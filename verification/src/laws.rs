use vstd::prelude::*;

use crate::bytes::{copied_back, min_len, next_chunk, overwrite, stage};
use crate::driver::{queued, DriverView};
use crate::error::{CommandReturn, ErrorCode};
use crate::grant::{
    app_of, entered, entered_app, enter_error, has_app, lemma_enter_twice, shared_len, with_app,
    AesOperation, AppView,
    EntryView, ProcessBuffer, ProcessId, Upcall,
};
use crate::queue::{check_queue_post, slot_kept};
use crate::setup::{answer, load_error, loaded, output_post, run_post};
use crate::client::{ccm_crypt_done_post, continue_post, crypt_done_post, results_back, upcall0, owner_gone, missing_buffer, back_offset};
use crate::hil::{HwCall, AES128_BLOCK_SIZE, CCM_NONCE_LENGTH};
use crate::syscall::{
    allow_post, app_match, checked, command_post, match_or_empty, operation, readonly_buffer,
    with_parameter, setup_now_post, with_readonly, crypt_post, set_algorithm_post, setup_cmd_post,
    finish_post, set_parameter_post, command_safe,
};

verus! {

/// Loading a process buffer into a static buffer puts the longest prefix
/// that fits at its start and keeps the rest of the static buffer.
pub proof fn law_stage_contents(buf: Seq<u8>, src: Seq<u8>)
    ensures
        stage(buf, src).len() == buf.len(),
        forall|i: int|
            0 <= i < min_len(buf.len() as int, src.len() as int) ==> #[trigger] stage(buf, src)[i]
                == src[i],
        forall|i: int|
            min_len(buf.len() as int, src.len() as int) <= i < buf.len() ==> #[trigger] stage(
                buf,
                src,
            )[i] == buf[i],
{
}

/// A read-only buffer that was shared is handed back by the next sharing
/// of the same number by the same process.
pub proof fn law_allow_readonly_gives_back(
    s: Seq<EntryView>,
    t: Seq<EntryView>,
    u: Seq<EntryView>,
    pid: ProcessId,
    n: usize,
    first: Option<Seq<u8>>,
    second: Option<Seq<u8>>,
    r1: Result<ProcessBuffer, (ProcessBuffer, ErrorCode)>,
    r2: Result<ProcessBuffer, (ProcessBuffer, ErrorCode)>,
)
    requires
        n <= 2,
        allow_post(
            s,
            t,
            pid,
            true,
            first,
            readonly_buffer(entered_app(s, pid), n),
            with_readonly(entered_app(s, pid), n, first),
            r1,
        ),
        r1 is Ok,
        allow_post(
            t,
            u,
            pid,
            true,
            second,
            readonly_buffer(entered_app(t, pid), n),
            with_readonly(entered_app(t, pid), n, second),
            r2,
        ),
    ensures
        r2 matches Ok(b) && b@ == first,
{
}

/// The read-write buffer that was shared is handed back by the next
/// sharing by the same process.
pub proof fn law_allow_readwrite_gives_back(
    s: Seq<EntryView>,
    t: Seq<EntryView>,
    u: Seq<EntryView>,
    pid: ProcessId,
    first: Option<Seq<u8>>,
    second: Option<Seq<u8>>,
    r1: Result<ProcessBuffer, (ProcessBuffer, ErrorCode)>,
    r2: Result<ProcessBuffer, (ProcessBuffer, ErrorCode)>,
)
    requires
        allow_post(
            s,
            t,
            pid,
            true,
            first,
            entered_app(s, pid).dest,
            AppView { dest: first, ..entered_app(s, pid) },
            r1,
        ),
        r1 is Ok,
        allow_post(
            t,
            u,
            pid,
            true,
            second,
            entered_app(t, pid).dest,
            AppView { dest: second, ..entered_app(t, pid) },
            r2,
        ),
    ensures
        r2 matches Ok(b) && b@ == first,
{
}

/// Command 0 always succeeds.
pub proof fn law_present(s: DriverView, t: DriverView, d1: usize, d2: usize, appid: ProcessId, r: CommandReturn)
    requires
        command_post(s, t, 0, d1, d2, appid, r),
    ensures
        r == CommandReturn::Success,
{
}

/// A `setup` that may not start now leaves the owner and the hardware
/// alone: the request waits, or is refused.
pub proof fn law_waiting_keeps_owner(
    s: DriverView,
    t: DriverView,
    d1: usize,
    d2: usize,
    appid: ProcessId,
    r: CommandReturn,
)
    requires
        command_post(s, t, 2, d1, d2, appid, r),
        !match_or_empty(s, appid),
    ensures
        t.appid == s.appid,
        t.log == s.log,
        t.source_buffer == s.source_buffer,
        t.dest_buffer == s.dest_buffer,
        t.upcalls == s.upcalls,
{
}

/// Each process can have one request waiting: a second `setup` while one
/// waits is refused with `NOMEM` and changes nothing.
pub proof fn law_one_request_per_process(
    s: DriverView,
    t: DriverView,
    d1: usize,
    d2: usize,
    appid: ProcessId,
    r: CommandReturn,
)
    requires
        command_post(s, t, 2, d1, d2, appid, r),
        !match_or_empty(s, appid),
        has_app(checked(s).procs, appid),
        app_of(checked(s).procs, appid).pending_run_app is Some,
    ensures
        r == CommandReturn::Failure(ErrorCode::NOMEM),
        t == checked(s),
{
}

/// Only the process that owns the driver can go on with (`crypt`) or end
/// (`finish`) an operation; any other gets `OFF` and changes nothing.
pub proof fn law_only_owner_continues(
    s: DriverView,
    t: DriverView,
    command_num: usize,
    d1: usize,
    d2: usize,
    appid: ProcessId,
    r: CommandReturn,
)
    requires
        command_num == 3 || command_num == 4,
        command_post(s, t, command_num, d1, d2, appid, r),
        !app_match(s, appid),
    ensures
        r == CommandReturn::Failure(ErrorCode::OFF),
        t == checked(s),
{
}

/// An owner whose process is gone does not block the driver: while no
/// operation is active, anyone's `setup` starts at once.
pub proof fn law_gone_owner_is_replaced(
    s: DriverView,
    t: DriverView,
    d1: usize,
    d2: usize,
    appid: ProcessId,
    r: CommandReturn,
)
    requires
        s.appid matches Some(owner) && enter_error(s.procs, owner) is Some,
        !s.active,
        command_post(s, t, 2, d1, d2, appid, r),
    ensures
        setup_now_post(checked(s), t, appid, r),
{
}

/// After `finish`, the driver is free or owned by a process whose request
/// was waiting.
pub proof fn law_finish_hands_over(
    s: DriverView,
    t: DriverView,
    d1: usize,
    d2: usize,
    appid: ProcessId,
    r: CommandReturn,
)
    requires
        command_post(s, t, 4, d1, d2, appid, r),
        app_match(s, appid),
    ensures
        r == CommandReturn::Success,
        t.appid is Some ==> exists|j: int|
            0 <= j < s.procs.len() && queued(#[trigger] entered(checked(s).procs, appid)[j])
                && entered(checked(s).procs, appid)[j].grant->Some_0.pending_run_app == t.appid,
{
    reveal(check_queue_post);}

/// While an operation is active, the owner keeps the driver: no other
/// process may start, continue or finish one.
pub proof fn law_active_owner_kept(s: DriverView, owner: ProcessId, appid: ProcessId)
    requires
        s.active,
        s.appid == Some(owner),
        appid != owner,
    ensures
        !match_or_empty(s, appid),
        !app_match(s, appid),
{
}

/// `finish` schedules no upcall.
pub proof fn law_finish_no_upcall(
    s: DriverView,
    t: DriverView,
    d1: usize,
    d2: usize,
    appid: ProcessId,
    r: CommandReturn,
)
    requires
        command_post(s, t, 4, d1, d2, appid, r),
    ensures
        t.upcalls == s.upcalls,
{
    reveal(check_queue_post);}

/// Setting a CCM parameter (commands 5 to 8) schedules no upcall and
/// processes no data of the calling process.
pub proof fn law_parameters_no_upcall(
    s: DriverView,
    t: DriverView,
    command_num: usize,
    d1: usize,
    d2: usize,
    appid: ProcessId,
    r: CommandReturn,
)
    requires
        5 <= command_num <= 8,
        command_post(s, t, command_num, d1, d2, appid, r),
        s.appid is Some,
    ensures
        r == CommandReturn::Success,
        t.upcalls == s.upcalls,
        t.source_buffer == s.source_buffer,
        t.dest_buffer == s.dest_buffer,
        t.data_copied == s.data_copied,
        t.log == s.log,
{
    reveal(check_queue_post);}

/// A completed CCM operation sends no more data to the hardware: the only
/// call it can make is to disable it.
pub proof fn law_ccm_done_no_more_data(
    s: DriverView,
    t: DriverView,
    buf: Seq<u8>,
    res: Result<(), ErrorCode>,
    tag_is_valid: bool,
)
    requires
        ccm_crypt_done_post(s, t, buf, res, tag_is_valid),
    ensures
        t.log == s.log || t.log == s.log.push(HwCall::Disable),
{
}

/// Every process that holds a grant in `p` holds one in `q`, runs as it
/// did, and has the same key, IV and data shared.
pub open spec fn readonly_kept(p: Seq<EntryView>, q: Seq<EntryView>) -> bool {
    &&& q.len() == p.len()
    &&& forall|i: int|
        #![trigger q[i]]
        0 <= i < p.len() && p[i].grant is Some ==> {
            &&& q[i].grant is Some
            &&& q[i].alive == p[i].alive
            &&& q[i].grant->Some_0.key == p[i].grant->Some_0.key
            &&& q[i].grant->Some_0.iv == p[i].grant->Some_0.iv
            &&& q[i].grant->Some_0.source == p[i].grant->Some_0.source
        }
}

proof fn lemma_readonly_kept_trans(p: Seq<EntryView>, q: Seq<EntryView>, r: Seq<EntryView>)
    requires
        readonly_kept(p, q),
        readonly_kept(q, r),
    ensures
        readonly_kept(p, r),
{
    assert forall|i: int| 0 <= i < p.len() && p[i].grant is Some implies {
        &&& (#[trigger] r[i]).grant is Some
        &&& r[i].alive == p[i].alive
        &&& r[i].grant->Some_0.key == p[i].grant->Some_0.key
        &&& r[i].grant->Some_0.iv == p[i].grant->Some_0.iv
        &&& r[i].grant->Some_0.source == p[i].grant->Some_0.source
    } by {
        assert(q[i].grant is Some);
    }
}

proof fn lemma_readonly_kept_enter(p: Seq<EntryView>, pid: ProcessId)
    ensures
        readonly_kept(p, entered(p, pid)),
{
}

proof fn lemma_readonly_kept_update(p: Seq<EntryView>, pid: ProcessId, b: AppView)
    requires
        pid.id < p.len(),
        p[pid.id as int].grant is Some ==> {
            &&& b.key == p[pid.id as int].grant->Some_0.key
            &&& b.iv == p[pid.id as int].grant->Some_0.iv
            &&& b.source == p[pid.id as int].grant->Some_0.source
        },
    ensures
        readonly_kept(p, with_app(p, pid, b)),
{
}

proof fn lemma_readonly_kept_queue(s: DriverView, t: DriverView)
    requires
        check_queue_post(s, t),
    ensures
        readonly_kept(s.procs, t.procs),
{
    reveal(check_queue_post);
    assert forall|i: int| 0 <= i < s.procs.len() && s.procs[i].grant is Some implies {
        &&& (#[trigger] t.procs[i]).grant is Some
        &&& t.procs[i].alive == s.procs[i].alive
        &&& t.procs[i].grant->Some_0.key == s.procs[i].grant->Some_0.key
        &&& t.procs[i].grant->Some_0.iv == s.procs[i].grant->Some_0.iv
        &&& t.procs[i].grant->Some_0.source == s.procs[i].grant->Some_0.source
    } by {
        assert(slot_kept(s.procs[i], t.procs[i]));
    }
}

proof fn lemma_readonly_kept_run(s: DriverView, t: DriverView, r: Result<(), ErrorCode>)
    requires
        run_post(s, t, r),
    ensures
        readonly_kept(s.procs, t.procs),
{
    if s.appid is Some && enter_error(s.procs, s.appid->Some_0) is None {
        lemma_readonly_kept_enter(s.procs, s.appid->Some_0);
        assert(t.procs == entered(s.procs, s.appid->Some_0));
    }
}

proof fn lemma_kept_setup_now(c: DriverView, t: DriverView, appid: ProcessId, r: CommandReturn)
    requires
        setup_now_post(c, t, appid, r),
    ensures
        readonly_kept(c.procs, t.procs),
{
    let (m, r1) = choose|m: DriverView, r1: Result<(), ErrorCode>|
        {
            &&& run_post(DriverView { appid: Some(appid), ..c }, m, r1)
            &&& match r1 {
                Ok(()) => r == CommandReturn::Success && t == m,
                Err(e) => r == CommandReturn::Failure(e) && check_queue_post(
                    DriverView { appid: None, log: m.log.push(HwCall::Disable), ..m },
                    t,
                ),
            }
        };
    lemma_readonly_kept_run(DriverView { appid: Some(appid), ..c }, m, r1);
    if r1 is Err {
        lemma_readonly_kept_queue(DriverView { appid: None, log: m.log.push(HwCall::Disable), ..m }, t);
        lemma_readonly_kept_trans(c.procs, m.procs, t.procs);
    }
}

proof fn lemma_kept_crypt(c: DriverView, t: DriverView, appid: ProcessId)
    requires
        crypt_post(c, t, appid),
    ensures
        readonly_kept(c.procs, t.procs),
{
    let a = app_of(c.procs, appid);
    if load_error(c.source_buffer, a.source) is None {
        let m = DriverView {
            source_buffer: Some(loaded(c.source_buffer, a.source)),
            data_copied: min_len(c.source_buffer->Some_0.len() as int, shared_len(a.source) as int)
                as usize,
            ..c
        };
        let (u, r1) = choose|u: DriverView, r1: Result<(), ErrorCode>|
            {
                &&& output_post(
                    m,
                    u,
                    a.aes_operation->Some_0,
                    a.aoff,
                    a.moff,
                    a.mlen,
                    a.mic_len,
                    a.confidential,
                    r1,
                )
                &&& match r1 {
                    Ok(()) => t == u,
                    Err(e) => t == DriverView {
                        upcalls: u.upcalls.push(
                            Upcall { pid: appid, num: 0, arg0: e.code(), arg1: 0, arg2: 0 },
                        ),
                        ..u
                    },
                }
            };
        assert(t.procs == c.procs);
    }
}

proof fn lemma_kept_setup_cmd(c: DriverView, t: DriverView, may_start: bool, appid: ProcessId, r: CommandReturn)
    requires
        setup_cmd_post(c, t, may_start, appid, r),
    ensures
        readonly_kept(c.procs, t.procs),
{
    let ce = entered(c.procs, appid);
    lemma_readonly_kept_enter(c.procs, appid);
    if may_start {
        lemma_kept_setup_now(c, t, appid, r);
    } else if enter_error(c.procs, appid) is None && entered_app(c.procs, appid).pending_run_app
        is None {
        let b = AppView { pending_run_app: Some(appid), ..entered_app(c.procs, appid) };
        lemma_readonly_kept_update(ce, appid, b);
        lemma_readonly_kept_trans(c.procs, ce, with_app(ce, appid, b));
    }
}

proof fn lemma_kept_set_algorithm(c: DriverView, t: DriverView, d1: usize, d2: usize, appid: ProcessId, r: CommandReturn)
    requires
        set_algorithm_post(c, t, d1, d2, appid, r),
    ensures
        readonly_kept(c.procs, t.procs),
{
    let ce = entered(c.procs, appid);
    lemma_readonly_kept_enter(c.procs, appid);
    if enter_error(c.procs, appid) is None && d1 <= 3 {
        let b = AppView { aes_operation: Some(operation(d1, d2 != 0)), ..entered_app(c.procs, appid) };
        lemma_readonly_kept_update(ce, appid, b);
        lemma_readonly_kept_trans(c.procs, ce, with_app(ce, appid, b));
    }
}

proof fn lemma_kept_finish(c: DriverView, t: DriverView, appid: ProcessId)
    requires
        finish_post(c, t, appid),
    ensures
        readonly_kept(c.procs, t.procs),
{
    let ce = entered(c.procs, appid);
    lemma_readonly_kept_enter(c.procs, appid);
    lemma_readonly_kept_queue(
        DriverView { procs: ce, appid: None, log: c.log.push(HwCall::Disable), ..c },
        t,
    );
    lemma_readonly_kept_trans(c.procs, ce, t.procs);
}

proof fn lemma_kept_set_parameter(c: DriverView, t: DriverView, n: usize, d1: usize, appid: ProcessId)
    requires
        set_parameter_post(c, t, n, d1, appid),
        appid.id < c.procs.len(),
    ensures
        readonly_kept(c.procs, t.procs),
{
    let ce = entered(c.procs, appid);
    lemma_readonly_kept_enter(c.procs, appid);
    let q = with_app(ce, appid, with_parameter(entered_app(c.procs, appid), n, d1));
    if appid.id < ce.len() {
        lemma_readonly_kept_update(ce, appid, with_parameter(entered_app(c.procs, appid), n, d1));
    }
    lemma_readonly_kept_queue(DriverView { procs: q, ..c }, t);
    if appid.id < ce.len() {
        lemma_readonly_kept_trans(c.procs, ce, q);
        lemma_readonly_kept_trans(c.procs, q, t.procs);
    }
}

/// Commands keep the key, IV and data that every process has shared: only
/// `allow` replaces them.
pub proof fn law_command_keeps_readonly(
    s: DriverView,
    t: DriverView,
    command_num: usize,
    d1: usize,
    d2: usize,
    appid: ProcessId,
    r: CommandReturn,
)
    requires
        command_safe(s, command_num, appid),
        command_post(s, t, command_num, d1, d2, appid, r),
    ensures
        readonly_kept(s.procs, t.procs),
{
    let c = checked(s);
    if let Some(o) = s.appid {
        lemma_readonly_kept_enter(s.procs, o);
    }
    assert(readonly_kept(s.procs, c.procs));
    if command_num == 1 {
        lemma_kept_set_algorithm(c, t, d1, d2, appid, r);
    } else if command_num == 2 {
        lemma_kept_setup_cmd(c, t, match_or_empty(s, appid), appid, r);
    } else if command_num == 3 {
        if app_match(s, appid) {
            lemma_readonly_kept_enter(c.procs, appid);
            lemma_kept_crypt(DriverView { procs: entered(c.procs, appid), ..c }, t, appid);
            lemma_readonly_kept_trans(c.procs, entered(c.procs, appid), t.procs);
        }
    } else if command_num == 4 {
        if app_match(s, appid) {
            lemma_kept_finish(c, t, appid);
        }
    } else if 5 <= command_num <= 8 {
        lemma_kept_set_parameter(c, t, command_num, d1, appid);
    }
    lemma_readonly_kept_trans(s.procs, c.procs, t.procs);
}

/// Every process that holds a grant in `p` holds one in `q`, runs as it
/// did, and has the same destination buffer shared.
pub open spec fn dest_kept(p: Seq<EntryView>, q: Seq<EntryView>) -> bool {
    &&& q.len() == p.len()
    &&& forall|i: int|
        #![trigger q[i]]
        0 <= i < p.len() && p[i].grant is Some ==> {
            &&& q[i].grant is Some
            &&& q[i].alive == p[i].alive
            &&& q[i].grant->Some_0.dest == p[i].grant->Some_0.dest
        }
}

proof fn lemma_dest_kept_trans(p: Seq<EntryView>, q: Seq<EntryView>, r: Seq<EntryView>)
    requires
        dest_kept(p, q),
        dest_kept(q, r),
    ensures
        dest_kept(p, r),
{
    assert forall|i: int| 0 <= i < p.len() && p[i].grant is Some implies {
        &&& (#[trigger] r[i]).grant is Some
        &&& r[i].alive == p[i].alive
        &&& r[i].grant->Some_0.dest == p[i].grant->Some_0.dest
    } by {
        assert(q[i].grant is Some);
    }
}

proof fn lemma_dest_kept_enter(p: Seq<EntryView>, pid: ProcessId)
    ensures
        dest_kept(p, entered(p, pid)),
{
}

proof fn lemma_dest_kept_update(p: Seq<EntryView>, pid: ProcessId, b: AppView)
    requires
        pid.id < p.len(),
        p[pid.id as int].grant is Some ==> b.dest == p[pid.id as int].grant->Some_0.dest,
    ensures
        dest_kept(p, with_app(p, pid, b)),
{
}

proof fn lemma_dest_kept_queue(s: DriverView, t: DriverView)
    requires
        check_queue_post(s, t),
    ensures
        dest_kept(s.procs, t.procs),
{
    reveal(check_queue_post);
    assert forall|i: int| 0 <= i < s.procs.len() && s.procs[i].grant is Some implies {
        &&& (#[trigger] t.procs[i]).grant is Some
        &&& t.procs[i].alive == s.procs[i].alive
        &&& t.procs[i].grant->Some_0.dest == s.procs[i].grant->Some_0.dest
    } by {
        assert(slot_kept(s.procs[i], t.procs[i]));
    }
}

proof fn lemma_dest_kept_run(s: DriverView, t: DriverView, r: Result<(), ErrorCode>)
    requires
        run_post(s, t, r),
    ensures
        dest_kept(s.procs, t.procs),
{
    if s.appid is Some && enter_error(s.procs, s.appid->Some_0) is None {
        lemma_dest_kept_enter(s.procs, s.appid->Some_0);
        assert(t.procs == entered(s.procs, s.appid->Some_0));
    }
}

proof fn lemma_dest_kept_cmd_setup_now(c: DriverView, t: DriverView, appid: ProcessId, r: CommandReturn)
    requires
        setup_now_post(c, t, appid, r),
    ensures
        dest_kept(c.procs, t.procs),
{
    let (m, r1) = choose|m: DriverView, r1: Result<(), ErrorCode>|
        {
            &&& run_post(DriverView { appid: Some(appid), ..c }, m, r1)
            &&& match r1 {
                Ok(()) => r == CommandReturn::Success && t == m,
                Err(e) => r == CommandReturn::Failure(e) && check_queue_post(
                    DriverView { appid: None, log: m.log.push(HwCall::Disable), ..m },
                    t,
                ),
            }
        };
    lemma_dest_kept_run(DriverView { appid: Some(appid), ..c }, m, r1);
    if r1 is Err {
        lemma_dest_kept_queue(DriverView { appid: None, log: m.log.push(HwCall::Disable), ..m }, t);
        lemma_dest_kept_trans(c.procs, m.procs, t.procs);
    }
}

proof fn lemma_dest_kept_cmd_crypt(c: DriverView, t: DriverView, appid: ProcessId)
    requires
        crypt_post(c, t, appid),
    ensures
        dest_kept(c.procs, t.procs),
{
    let a = app_of(c.procs, appid);
    if load_error(c.source_buffer, a.source) is None {
        let m = DriverView {
            source_buffer: Some(loaded(c.source_buffer, a.source)),
            data_copied: min_len(c.source_buffer->Some_0.len() as int, shared_len(a.source) as int)
                as usize,
            ..c
        };
        let (u, r1) = choose|u: DriverView, r1: Result<(), ErrorCode>|
            {
                &&& output_post(
                    m,
                    u,
                    a.aes_operation->Some_0,
                    a.aoff,
                    a.moff,
                    a.mlen,
                    a.mic_len,
                    a.confidential,
                    r1,
                )
                &&& match r1 {
                    Ok(()) => t == u,
                    Err(e) => t == DriverView {
                        upcalls: u.upcalls.push(
                            Upcall { pid: appid, num: 0, arg0: e.code(), arg1: 0, arg2: 0 },
                        ),
                        ..u
                    },
                }
            };
        assert(t.procs == c.procs);
    }
}

proof fn lemma_dest_kept_cmd_setup_cmd(c: DriverView, t: DriverView, may_start: bool, appid: ProcessId, r: CommandReturn)
    requires
        setup_cmd_post(c, t, may_start, appid, r),
    ensures
        dest_kept(c.procs, t.procs),
{
    let ce = entered(c.procs, appid);
    lemma_dest_kept_enter(c.procs, appid);
    if may_start {
        lemma_dest_kept_cmd_setup_now(c, t, appid, r);
    } else if enter_error(c.procs, appid) is None && entered_app(c.procs, appid).pending_run_app
        is None {
        let b = AppView { pending_run_app: Some(appid), ..entered_app(c.procs, appid) };
        lemma_dest_kept_update(ce, appid, b);
        lemma_dest_kept_trans(c.procs, ce, with_app(ce, appid, b));
    }
}

proof fn lemma_dest_kept_cmd_set_algorithm(c: DriverView, t: DriverView, d1: usize, d2: usize, appid: ProcessId, r: CommandReturn)
    requires
        set_algorithm_post(c, t, d1, d2, appid, r),
    ensures
        dest_kept(c.procs, t.procs),
{
    let ce = entered(c.procs, appid);
    lemma_dest_kept_enter(c.procs, appid);
    if enter_error(c.procs, appid) is None && d1 <= 3 {
        let b = AppView { aes_operation: Some(operation(d1, d2 != 0)), ..entered_app(c.procs, appid) };
        lemma_dest_kept_update(ce, appid, b);
        lemma_dest_kept_trans(c.procs, ce, with_app(ce, appid, b));
    }
}

proof fn lemma_dest_kept_cmd_finish(c: DriverView, t: DriverView, appid: ProcessId)
    requires
        finish_post(c, t, appid),
    ensures
        dest_kept(c.procs, t.procs),
{
    let ce = entered(c.procs, appid);
    lemma_dest_kept_enter(c.procs, appid);
    lemma_dest_kept_queue(
        DriverView { procs: ce, appid: None, log: c.log.push(HwCall::Disable), ..c },
        t,
    );
    lemma_dest_kept_trans(c.procs, ce, t.procs);
}

proof fn lemma_dest_kept_cmd_set_parameter(c: DriverView, t: DriverView, n: usize, d1: usize, appid: ProcessId)
    requires
        set_parameter_post(c, t, n, d1, appid),
        appid.id < c.procs.len(),
    ensures
        dest_kept(c.procs, t.procs),
{
    let ce = entered(c.procs, appid);
    lemma_dest_kept_enter(c.procs, appid);
    let q = with_app(ce, appid, with_parameter(entered_app(c.procs, appid), n, d1));
    if appid.id < ce.len() {
        lemma_dest_kept_update(ce, appid, with_parameter(entered_app(c.procs, appid), n, d1));
    }
    lemma_dest_kept_queue(DriverView { procs: q, ..c }, t);
    if appid.id < ce.len() {
        lemma_dest_kept_trans(c.procs, ce, q);
        lemma_dest_kept_trans(c.procs, q, t.procs);
    }
}

/// Commands keep the destination buffer that every process has shared:
/// only `allow` replaces it, and the callbacks write results into it.
pub proof fn law_command_keeps_dest(
    s: DriverView,
    t: DriverView,
    command_num: usize,
    d1: usize,
    d2: usize,
    appid: ProcessId,
    r: CommandReturn,
)
    requires
        command_safe(s, command_num, appid),
        command_post(s, t, command_num, d1, d2, appid, r),
    ensures
        dest_kept(s.procs, t.procs),
{
    let c = checked(s);
    if let Some(o) = s.appid {
        lemma_dest_kept_enter(s.procs, o);
    }
    assert(dest_kept(s.procs, c.procs));
    if command_num == 1 {
        lemma_dest_kept_cmd_set_algorithm(c, t, d1, d2, appid, r);
    } else if command_num == 2 {
        lemma_dest_kept_cmd_setup_cmd(c, t, match_or_empty(s, appid), appid, r);
    } else if command_num == 3 {
        if app_match(s, appid) {
            lemma_dest_kept_enter(c.procs, appid);
            lemma_dest_kept_cmd_crypt(DriverView { procs: entered(c.procs, appid), ..c }, t, appid);
            lemma_dest_kept_trans(c.procs, entered(c.procs, appid), t.procs);
        }
    } else if command_num == 4 {
        if app_match(s, appid) {
            lemma_dest_kept_cmd_finish(c, t, appid);
        }
    } else if 5 <= command_num <= 8 {
        lemma_dest_kept_cmd_set_parameter(c, t, command_num, d1, appid);
    }
    lemma_dest_kept_trans(s.procs, c.procs, t.procs);
}

/// The destination buffer of `pid`, shared in `p`, is still shared in `q`.
pub open spec fn dest_slot_kept(p: Seq<EntryView>, q: Seq<EntryView>, pid: ProcessId) -> bool {
    has_app(p, pid) ==> has_app(q, pid) && app_of(q, pid).dest == app_of(p, pid).dest
}

/// Keeping all destination buffers keeps each of them.
pub proof fn law_dest_kept_slot(p: Seq<EntryView>, q: Seq<EntryView>, pid: ProcessId)
    requires
        dest_kept(p, q),
    ensures
        dest_slot_kept(p, q, pid),
{
    if has_app(p, pid) {
        assert(q[pid.id as int].grant is Some);
    }
}

/// Keeping a destination buffer over two stretches of calls keeps it over
/// both.
pub proof fn law_dest_slot_kept_trans(p: Seq<EntryView>, q: Seq<EntryView>, r: Seq<EntryView>, pid: ProcessId)
    requires
        dest_slot_kept(p, q, pid),
        dest_slot_kept(q, r, pid),
    ensures
        dest_slot_kept(p, r, pid),
{
}

/// Allocating a grant keeps the destination buffer every process shared.
pub proof fn law_allocate_keeps_dest(s: Seq<EntryView>, pid: ProcessId)
    ensures
        dest_kept(s, entered(s, pid)),
{
}

/// Sharing a read-only buffer keeps the destination buffer every process
/// shared.
pub proof fn law_allow_readonly_keeps_dest(
    s: Seq<EntryView>,
    t: Seq<EntryView>,
    pid: ProcessId,
    n: usize,
    slice: Option<Seq<u8>>,
    r: Result<ProcessBuffer, (ProcessBuffer, ErrorCode)>,
)
    requires
        allow_post(
            s,
            t,
            pid,
            n <= 2,
            slice,
            readonly_buffer(entered_app(s, pid), n),
            with_readonly(entered_app(s, pid), n, slice),
            r,
        ),
    ensures
        dest_kept(s, t),
{
    lemma_dest_kept_enter(s, pid);
    if n <= 2 && enter_error(s, pid) is None {
        lemma_dest_kept_update(entered(s, pid), pid, with_readonly(entered_app(s, pid), n, slice));
        lemma_dest_kept_trans(s, entered(s, pid), t);
    }
}

/// The shared destination buffer comes back from the next sharing by the
/// same process, whatever calls came between that kept it (see the
/// `*_keeps_dest` laws).
pub proof fn law_allow_readwrite_comes_back(
    s: Seq<EntryView>,
    t: Seq<EntryView>,
    pid: ProcessId,
    shared: Option<Seq<u8>>,
    slice: Option<Seq<u8>>,
    r: Result<ProcessBuffer, (ProcessBuffer, ErrorCode)>,
)
    requires
        has_app(s, pid),
        app_of(s, pid).dest == shared,
        allow_post(
            s,
            t,
            pid,
            true,
            slice,
            entered_app(s, pid).dest,
            AppView { dest: slice, ..entered_app(s, pid) },
            r,
        ),
    ensures
        r matches Ok(b) && b@ == shared,
{
}

/// Read-only buffer `n` of `pid`, shared in `p`, is still shared in `q`.
pub open spec fn readonly_slot_kept(p: Seq<EntryView>, q: Seq<EntryView>, pid: ProcessId, n: usize) -> bool {
    has_app(p, pid) ==> {
        &&& has_app(q, pid)
        &&& readonly_buffer(app_of(q, pid), n) == readonly_buffer(app_of(p, pid), n)
    }
}

/// Keeping all read-only buffers keeps each of them.
pub proof fn law_readonly_kept_slot(p: Seq<EntryView>, q: Seq<EntryView>, pid: ProcessId, n: usize)
    requires
        readonly_kept(p, q),
    ensures
        readonly_slot_kept(p, q, pid, n),
{
    if has_app(p, pid) {
        assert(q[pid.id as int].grant is Some);
    }
}

/// Keeping a read-only buffer over two stretches of calls keeps it over
/// both.
pub proof fn law_readonly_slot_kept_trans(
    p: Seq<EntryView>,
    q: Seq<EntryView>,
    r: Seq<EntryView>,
    pid: ProcessId,
    n: usize,
)
    requires
        readonly_slot_kept(p, q, pid, n),
        readonly_slot_kept(q, r, pid, n),
    ensures
        readonly_slot_kept(p, r, pid, n),
{
}

/// Allocating a grant keeps the key, IV and data that every process has
/// shared.
pub proof fn law_allocate_keeps_readonly(s: Seq<EntryView>, pid: ProcessId)
    ensures
        readonly_kept(s, entered(s, pid)),
{
}

/// Sharing a read-write buffer keeps the key, IV and data that every
/// process has shared.
pub proof fn law_allow_readwrite_keeps_readonly(
    s: Seq<EntryView>,
    t: Seq<EntryView>,
    pid: ProcessId,
    supported: bool,
    slice: Option<Seq<u8>>,
    r: Result<ProcessBuffer, (ProcessBuffer, ErrorCode)>,
)
    requires
        allow_post(
            s,
            t,
            pid,
            supported,
            slice,
            entered_app(s, pid).dest,
            AppView { dest: slice, ..entered_app(s, pid) },
            r,
        ),
    ensures
        readonly_kept(s, t),
{
    lemma_readonly_kept_enter(s, pid);
    if supported && enter_error(s, pid) is None {
        lemma_readonly_kept_update(entered(s, pid), pid, AppView { dest: slice, ..entered_app(s, pid) });
        lemma_readonly_kept_trans(s, entered(s, pid), t);
    }
}

/// Sharing a read-only buffer of another number, or for another process,
/// keeps read-only buffer `n` of `pid`.
pub proof fn law_allow_readonly_keeps_other(
    s: Seq<EntryView>,
    t: Seq<EntryView>,
    pid2: ProcessId,
    n2: usize,
    slice: Option<Seq<u8>>,
    r: Result<ProcessBuffer, (ProcessBuffer, ErrorCode)>,
    pid: ProcessId,
    n: usize,
)
    requires
        n <= 2,
        pid2 != pid || n2 != n,
        allow_post(
            s,
            t,
            pid2,
            n2 <= 2,
            slice,
            readonly_buffer(entered_app(s, pid2), n2),
            with_readonly(entered_app(s, pid2), n2, slice),
            r,
        ),
    ensures
        readonly_slot_kept(s, t, pid, n),
{
    lemma_readonly_kept_enter(s, pid2);
    law_readonly_kept_slot(s, entered(s, pid2), pid, n);
}

/// A shared read-only buffer comes back from the next sharing of the same
/// number by the same process, whatever calls came between that kept it
/// (see the other `*_keeps_readonly` laws).
pub proof fn law_allow_readonly_comes_back(
    s: Seq<EntryView>,
    t: Seq<EntryView>,
    pid: ProcessId,
    n: usize,
    shared: Option<Seq<u8>>,
    slice: Option<Seq<u8>>,
    r: Result<ProcessBuffer, (ProcessBuffer, ErrorCode)>,
)
    requires
        n <= 2,
        has_app(s, pid),
        readonly_buffer(app_of(s, pid), n) == shared,
        allow_post(
            s,
            t,
            pid,
            true,
            slice,
            readonly_buffer(entered_app(s, pid), n),
            with_readonly(entered_app(s, pid), n, slice),
            r,
        ),
    ensures
        r matches Ok(b) && b@ == shared,
{
}

/// In the block modes the CCM parameters play no part in starting the
/// hardware.
pub proof fn law_block_ignores_ccm_parameters(
    m: DriverView,
    t: DriverView,
    op: AesOperation,
    aoff: usize,
    moff: usize,
    mlen: usize,
    mic_len: usize,
    confidential: bool,
    aoff2: usize,
    moff2: usize,
    mlen2: usize,
    mic_len2: usize,
    confidential2: bool,
    r: Result<(), ErrorCode>,
)
    requires
        !(op is AES128CCM),
    ensures
        output_post(m, t, op, aoff, moff, mlen, mic_len, confidential, r) == output_post(
            m,
            t,
            op,
            aoff2,
            moff2,
            mlen2,
            mic_len2,
            confidential2,
            r,
        ),
{
}

proof fn lemma_kept_continue(s: DriverView, t: DriverView, id: ProcessId)
    requires
        continue_post(s, t, id),
    ensures
        readonly_kept(s.procs, t.procs),
{
    let a = app_of(s.procs, id);
    let sb = s.source_buffer->Some_0;
    if a.source is Some {
        let src = a.source->Some_0;
        let s3 = DriverView { source_buffer: Some(next_chunk(sb, src, s.data_copied as int)), ..s };
        if sb.len() > 0 && src.len() > s.data_copied {
            let s4 = DriverView { data_copied: (s.data_copied + sb.len()) as usize, ..s3 };
            let (u, r) = choose|u: DriverView, r: Result<(), ErrorCode>|
                {
                    &&& output_post(
                        s4,
                        u,
                        a.aes_operation->Some_0,
                        a.aoff,
                        a.moff,
                        a.mlen,
                        a.mic_len,
                        a.confidential,
                        r,
                    )
                    &&& match r {
                        Ok(()) => t == u,
                        Err(e) => check_queue_post(
                            DriverView {
                                appid: None,
                                log: u.log.push(HwCall::Disable),
                                upcalls: u.upcalls.push(upcall0(id, e.code(), 0, 0)),
                                ..u
                            },
                            t,
                        ),
                    }
                };
            if let Err(e) = r {
                lemma_readonly_kept_queue(
                    DriverView {
                        appid: None,
                        log: u.log.push(HwCall::Disable),
                        upcalls: u.upcalls.push(upcall0(id, e.code(), 0, 0)),
                        ..u
                    },
                    t,
                );
            }
        }
    }
}

/// The completion of a block operation keeps the key, IV and data that
/// every process has shared.
pub proof fn law_crypt_done_keeps_readonly(s: DriverView, t: DriverView, source: Seq<u8>, destination: Seq<u8>)
    requires
        crypt_done_post(s, t, source, destination),
    ensures
        readonly_kept(s.procs, t.procs),
{
    if let Some(id) = s.appid {
        if enter_error(s.procs, id) is None {
            let se = DriverView {
                procs: entered(s.procs, id),
                source_buffer: Some(source),
                dest_buffer: Some(destination),
                ..s
            };
            lemma_readonly_kept_enter(s.procs, id);
            let a = app_of(se.procs, id);
            if a.dest is Some {
                let s2 = results_back(
                    se,
                    id,
                    min_len(source.len() as int, shared_len(a.source) as int),
                    min_len(source.len() as int, destination.len() as int),
                );
                lemma_readonly_kept_update(se.procs, id, app_of(s2.procs, id));
                lemma_readonly_kept_trans(s.procs, se.procs, s2.procs);
                lemma_kept_continue(s2, t, id);
                lemma_readonly_kept_trans(s.procs, s2.procs, t.procs);
            }
        }
    }
}

/// The completion of a CCM operation keeps the key, IV and data that every
/// process has shared.
pub proof fn law_ccm_crypt_done_keeps_readonly(
    s: DriverView,
    t: DriverView,
    buf: Seq<u8>,
    res: Result<(), ErrorCode>,
    tag_is_valid: bool,
)
    requires
        ccm_crypt_done_post(s, t, buf, res, tag_is_valid),
    ensures
        readonly_kept(s.procs, t.procs),
{
    if let Some(id) = s.appid {
        if enter_error(s.procs, id) is None {
            let se = DriverView { procs: entered(s.procs, id), dest_buffer: Some(buf), ..s };
            lemma_readonly_kept_enter(s.procs, id);
            let a = app_of(se.procs, id);
            if res is Ok && a.dest is Some {
                let s2 = results_back(
                    se,
                    id,
                    min_len(buf.len() as int, a.dest->Some_0.len() as int),
                    buf.len() as int,
                );
                lemma_readonly_kept_update(se.procs, id, app_of(s2.procs, id));
                lemma_readonly_kept_trans(s.procs, se.procs, s2.procs);
            }
        }
    }
}

/// Over any run of calls of which each keeps read-only buffer `n` of `pid`
/// (by the `*_keeps_readonly` and `law_allow_readonly_keeps_other` laws),
/// the buffer is kept from the first state to the last; then
/// `law_allow_readonly_comes_back` hands it back.
pub proof fn law_readonly_kept_along(states: Seq<Seq<EntryView>>, pid: ProcessId, n: usize)
    requires
        states.len() > 0,
        forall|k: int|
            0 <= k < states.len() - 1 ==> readonly_slot_kept(
                #[trigger] states[k],
                states[k + 1],
                pid,
                n,
            ),
    ensures
        readonly_slot_kept(states[0], states[states.len() - 1], pid, n),
    decreases states.len(),
{
    if states.len() > 1 {
        let front = states.drop_last();
        assert forall|k: int| 0 <= k < front.len() - 1 implies readonly_slot_kept(
            #[trigger] front[k],
            front[k + 1],
            pid,
            n,
        ) by {
            assert(front[k] == states[k] && front[k + 1] == states[k + 1]);
        }
        law_readonly_kept_along(front, pid, n);
        assert(readonly_slot_kept(states[states.len() - 2], states[states.len() - 1], pid, n));
    }
}

/// Over any run of calls of which each keeps the destination buffer of
/// `pid` (by the `*_keeps_dest` laws), it is kept from the first state to
/// the last; then `law_allow_readwrite_comes_back` hands it back.
pub proof fn law_dest_kept_along(states: Seq<Seq<EntryView>>, pid: ProcessId)
    requires
        states.len() > 0,
        forall|k: int|
            0 <= k < states.len() - 1 ==> dest_slot_kept(#[trigger] states[k], states[k + 1], pid),
    ensures
        dest_slot_kept(states[0], states[states.len() - 1], pid),
    decreases states.len(),
{
    if states.len() > 1 {
        let front = states.drop_last();
        assert forall|k: int| 0 <= k < front.len() - 1 implies dest_slot_kept(
            #[trigger] front[k],
            front[k + 1],
            pid,
        ) by {
            assert(front[k] == states[k] && front[k + 1] == states[k + 1]);
        }
        law_dest_kept_along(front, pid);
        assert(dest_slot_kept(states[states.len() - 2], states[states.len() - 1], pid));
    }
}

/// Apart from the starts it makes, looking for a queued request only takes
/// requests (it never queues one or changes anything else a process set)
/// and schedules no upcall.
pub proof fn law_queue_only_takes_requests(s: DriverView, t: DriverView)
    requires
        check_queue_post(s, t),
    ensures
        t.procs.len() == s.procs.len(),
        forall|j: int| 0 <= j < s.procs.len() ==> slot_kept(s.procs[j], #[trigger] t.procs[j]),
        t.upcalls == s.upcalls,
{
    reveal(check_queue_post);
}

/// A CCM completion reports to the owner by upcall 0: a failure with its
/// error code; a success (with a destination buffer shared) with the length
/// processed and, as third argument, 1 when the hardware found the tag
/// valid and 0 when it did not. The count then starts over.
pub proof fn law_ccm_done_reports_tag(
    s: DriverView,
    t: DriverView,
    buf: Seq<u8>,
    res: Result<(), ErrorCode>,
    tag_is_valid: bool,
)
    requires
        ccm_crypt_done_post(s, t, buf, res, tag_is_valid),
        s.appid is Some,
        enter_error(s.procs, s.appid->Some_0) is None,
        res is Err || entered_app(s.procs, s.appid->Some_0).dest is Some,
    ensures
        match res {
            Err(e) => t.upcalls == s.upcalls.push(
                Upcall { pid: s.appid->Some_0, num: 0, arg0: e.code(), arg1: 0, arg2: 0 },
            ),
            Ok(()) => {
                &&& t.upcalls == s.upcalls.push(
                    Upcall {
                        pid: s.appid->Some_0,
                        num: 0,
                        arg0: 0,
                        arg1: s.data_copied,
                        arg2: if tag_is_valid {
                            1
                        } else {
                            0
                        },
                    },
                )
                &&& t.data_copied == 0
            },
        },
{
}

/// Starting a CCM operation hands the hardware, in one call, the CCM
/// parameters it was given, its `confidential` flag as `confidential` and
/// the direction of the operation as `encrypting`.
pub proof fn law_ccm_output_call(
    m: DriverView,
    t: DriverView,
    encrypting: bool,
    aoff: usize,
    moff: usize,
    mlen: usize,
    mic_len: usize,
    confidential: bool,
    r: Result<(), ErrorCode>,
)
    requires
        output_post(
            m,
            t,
            AesOperation::AES128CCM(encrypting),
            aoff,
            moff,
            mlen,
            mic_len,
            confidential,
            r,
        ),
    ensures
        t.log.len() > m.log.len(),
        t.log[m.log.len() as int] matches HwCall::CcmCrypt {
            a_off: a1,
            m_off: m1,
            m_len: l1,
            mic_len: t1,
            confidential: c1,
            encrypting: e1,
            ..
        } && a1 == aoff && m1 == moff && l1 == mlen && t1 == mic_len && c1 == confidential && e1
            == encrypting,
{
}

/// Setting up a CCM operation (`run`) hands the hardware the owner's
/// settings: every CCM call it makes carries the owner's header offset,
/// message offset, message length, tag length and `confidential` flag, and
/// as `encrypting` the direction the owner selected. A setup that succeeds
/// ends with such a call.
pub proof fn law_ccm_setup_uses_settings(s: DriverView, t: DriverView, r: Result<(), ErrorCode>)
    requires
        run_post(s, t, r),
        s.appid is Some,
        enter_error(s.procs, s.appid->Some_0) is None,
        entered_app(s.procs, s.appid->Some_0).aes_operation matches Some(
            AesOperation::AES128CCM(_),
        ),
    ensures
        t.log.len() >= s.log.len(),
        forall|i: int|
            #![trigger t.log[i]]
            s.log.len() <= i < t.log.len() ==> match t.log[i] {
                HwCall::CcmCrypt {
                    a_off,
                    m_off,
                    m_len,
                    mic_len,
                    confidential,
                    encrypting,
                    ..
                } => {
                    let a = entered_app(s.procs, s.appid->Some_0);
                    &&& a_off == a.aoff
                    &&& m_off == a.moff
                    &&& m_len == a.mlen
                    &&& mic_len == a.mic_len
                    &&& confidential == a.confidential
                    &&& a.aes_operation == Some(AesOperation::AES128CCM(encrypting))
                },
                _ => true,
            },
        r is Ok ==> t.log.len() > s.log.len() && t.log.last() is CcmCrypt,
{
}

/// Sharing a read-only buffer sets only that buffer, and the CCM message
/// length only when the data (number 2) is shared: sharing the key (0) or
/// the IV or nonce (1) leaves the message length and the data as they
/// were, sharing the data sets the message length to its length.
pub proof fn law_allow_readonly_sets(
    s: Seq<EntryView>,
    t: Seq<EntryView>,
    pid: ProcessId,
    n: usize,
    slice: Option<Seq<u8>>,
    r: Result<ProcessBuffer, (ProcessBuffer, ErrorCode)>,
)
    requires
        allow_post(
            s,
            t,
            pid,
            n <= 2,
            slice,
            readonly_buffer(entered_app(s, pid), n),
            with_readonly(entered_app(s, pid), n, slice),
            r,
        ),
        r is Ok,
    ensures
        has_app(t, pid),
        ({
            let a = entered_app(s, pid);
            let b = app_of(t, pid);
            &&& b.key == if n == 0 {
                slice
            } else {
                a.key
            }
            &&& b.iv == if n == 1 {
                slice
            } else {
                a.iv
            }
            &&& b.source == if n == 2 {
                slice
            } else {
                a.source
            }
            &&& b.mlen == if n == 2 {
                shared_len(slice) as usize
            } else {
                a.mlen
            }
            &&& b.dest == a.dest
            &&& b.aes_operation == a.aes_operation
            &&& b.pending_run_app == a.pending_run_app
            &&& b.aoff == a.aoff
            &&& b.moff == a.moff
            &&& b.mic_len == a.mic_len
            &&& b.confidential == a.confidential
        }),
{
}

proof fn lemma_dest_kept_continue(s: DriverView, t: DriverView, id: ProcessId)
    requires
        continue_post(s, t, id),
    ensures
        dest_kept(s.procs, t.procs),
{
    let a = app_of(s.procs, id);
    let sb = s.source_buffer->Some_0;
    if a.source is Some {
        let src = a.source->Some_0;
        let s3 = DriverView { source_buffer: Some(next_chunk(sb, src, s.data_copied as int)), ..s };
        if sb.len() > 0 && src.len() > s.data_copied {
            let s4 = DriverView { data_copied: (s.data_copied + sb.len()) as usize, ..s3 };
            let (u, r) = choose|u: DriverView, r: Result<(), ErrorCode>|
                {
                    &&& output_post(
                        s4,
                        u,
                        a.aes_operation->Some_0,
                        a.aoff,
                        a.moff,
                        a.mlen,
                        a.mic_len,
                        a.confidential,
                        r,
                    )
                    &&& match r {
                        Ok(()) => t == u,
                        Err(e) => check_queue_post(
                            DriverView {
                                appid: None,
                                log: u.log.push(HwCall::Disable),
                                upcalls: u.upcalls.push(upcall0(id, e.code(), 0, 0)),
                                ..u
                            },
                            t,
                        ),
                    }
                };
            if let Err(e) = r {
                lemma_dest_kept_queue(
                    DriverView {
                        appid: None,
                        log: u.log.push(HwCall::Disable),
                        upcalls: u.upcalls.push(upcall0(id, e.code(), 0, 0)),
                        ..u
                    },
                    t,
                );
            }
        }
    }
}

/// When a block of a block-mode operation completes, its results land in
/// the owner's destination buffer at the offset of that block: the count
/// of data copied so far less the length of the last chunk, with no cap,
/// so that successive blocks land at successive offsets. The rest of the
/// buffer keeps what it held.
pub proof fn law_crypt_done_writes_block(
    s: DriverView,
    t: DriverView,
    source: Seq<u8>,
    destination: Seq<u8>,
)
    requires
        crypt_done_post(s, t, source, destination),
        s.appid is Some,
        enter_error(s.procs, s.appid->Some_0) is None,
        entered_app(s.procs, s.appid->Some_0).dest is Some,
        ({
            let a = entered_app(s.procs, s.appid->Some_0);
            let off = s.data_copied - min_len(source.len() as int, shared_len(a.source) as int);
            let block = min_len(source.len() as int, destination.len() as int);
            0 <= off && off + block <= a.dest->Some_0.len()
        }),
    ensures
        ({
            let id = s.appid->Some_0;
            let a = entered_app(s.procs, id);
            let d = a.dest->Some_0;
            let off = s.data_copied - min_len(source.len() as int, shared_len(a.source) as int);
            let block = min_len(source.len() as int, destination.len() as int);
            &&& has_app(t.procs, id)
            &&& app_of(t.procs, id).dest matches Some(d2) && {
                &&& d2.len() == d.len()
                &&& d2.subrange(off, off + block) == destination.take(block)
                &&& forall|j: int|
                    0 <= j < d.len() && !(off <= j < off + block) ==> #[trigger] d2[j] == d[j]
            }
        }),
{
    let id = s.appid->Some_0;
    let se = DriverView {
        procs: entered(s.procs, id),
        source_buffer: Some(source),
        dest_buffer: Some(destination),
        ..s
    };
    let a = app_of(se.procs, id);
    let d = a.dest->Some_0;
    let last = min_len(source.len() as int, shared_len(a.source) as int);
    let block = min_len(source.len() as int, destination.len() as int);
    let off = s.data_copied - last;
    let s2 = results_back(se, id, last, block);
    let d2 = copied_back(d, destination, back_offset(s.data_copied, last), block);
    assert(app_of(s2.procs, id).dest == Some(d2));
    assert(d2 == overwrite(d, off, destination.take(block)));
    assert(d2.subrange(off, off + block) =~= destination.take(block));
    lemma_dest_kept_continue(s2, t, id);
    assert(s2.procs[id.id as int].grant is Some);
    assert(t.procs[id.id as int].grant is Some);
}

/// `finish` leaves what every process selected as it was: its algorithm
/// and direction, and its CCM parameters.
pub proof fn law_finish_keeps_settings(
    s: DriverView,
    t: DriverView,
    d1: usize,
    d2: usize,
    appid: ProcessId,
    r: CommandReturn,
)
    requires
        command_post(s, t, 4, d1, d2, appid, r),
    ensures
        t.procs.len() == s.procs.len(),
        forall|i: int|
            #![trigger t.procs[i]]
            0 <= i < s.procs.len() && s.procs[i].grant is Some ==> {
                let a = s.procs[i].grant->Some_0;
                &&& t.procs[i].grant matches Some(b) && {
                    &&& b.aes_operation == a.aes_operation
                    &&& b.aoff == a.aoff
                    &&& b.moff == a.moff
                    &&& b.mlen == a.mlen
                    &&& b.mic_len == a.mic_len
                    &&& b.confidential == a.confidential
                }
            },
{
    reveal(check_queue_post);
    let c = checked(s);
    if app_match(s, appid) {
        let ce = DriverView {
            procs: entered(c.procs, appid),
            appid: None,
            log: c.log.push(HwCall::Disable),
            ..c
        };
        assert forall|i: int|
            #![trigger t.procs[i]]
            0 <= i < s.procs.len() && s.procs[i].grant is Some implies {
                let a = s.procs[i].grant->Some_0;
                &&& t.procs[i].grant matches Some(b) && {
                    &&& b.aes_operation == a.aes_operation
                    &&& b.aoff == a.aoff
                    &&& b.moff == a.moff
                    &&& b.mlen == a.mlen
                    &&& b.mic_len == a.mic_len
                    &&& b.confidential == a.confidential
                }
            } by {
            assert(c.procs[i] == s.procs[i]);
            assert(ce.procs[i] == s.procs[i]);
            assert(slot_kept(ce.procs[i], t.procs[i]));
        }
    }
}

/// `set_algorithm` (command 1) selects CTR for 0, CBC for 1, ECB for 2 and
/// CCM for 3, encrypting exactly when `data2` is not zero; any other choice
/// is refused with `NOSUPPORT` and leaves the selection as it was.
pub proof fn law_set_algorithm_selects(
    s: DriverView,
    t: DriverView,
    d1: usize,
    d2: usize,
    appid: ProcessId,
    r: CommandReturn,
)
    requires
        command_post(s, t, 1, d1, d2, appid, r),
        enter_error(s.procs, appid) is None,
    ensures
        has_app(t.procs, appid),
        d1 == 0 ==> app_of(t.procs, appid).aes_operation == Some(
            AesOperation::AES128Ctr(d2 != 0),
        ),
        d1 == 1 ==> app_of(t.procs, appid).aes_operation == Some(
            AesOperation::AES128CBC(d2 != 0),
        ),
        d1 == 2 ==> app_of(t.procs, appid).aes_operation == Some(
            AesOperation::AES128ECB(d2 != 0),
        ),
        d1 == 3 ==> app_of(t.procs, appid).aes_operation == Some(
            AesOperation::AES128CCM(d2 != 0),
        ),
        d1 <= 3 ==> r == CommandReturn::Success,
        d1 > 3 ==> r == CommandReturn::Failure(ErrorCode::NOSUPPORT)
            && app_of(t.procs, appid).aes_operation == entered_app(s.procs, appid).aes_operation,
{
    if let Some(o) = s.appid {
        lemma_enter_twice(s.procs, o);
    }
}

/// Commands 5 to 8 set, for the calling process, the CCM header offset,
/// the message offset, the tag length, and whether the message is
/// confidential (`data1` not zero), in that order; the other settings stay
/// as they were.
pub proof fn law_parameter_sets(
    s: DriverView,
    t: DriverView,
    command_num: usize,
    d1: usize,
    d2: usize,
    appid: ProcessId,
    r: CommandReturn,
)
    requires
        5 <= command_num <= 8,
        command_post(s, t, command_num, d1, d2, appid, r),
        enter_error(s.procs, appid) is None,
    ensures
        r == CommandReturn::Success,
        has_app(t.procs, appid),
        ({
            let a = entered_app(s.procs, appid);
            let b = app_of(t.procs, appid);
            &&& b.aoff == if command_num == 5 {
                d1
            } else {
                a.aoff
            }
            &&& b.moff == if command_num == 6 {
                d1
            } else {
                a.moff
            }
            &&& b.mic_len == if command_num == 7 {
                d1
            } else {
                a.mic_len
            }
            &&& b.confidential == if command_num == 8 {
                d1 != 0
            } else {
                a.confidential
            }
            &&& b.aes_operation == a.aes_operation
            &&& b.mlen == a.mlen
        }),
{
    reveal(check_queue_post);
    if let Some(o) = s.appid {
        lemma_enter_twice(s.procs, o);
    }
    let c = checked(s);
    assert(entered_app(c.procs, appid) == entered_app(s.procs, appid));
    let q = with_app(
        entered(c.procs, appid),
        appid,
        with_parameter(entered_app(c.procs, appid), command_num, d1),
    );
    assert(slot_kept(q[appid.id as int], t.procs[appid.id as int]));
}

/// When the last block of a block-mode operation completes (no data is
/// left past what was copied), upcall 0 reports to the owner the length of
/// data processed, and the count starts over; the owner keeps the driver
/// until it finishes.
pub proof fn law_crypt_done_last_block(
    s: DriverView,
    t: DriverView,
    source: Seq<u8>,
    destination: Seq<u8>,
)
    requires
        crypt_done_post(s, t, source, destination),
        s.appid is Some,
        enter_error(s.procs, s.appid->Some_0) is None,
        entered_app(s.procs, s.appid->Some_0).dest is Some,
        entered_app(s.procs, s.appid->Some_0).source matches Some(src) && (source.len() == 0
            || src.len() <= s.data_copied),
    ensures
        t.upcalls == s.upcalls.push(
            Upcall { pid: s.appid->Some_0, num: 0, arg0: 0, arg1: s.data_copied, arg2: 0 },
        ),
        t.data_copied == 0,
        t.appid == s.appid,
        t.log == s.log,
{
}

/// When a block of a block-mode operation completes and data is left, the
/// next chunk of the owner's data (from what was copied so far on, as much
/// as the static buffer holds) goes to the hardware in the next call; if
/// the hardware takes it, the count of copied data grows by the static
/// buffer's length and no upcall is scheduled.
pub proof fn law_crypt_done_next_block(
    s: DriverView,
    t: DriverView,
    source: Seq<u8>,
    destination: Seq<u8>,
)
    requires
        crypt_done_post(s, t, source, destination),
        s.appid is Some,
        enter_error(s.procs, s.appid->Some_0) is None,
        entered_app(s.procs, s.appid->Some_0).dest is Some,
        entered_app(s.procs, s.appid->Some_0).source matches Some(src) && source.len() > 0
            && src.len() > s.data_copied,
        entered_app(s.procs, s.appid->Some_0).aes_operation matches Some(op) && !(
        op is AES128CCM),
        s.data_copied + source.len() <= usize::MAX,
    ensures
        t.log.len() > s.log.len(),
        ({
            let src = entered_app(s.procs, s.appid->Some_0).source->Some_0;
            let n = min_len(src.len() - s.data_copied, source.len() as int);
            t.log[s.log.len() as int] matches HwCall::Crypt { source: chunk, refused, .. } && {
                &&& chunk.len() == source.len()
                &&& forall|j: int|
                    0 <= j < n ==> #[trigger] chunk[j] == src[s.data_copied + j]
                &&& refused is None ==> {
                    &&& t.data_copied == s.data_copied + source.len()
                    &&& t.upcalls == s.upcalls
                    &&& t.appid == s.appid
                }
            }
        }),
{
    reveal(check_queue_post);
    let id = s.appid->Some_0;
    let se = DriverView {
        procs: entered(s.procs, id),
        source_buffer: Some(source),
        dest_buffer: Some(destination),
        ..s
    };
    let a = app_of(se.procs, id);
    let src = a.source->Some_0;
    let s2 = results_back(
        se,
        id,
        min_len(source.len() as int, shared_len(a.source) as int),
        min_len(source.len() as int, destination.len() as int),
    );
    assert(app_of(s2.procs, id).source == a.source);
    assert(app_of(s2.procs, id).aes_operation == a.aes_operation);
    let k = min_len(src.len() - s.data_copied, source.len() as int);
    let chunk = next_chunk(source, src, s.data_copied as int);
    assert(chunk == overwrite(source, 0, src.subrange(s.data_copied as int, s.data_copied + k)));
    assert forall|j: int| 0 <= j < k implies #[trigger] chunk[j] == src[s.data_copied + j] by {
    }
    let s4 = DriverView {
        source_buffer: Some(chunk),
        data_copied: (s.data_copied + source.len()) as usize,
        ..s2
    };
    let b = app_of(s2.procs, id);
    let (u, r) = choose|u: DriverView, r: Result<(), ErrorCode>|
        {
            &&& output_post(
                s4,
                u,
                b.aes_operation->Some_0,
                b.aoff,
                b.moff,
                b.mlen,
                b.mic_len,
                b.confidential,
                r,
            )
            &&& match r {
                Ok(()) => t == u,
                Err(e) => check_queue_post(
                    DriverView {
                        appid: None,
                        log: u.log.push(HwCall::Disable),
                        upcalls: u.upcalls.push(upcall0(id, e.code(), 0, 0)),
                        ..u
                    },
                    t,
                ),
            }
        };
    assert(u.log[s.log.len() as int] == t.log[s.log.len() as int]);
    assert(u.log[s.log.len() as int] matches HwCall::Crypt { source: c, .. } && c == chunk);
    assert(chunk.len() == source.len());
}

/// A successful CCM completion writes the whole buffer back from the
/// hardware into the owner's destination buffer at the count of data copied
/// less the shorter of the two lengths, when it fits; the rest of the
/// destination keeps what it held.
pub proof fn law_ccm_done_writes_results(
    s: DriverView,
    t: DriverView,
    buf: Seq<u8>,
    res: Result<(), ErrorCode>,
    tag_is_valid: bool,
)
    requires
        ccm_crypt_done_post(s, t, buf, res, tag_is_valid),
        res is Ok,
        s.appid is Some,
        enter_error(s.procs, s.appid->Some_0) is None,
        entered_app(s.procs, s.appid->Some_0).dest matches Some(d) && {
            let off = s.data_copied - min_len(buf.len() as int, d.len() as int);
            0 <= off && off + buf.len() <= d.len()
        },
    ensures
        ({
            let id = s.appid->Some_0;
            let d = entered_app(s.procs, id).dest->Some_0;
            let off = s.data_copied - min_len(buf.len() as int, d.len() as int);
            &&& has_app(t.procs, id)
            &&& app_of(t.procs, id).dest matches Some(d2) && {
                &&& d2.len() == d.len()
                &&& d2.subrange(off, off + buf.len()) == buf
                &&& forall|j: int|
                    0 <= j < d.len() && !(off <= j < off + buf.len()) ==> #[trigger] d2[j] == d[j]
            }
        }),
{
    let id = s.appid->Some_0;
    let d = entered_app(s.procs, id).dest->Some_0;
    let off = s.data_copied - min_len(buf.len() as int, d.len() as int);
    let d2 = copied_back(d, buf, back_offset(s.data_copied, min_len(buf.len() as int, d.len() as int)), buf.len() as int);
    assert(d2 == overwrite(d, off, buf.take(buf.len() as int)));
    assert(buf.take(buf.len() as int) =~= buf);
    assert(d2.subrange(off, off + buf.len()) =~= buf);
}

/// Setting up a block-mode operation that succeeds makes these hardware
/// calls, in order: enable; set the owner's mode and direction; the key
/// (the static buffer, starting with the owner's key); the IV (the static
/// buffer, starting with the owner's IV); and the first block, from the
/// static buffer starting with the owner's data into the destination
/// buffer. The count of data copied is the length of that data prefix.
pub proof fn law_block_setup_calls(s: DriverView, t: DriverView, r: Result<(), ErrorCode>)
    requires
        run_post(s, t, r),
        r is Ok,
        s.appid is Some,
        enter_error(s.procs, s.appid->Some_0) is None,
        entered_app(s.procs, s.appid->Some_0).aes_operation matches Some(op) && !(
        op is AES128CCM),
        shared_len(s.source_buffer) <= usize::MAX,
    ensures
        ({
            let a = entered_app(s.procs, s.appid->Some_0);
            let n = s.log.len() as int;
            let sb = s.source_buffer->Some_0;
            &&& s.source_buffer is Some
            &&& a.key matches Some(key) && a.iv matches Some(iv) && a.source matches Some(
                data,
            ) && {
                &&& t.log.len() >= n + 5
                &&& t.log[n] == HwCall::Enable
                &&& t.log[n + 1] matches HwCall::SetMode { op: o, result } && o
                    == a.aes_operation->Some_0 && result is Ok
                &&& t.log[n + 2] matches HwCall::SetKey { ccm, key: k, result } && {
                    &&& !ccm
                    &&& result is Ok
                    &&& k.len() == sb.len()
                    &&& forall|j: int|
                        0 <= j < min_len(sb.len() as int, key.len() as int) ==> #[trigger] k[j]
                            == key[j]
                }
                &&& t.log[n + 3] matches HwCall::SetIv { iv: v, result } && {
                    &&& result is Ok
                    &&& v.len() == sb.len()
                    &&& forall|j: int|
                        0 <= j < min_len(sb.len() as int, iv.len() as int) ==> #[trigger] v[j]
                            == iv[j]
                }
                &&& t.log[n + 4] matches HwCall::Crypt { source: src, dest, start, stop, .. } && {
                    &&& start == 0
                    &&& stop == AES128_BLOCK_SIZE
                    &&& dest == s.dest_buffer->Some_0
                    &&& src.len() == sb.len()
                    &&& forall|j: int|
                        0 <= j < min_len(sb.len() as int, data.len() as int) ==> #[trigger] src[j]
                            == data[j]
                }
                &&& t.data_copied == min_len(sb.len() as int, data.len() as int)
            }
        }),
{
    let a = entered_app(s.procs, s.appid->Some_0);
    let sb = s.source_buffer->Some_0;
    let b1 = loaded(s.source_buffer, a.key);
    let b2 = loaded(Some(b1), a.iv);
    let b3 = loaded(Some(b2), a.source);
    law_stage_contents(sb, a.key->Some_0);
    law_stage_contents(b1, a.iv->Some_0);
    law_stage_contents(b2, a.source->Some_0);
    let p = s.appid->Some_0;
    let m = DriverView { procs: entered(s.procs, p), log: s.log.push(HwCall::Enable), ..s };
    assert(app_of(m.procs, p) == a);
    let n = s.log.len() as int;
    assert(answer(t.log, n + 1) is Ok);
    assert(answer(t.log, n + 2) is Ok);
    assert(answer(t.log, n + 3) is Ok);
    assert(t.log[n + 1] == HwCall::SetMode { op: a.aes_operation->Some_0, result: answer(t.log, n + 1) });
    assert(t.log[n + 2] == HwCall::SetKey { ccm: false, key: b1, result: answer(t.log, n + 2) });
    assert(t.log[n + 3] == HwCall::SetIv { iv: b2, result: answer(t.log, n + 3) });
    assert(t.log[n + 4] matches HwCall::Crypt { source: src, .. } && src == b3);
    assert(t.log[n + 4] matches HwCall::Crypt { dest, .. } && dest == s.dest_buffer->Some_0);
    assert(b3.len() == sb.len());
    assert(t.data_copied == min_len(sb.len() as int, a.source->Some_0.len() as int));
}

/// Setting up a CCM operation that succeeds makes these hardware calls, in
/// order: enable; the key (the static buffer, starting with the owner's
/// key); the nonce (the first 13 bytes of the static buffer, starting with
/// the owner's nonce); and the CCM operation on the destination buffer,
/// which starts with the owner's data. The count of data copied is the
/// length of that data prefix.
pub proof fn law_ccm_setup_calls(s: DriverView, t: DriverView, r: Result<(), ErrorCode>)
    requires
        run_post(s, t, r),
        r is Ok,
        s.appid is Some,
        enter_error(s.procs, s.appid->Some_0) is None,
        entered_app(s.procs, s.appid->Some_0).aes_operation matches Some(op) && op is AES128CCM,
        s.source_buffer matches Some(sb) && sb.len() >= CCM_NONCE_LENGTH,
        shared_len(s.dest_buffer) <= usize::MAX,
    ensures
        ({
            let a = entered_app(s.procs, s.appid->Some_0);
            let n = s.log.len() as int;
            let sb = s.source_buffer->Some_0;
            let db = s.dest_buffer->Some_0;
            &&& s.dest_buffer is Some
            &&& a.key matches Some(key) && a.iv matches Some(iv) && a.source matches Some(
                data,
            ) && {
                &&& t.log.len() == n + 4
                &&& t.log[n] == HwCall::Enable
                &&& t.log[n + 1] matches HwCall::SetKey { ccm, key: k, result } && {
                    &&& ccm
                    &&& result is Ok
                    &&& k.len() == sb.len()
                    &&& forall|j: int|
                        0 <= j < min_len(sb.len() as int, key.len() as int) ==> #[trigger] k[j]
                            == key[j]
                }
                &&& t.log[n + 2] matches HwCall::SetNonce { nonce, result } && {
                    &&& result is Ok
                    &&& nonce.len() == CCM_NONCE_LENGTH
                    &&& forall|j: int|
                        0 <= j < min_len(CCM_NONCE_LENGTH as int, iv.len() as int) ==> #[trigger] nonce[j] == iv[j]
                }
                &&& t.log[n + 3] matches HwCall::CcmCrypt { buf, error, .. } && {
                    &&& error is None
                    &&& buf.len() == db.len()
                    &&& forall|j: int|
                        0 <= j < min_len(db.len() as int, data.len() as int) ==> #[trigger] buf[j]
                            == data[j]
                }
                &&& t.data_copied == min_len(db.len() as int, data.len() as int)
            }
        }),
{
    let a = entered_app(s.procs, s.appid->Some_0);
    let sb = s.source_buffer->Some_0;
    let b1 = loaded(s.source_buffer, a.key);
    let b2 = loaded(Some(b1), a.iv);
    law_stage_contents(sb, a.key->Some_0);
    law_stage_contents(b1, a.iv->Some_0);
    law_stage_contents(s.dest_buffer->Some_0, a.source->Some_0);
}

/// `crypt` (command 3) by the owner copies the start of its data into the
/// source buffer and starts the hardware on it: with no data shared upcall
/// 0 reports `RESERVE`, with no source buffer held `NOMEM`, and nothing
/// reaches the hardware. In a block mode the next call hands the hardware
/// the source buffer starting with the data; once taken, the count of data
/// copied is the length of that prefix and no upcall is scheduled.
pub proof fn law_crypt_command(
    s: DriverView,
    t: DriverView,
    d1: usize,
    d2: usize,
    appid: ProcessId,
    r: CommandReturn,
)
    requires
        command_post(s, t, 3, d1, d2, appid, r),
        app_match(s, appid),
        enter_error(s.procs, appid) is None,
        shared_len(s.source_buffer) <= usize::MAX,
    ensures
        r == CommandReturn::Success,
        ({
            let a = entered_app(s.procs, appid);
            &&& a.source is None ==> {
                &&& t.upcalls == s.upcalls.push(
                    Upcall { pid: appid, num: 0, arg0: ErrorCode::RESERVE.code(), arg1: 0, arg2: 0 },
                )
                &&& t.log == s.log
            }
            &&& a.source is Some && s.source_buffer is None ==> {
                &&& t.upcalls == s.upcalls.push(
                    Upcall { pid: appid, num: 0, arg0: ErrorCode::NOMEM.code(), arg1: 0, arg2: 0 },
                )
                &&& t.log == s.log
            }
            &&& a.source is Some && s.source_buffer is Some && a.aes_operation is Some && !(
            a.aes_operation->Some_0 is AES128CCM) ==> {
                let data = a.source->Some_0;
                let sb = s.source_buffer->Some_0;
                &&& t.log.len() > s.log.len()
                &&& t.log[s.log.len() as int] matches HwCall::Crypt { source: c, refused, .. }
                    && {
                    &&& c.len() == sb.len()
                    &&& forall|j: int|
                        0 <= j < min_len(sb.len() as int, data.len() as int) ==> #[trigger] c[j]
                            == data[j]
                    &&& refused is None ==> {
                        &&& t.data_copied == min_len(sb.len() as int, data.len() as int)
                        &&& t.upcalls == s.upcalls
                    }
                }
            }
        }),
{
    if let Some(o) = s.appid {
        lemma_enter_twice(s.procs, o);
    }
    let c = checked(s);
    assert(entered_app(c.procs, appid) == entered_app(s.procs, appid));
    let a = entered_app(s.procs, appid);
    if a.source is Some && s.source_buffer is Some {
        law_stage_contents(s.source_buffer->Some_0, a.source->Some_0);
        let ce = DriverView { procs: entered(c.procs, appid), ..c };
        let m = DriverView {
            source_buffer: Some(loaded(ce.source_buffer, a.source)),
            data_copied: min_len(
                ce.source_buffer->Some_0.len() as int,
                shared_len(a.source) as int,
            ) as usize,
            ..ce
        };
        let (u, r1) = choose|u: DriverView, r1: Result<(), ErrorCode>|
            {
                &&& output_post(
                    m,
                    u,
                    a.aes_operation->Some_0,
                    a.aoff,
                    a.moff,
                    a.mlen,
                    a.mic_len,
                    a.confidential,
                    r1,
                )
                &&& match r1 {
                    Ok(()) => t == u,
                    Err(e) => t == DriverView {
                        upcalls: u.upcalls.push(
                            Upcall { pid: appid, num: 0, arg0: e.code(), arg1: 0, arg2: 0 },
                        ),
                        ..u
                    },
                }
            };
    }
}

/// Sharing the destination buffer sets only that buffer: every other
/// setting of the process stays as it was.
pub proof fn law_allow_readwrite_sets(
    s: Seq<EntryView>,
    t: Seq<EntryView>,
    pid: ProcessId,
    slice: Option<Seq<u8>>,
    r: Result<ProcessBuffer, (ProcessBuffer, ErrorCode)>,
)
    requires
        allow_post(
            s,
            t,
            pid,
            true,
            slice,
            entered_app(s, pid).dest,
            AppView { dest: slice, ..entered_app(s, pid) },
            r,
        ),
        r is Ok,
    ensures
        has_app(t, pid),
        ({
            let a = entered_app(s, pid);
            let b = app_of(t, pid);
            &&& b.dest == slice
            &&& b.key == a.key
            &&& b.iv == a.iv
            &&& b.source == a.source
            &&& b.mlen == a.mlen
            &&& b.aes_operation == a.aes_operation
            &&& b.pending_run_app == a.pending_run_app
            &&& b.aoff == a.aoff
            &&& b.moff == a.moff
            &&& b.mic_len == a.mic_len
            &&& b.confidential == a.confidential
        }),
{
}

} // verus!
