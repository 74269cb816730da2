use vstd::prelude::*;

use crate::driver::{
    lemma_kept_by_enter, lemma_kept_by_update,
    queue_safe, requests_own, run_safe, wf, AesDriver,
    DriverView, lemma_requests_kept,
};
use crate::error::{into_statuscode, CommandReturn, ErrorCode, ProcessError};
use crate::grant::{
    app_of, entered, entered_app, enter_error, lemma_enter_twice, with_app, shared_len,
    AesOperation, AppView, EntryView, ProcessBuffer, ProcessId, Upcall,
};
use crate::hil::{AesEngine, HwCall};
use crate::queue::{check_queue_post, lemma_run_failed};
use crate::setup::{load_error, load_source, loaded, output_post, run_post};
use crate::bytes::min_len;

verus! {

/// What sharing buffer contents `slice` in place of `old_buffer` of `pid`
/// does to the process table `s`: the replaced buffer comes back, or on
/// failure the offered buffer with the error. `replaced` is the state of
/// `pid` with the new buffer in place.
pub open spec fn allow_post(
    s: Seq<EntryView>,
    t: Seq<EntryView>,
    pid: ProcessId,
    supported: bool,
    slice: Option<Seq<u8>>,
    old_buffer: Option<Seq<u8>>,
    replaced: AppView,
    r: Result<ProcessBuffer, (ProcessBuffer, ErrorCode)>,
) -> bool {
    if !supported {
        r matches Err((b, e)) && b@ == slice && e == ErrorCode::NOSUPPORT && t == s
    } else if enter_error(s, pid) is Some {
        r matches Err((b, e)) && b@ == slice && e == ErrorCode::FAIL && t == s
    } else {
        r matches Ok(b) && b@ == old_buffer && t == with_app(entered(s, pid), pid, replaced)
    }
}

/// The read-only buffer number `n` of `a`.
pub open spec fn readonly_buffer(a: AppView, n: usize) -> Option<Seq<u8>> {
    if n == 0 {
        a.key
    } else if n == 1 {
        a.iv
    } else {
        a.source
    }
}

/// `a` with `b` shared as read-only buffer number `n`; sharing the data
/// sets the CCM message length to its length.
pub open spec fn with_readonly(a: AppView, n: usize, b: Option<Seq<u8>>) -> AppView {
    if n == 0 {
        AppView { key: b, ..a }
    } else if n == 1 {
        AppView { iv: b, ..a }
    } else {
        AppView { source: b, mlen: shared_len(b) as usize, ..a }
    }
}

impl<H: AesEngine> AesDriver<H> {
    /// Allocates the grant of `processid` if it has none yet.
    pub fn allocate_grant(&mut self, processid: ProcessId) -> (r: Result<(), ProcessError>)
        requires
            wf(old(self)@),
        ensures
            wf(final(self)@),
            r == match enter_error(old(self)@.procs, processid) {
                Some(e) => Err::<(), ProcessError>(e),
                None => Ok(()),
            },
            final(self)@ == (DriverView { procs: entered(old(self)@.procs, processid), ..old(self)@ }),
    {
        self.apps.enter(processid)
    }

    /// Shares a read-write buffer: number 0 is where results go.
    pub fn allow_readwrite(&mut self, appid: ProcessId, allow_num: usize, slice: ProcessBuffer) -> (r:
        Result<ProcessBuffer, (ProcessBuffer, ErrorCode)>)
        requires
            wf(old(self)@),
        ensures
            wf(final(self)@),
            final(self)@ == (DriverView { procs: final(self)@.procs, ..old(self)@ }),
            allow_post(
                old(self)@.procs,
                final(self)@.procs,
                appid,
                allow_num == 0,
                slice@,
                entered_app(old(self)@.procs, appid).dest,
                AppView { dest: slice@, ..entered_app(old(self)@.procs, appid) },
                r,
            ),
    {
        if allow_num != 0 {
            return Err((slice, ErrorCode::NOSUPPORT));
        }
        match self.apps.enter(appid) {
            Err(_) => Err((slice, ErrorCode::FAIL)),
            Ok(()) => {
                let ghost mid = self.apps@;
                let mut app = self.apps.take_app(appid);
                let mut slice = slice;
                std::mem::swap(&mut app.dest, &mut slice);
                let ghost av = app@;
                self.apps.put_app(appid, app);
                assert(self.apps@ =~= with_app(mid, appid, av));
                Ok(slice)
            },
        }
    }

    /// Shares a read-only buffer: number 0 is the key, 1 the IV (or the
    /// CCM nonce), 2 the data to process, whose length becomes the CCM
    /// message length.
    pub fn allow_readonly(&mut self, appid: ProcessId, allow_num: usize, slice: ProcessBuffer) -> (r:
        Result<ProcessBuffer, (ProcessBuffer, ErrorCode)>)
        requires
            wf(old(self)@),
        ensures
            wf(final(self)@),
            final(self)@ == (DriverView { procs: final(self)@.procs, ..old(self)@ }),
            allow_post(
                old(self)@.procs,
                final(self)@.procs,
                appid,
                allow_num <= 2,
                slice@,
                readonly_buffer(entered_app(old(self)@.procs, appid), allow_num),
                with_readonly(entered_app(old(self)@.procs, appid), allow_num, slice@),
                r,
            ),
    {
        if allow_num > 2 {
            return Err((slice, ErrorCode::NOSUPPORT));
        }
        match self.apps.enter(appid) {
            Err(_) => Err((slice, ErrorCode::FAIL)),
            Ok(()) => {
                let ghost mid = self.apps@;
                let mut app = self.apps.take_app(appid);
                let mut slice = slice;
                if allow_num == 0 {
                    std::mem::swap(&mut app.key, &mut slice);
                } else if allow_num == 1 {
                    std::mem::swap(&mut app.iv, &mut slice);
                } else {
                    std::mem::swap(&mut app.source, &mut slice);
                    app.mlen = app.source.len();
                }
                let ghost av = app@;
                self.apps.put_app(appid, app);
                assert(self.apps@ =~= with_app(mid, appid, av));
                Ok(slice)
            },
        }
    }
}

/// Whether the owner lets `appid` use the driver, as the driver checks it:
/// while an operation is active only the owner itself; otherwise the owner
/// itself, or anyone when the owner's grant cannot be entered any more.
pub open spec fn owner_allows(s: DriverView, owner: ProcessId, appid: ProcessId) -> bool {
    if s.active {
        owner == appid
    } else {
        enter_error(s.procs, owner) is Some || owner == appid
    }
}

/// Whether `appid` may start an operation now: no owner, or the owner
/// allows it.
pub open spec fn match_or_empty(s: DriverView, appid: ProcessId) -> bool {
    match s.appid {
        None => true,
        Some(owner) => owner_allows(s, owner, appid),
    }
}

/// Whether `appid` may continue or finish the current operation.
pub open spec fn app_match(s: DriverView, appid: ProcessId) -> bool {
    match s.appid {
        None => false,
        Some(owner) => owner_allows(s, owner, appid),
    }
}

/// The state after the ownership check: looking at the owner enters its
/// grant unless an operation is active.
pub open spec fn checked(s: DriverView) -> DriverView {
    match s.appid {
        Some(owner) => if s.active {
            s
        } else {
            DriverView { procs: entered(s.procs, owner), ..s }
        },
        None => s,
    }
}

/// The operation that `set_algorithm` selects with argument `n`.
pub open spec fn operation(n: usize, encrypting: bool) -> AesOperation {
    if n == 0 {
        AesOperation::AES128Ctr(encrypting)
    } else if n == 1 {
        AesOperation::AES128CBC(encrypting)
    } else if n == 2 {
        AesOperation::AES128ECB(encrypting)
    } else {
        AesOperation::AES128CCM(encrypting)
    }
}

/// `a` after command `n` (5 to 8) with argument `data`: the CCM header
/// offset, message offset, tag length, or whether the message is
/// confidential.
pub open spec fn with_parameter(a: AppView, n: usize, data: usize) -> AppView {
    if n == 5 {
        AppView { aoff: data, ..a }
    } else if n == 6 {
        AppView { moff: data, ..a }
    } else if n == 7 {
        AppView { mic_len: data, ..a }
    } else {
        AppView { confidential: data > 0, ..a }
    }
}

/// A `crypt` command of the owner with state `a` cannot panic: with its
/// data shared and the source buffer held, it has an operation and the
/// destination buffer is held.
pub open spec fn crypt_safe(a: AppView, sb: Option<Seq<u8>>, db: Option<Seq<u8>>) -> bool {
    a.source is Some && sb is Some ==> a.aes_operation is Some && db is Some
}

/// When the command cannot panic: the calls it makes must find the grant
/// of `appid`, and the starts it makes must be safe.
pub open spec fn command_safe(s: DriverView, command_num: usize, appid: ProcessId) -> bool {
    let c = checked(s);
    &&& command_num == 2 && match_or_empty(s, appid) ==> {
        &&& run_safe(DriverView { appid: Some(appid), ..c }, appid)
        &&& queue_safe(c.procs, c.source_buffer, c.dest_buffer)
    }
    &&& command_num == 3 && app_match(s, appid) ==> {
        &&& enter_error(c.procs, appid) is None
        &&& crypt_safe(entered_app(c.procs, appid), c.source_buffer, c.dest_buffer)
    }
    &&& command_num == 4 && app_match(s, appid) ==> {
        &&& enter_error(c.procs, appid) is None
        &&& queue_safe(c.procs, c.source_buffer, c.dest_buffer)
    }
    &&& 5 <= command_num <= 8 ==> {
        &&& enter_error(c.procs, appid) is None
        &&& s.appid is None ==> queue_safe(c.procs, c.source_buffer, c.dest_buffer)
    }
}

/// What `crypt` does for the owner `appid` from `c` (its grant entered):
/// the next data is loaded into the source buffer and the hardware
/// started; an error is reported to the process by upcall 0.
pub open spec fn crypt_post(c: DriverView, t: DriverView, appid: ProcessId) -> bool {
    let a = app_of(c.procs, appid);
    match load_error(c.source_buffer, a.source) {
        Some(e) => t == DriverView {
            upcalls: c.upcalls.push(Upcall { pid: appid, num: 0, arg0: e.code(), arg1: 0, arg2: 0 }),
            ..c
        },
        None => {
            let m = DriverView {
                source_buffer: Some(loaded(c.source_buffer, a.source)),
                data_copied: min_len(
                    c.source_buffer->Some_0.len() as int,
                    shared_len(a.source) as int,
                ) as usize,
                ..c
            };
            exists|u: DriverView, r: Result<(), ErrorCode>|
                {
                    &&& output_post(
                        m,
                        u,
                        a.aes_operation->Some_0,
                        a.aoff,
                        a.moff,
                        a.mlen,
                        a.mic_len,
                        a.confidential,
                        r,
                    )
                    &&& match r {
                        Ok(()) => t == u,
                        Err(e) => t == DriverView {
                            upcalls: u.upcalls.push(
                                Upcall { pid: appid, num: 0, arg0: e.code(), arg1: 0, arg2: 0 },
                            ),
                            ..u
                        },
                    }
                }
        },
    }
}

/// What `setup` does when `appid` may start: it becomes the owner and its
/// operation is started; if that fails, the hardware is disabled, the
/// owner released and the queue looked at.
pub open spec fn setup_now_post(c: DriverView, t: DriverView, appid: ProcessId, r: CommandReturn) -> bool {
    exists|m: DriverView, r1: Result<(), ErrorCode>|
        {
            &&& run_post(DriverView { appid: Some(appid), ..c }, m, r1)
            &&& match r1 {
                Ok(()) => r == CommandReturn::Success && t == m,
                Err(e) => r == CommandReturn::Failure(e) && check_queue_post(
                    DriverView { appid: None, log: m.log.push(HwCall::Disable), ..m },
                    t,
                ),
            }
        }
}

/// What `set_algorithm` (command 1) with arguments `data1`, `data2` does
/// for `appid`, from `c` to `t`.
pub open spec fn set_algorithm_post(
    c: DriverView,
    t: DriverView,
    data1: usize,
    data2: usize,
    appid: ProcessId,
    r: CommandReturn,
) -> bool {
    let ce = DriverView { procs: entered(c.procs, appid), ..c };
    let a = entered_app(c.procs, appid);
    if enter_error(c.procs, appid) is Some {
        r == CommandReturn::Failure(enter_error(c.procs, appid)->Some_0.error_code()) && t == c
    } else if data1 <= 3 {
        r == CommandReturn::Success && t == DriverView {
            procs: with_app(
                ce.procs,
                appid,
                AppView { aes_operation: Some(operation(data1, data2 != 0)), ..a },
            ),
            ..c
        }
    } else {
        r == CommandReturn::Failure(ErrorCode::NOSUPPORT) && t == ce
    }
}

/// What `setup` (command 2) does for `appid`, from `c` to `t`: start now
/// when `may_start`, else queue the request unless one is queued already.
pub open spec fn setup_cmd_post(
    c: DriverView,
    t: DriverView,
    may_start: bool,
    appid: ProcessId,
    r: CommandReturn,
) -> bool {
    let ce = DriverView { procs: entered(c.procs, appid), ..c };
    let a = entered_app(c.procs, appid);
    if may_start {
        setup_now_post(c, t, appid, r)
    } else if enter_error(c.procs, appid) is Some {
        r == CommandReturn::Failure(enter_error(c.procs, appid)->Some_0.error_code()) && t == c
    } else if a.pending_run_app is Some {
        r == CommandReturn::Failure(ErrorCode::NOMEM) && t == ce
    } else {
        r == CommandReturn::Success && t == DriverView {
            procs: with_app(ce.procs, appid, AppView { pending_run_app: Some(appid), ..a }),
            ..c
        }
    }
}

/// What `finish` (command 4) does for the owner `appid`, from `c` to `t`:
/// the hardware is disabled, the owner released and the queue looked at.
pub open spec fn finish_post(c: DriverView, t: DriverView, appid: ProcessId) -> bool {
    check_queue_post(
        DriverView {
            procs: entered(c.procs, appid),
            appid: None,
            log: c.log.push(HwCall::Disable),
            ..c
        },
        t,
    )
}

/// What commands 5 to 8 do for `appid`, from `c` to `t`: the parameter is
/// set and the queue looked at.
pub open spec fn set_parameter_post(
    c: DriverView,
    t: DriverView,
    command_num: usize,
    data1: usize,
    appid: ProcessId,
) -> bool {
    check_queue_post(
        DriverView {
            procs: with_app(
                entered(c.procs, appid),
                appid,
                with_parameter(entered_app(c.procs, appid), command_num, data1),
            ),
            ..c
        },
        t,
    )
}

/// What command `command_num` of `appid` with arguments `data1`, `data2`
/// does, from `s` to `t` with result `r`. The ownership check comes first
/// and may enter the owner's grant (`checked`).
pub open spec fn command_post(
    s: DriverView,
    t: DriverView,
    command_num: usize,
    data1: usize,
    data2: usize,
    appid: ProcessId,
    r: CommandReturn,
) -> bool {
    let c = checked(s);
    if command_num == 0 {
        r == CommandReturn::Success && t == c
    } else if command_num == 1 {
        set_algorithm_post(c, t, data1, data2, appid, r)
    } else if command_num == 2 {
        setup_cmd_post(c, t, match_or_empty(s, appid), appid, r)
    } else if command_num == 3 {
        if app_match(s, appid) {
            r == CommandReturn::Success && crypt_post(
                DriverView { procs: entered(c.procs, appid), ..c },
                t,
                appid,
            )
        } else {
            r == CommandReturn::Failure(ErrorCode::OFF) && t == c
        }
    } else if command_num == 4 {
        if app_match(s, appid) {
            r == CommandReturn::Success && finish_post(c, t, appid)
        } else {
            r == CommandReturn::Failure(ErrorCode::OFF) && t == c
        }
    } else if command_num <= 8 {
        r == CommandReturn::Success && set_parameter_post(c, t, command_num, data1, appid)
    } else {
        r == CommandReturn::Failure(ErrorCode::NOSUPPORT) && t == c
    }
}

impl<H: AesEngine> AesDriver<H> {
    /// Checks whether the owner lets `appid` use the driver.
    fn check_owner(&mut self, appid: ProcessId) -> (ok: bool)
        requires
            old(self).appid is Some,
        ensures
            ok == owner_allows(old(self)@, old(self).appid->Some_0, appid),
            final(self)@ == checked(old(self)@),
    {
        let owner = match self.appid {
            Some(o) => o,
            None => appid,
        };
        if self.active {
            owner == appid
        } else {
            match self.apps.enter(owner) {
                Ok(()) => owner == appid,
                Err(_) => true,
            }
        }
    }

    /// Selects the algorithm: 0 CTR, 1 CBC, 2 ECB, 3 CCM, encrypting when
    /// `data2` is not zero.
    fn set_algorithm(&mut self, data1: usize, data2: usize, appid: ProcessId) -> (r: CommandReturn)
        requires
            wf(old(self)@),
        ensures
            wf(final(self)@),
            set_algorithm_post(old(self)@, final(self)@, data1, data2, appid, r),
    {
        match self.apps.enter(appid) {
            Err(e) => return CommandReturn::from_process_error(e),
            Ok(()) => {},
        }
        if data1 > 3 {
            return CommandReturn::failure(ErrorCode::NOSUPPORT);
        }
        let encrypting = data2 != 0;
        let op = if data1 == 0 {
            AesOperation::AES128Ctr(encrypting)
        } else if data1 == 1 {
            AesOperation::AES128CBC(encrypting)
        } else if data1 == 2 {
            AesOperation::AES128ECB(encrypting)
        } else {
            AesOperation::AES128CCM(encrypting)
        };
        let ghost mid = self.apps@;
        let mut app = self.apps.take_app(appid);
        app.aes_operation = Some(op);
        let ghost av = app@;
        self.apps.put_app(appid, app);
        assert(self.apps@ =~= with_app(mid, appid, av));
        assert(requests_own(self@.procs));
        CommandReturn::success()
    }

    /// Sets up and starts an operation, or queues the request.
    fn setup(&mut self, may_start: bool, appid: ProcessId) -> (r: CommandReturn)
        requires
            wf(old(self)@),
            may_start ==> {
                &&& run_safe(DriverView { appid: Some(appid), ..old(self)@ }, appid)
                &&& queue_safe(old(self)@.procs, old(self)@.source_buffer, old(self)@.dest_buffer)
            },
        ensures
            wf(final(self)@),
            setup_cmd_post(old(self)@, final(self)@, may_start, appid, r),
    {
        let ghost c = self@;
        if may_start {
            self.appid = Some(appid);
            let ghost pre = self@;
            let ret = self.run();
            match ret {
                Err(e) => {
                    let ghost m = self@;
                    proof {
                        lemma_run_failed(pre, m, ret);
                        lemma_requests_kept(
                            pre.procs,
                            m.procs,
                            pre.source_buffer,
                            pre.dest_buffer,
                            m.source_buffer,
                            m.dest_buffer,
                        );
                    }
                    self.aes.disable();
                    self.appid = None;
                    self.check_queue();
                    assert(setup_now_post(c, self@, appid, CommandReturn::Failure(e)));
                    CommandReturn::failure(e)
                },
                Ok(()) => {
                    proof {
                        lemma_kept_by_enter(pre.procs, appid);
                        lemma_requests_kept(
                            pre.procs,
                            self@.procs,
                            pre.source_buffer,
                            pre.dest_buffer,
                            pre.source_buffer,
                            pre.dest_buffer,
                        );
                    }
                    assert(setup_now_post(c, self@, appid, CommandReturn::Success));
                    CommandReturn::success()
                },
            }
        } else {
            match self.apps.enter(appid) {
                Err(e) => return CommandReturn::from_process_error(e),
                Ok(()) => {},
            }
            let ghost mid = self.apps@;
            let mut app = self.apps.take_app(appid);
            if app.pending_run_app.is_some() {
                self.apps.put_app(appid, app);
                assert(self.apps@ =~= mid);
                return CommandReturn::failure(ErrorCode::NOMEM);
            }
            app.pending_run_app = Some(appid);
            let ghost av = app@;
            self.apps.put_app(appid, app);
            assert(self.apps@ =~= with_app(mid, appid, av));
            assert(requests_own(self@.procs));
            CommandReturn::success()
        }
    }

    /// Loads the next data of the owner and starts the hardware on it; an
    /// error is reported by upcall.
    fn crypt(&mut self, appid: ProcessId) -> (r: CommandReturn)
        requires
            wf(old(self)@),
            enter_error(old(self)@.procs, appid) is None,
            crypt_safe(
                entered_app(old(self)@.procs, appid),
                old(self)@.source_buffer,
                old(self)@.dest_buffer,
            ),
        ensures
            wf(final(self)@),
            r == CommandReturn::Success,
            crypt_post(
                DriverView { procs: entered(old(self)@.procs, appid), ..old(self)@ },
                final(self)@,
                appid,
            ),
    {
        match self.apps.enter(appid) {
            Ok(()) => {},
            Err(_) => {
                proof {
                    assert(false);
                }
                return CommandReturn::success();
            },
        }
        let ghost ce = self@;
        let ghost a = app_of(ce.procs, appid);
        let app = self.apps.app_ref(appid);
        let ret = load_source(&mut self.source_buffer, &mut self.data_copied, &app.source);
        if let Err(e) = ret {
            let code = into_statuscode(Err(e));
            self.schedule_upcall(appid, 0, code, 0, 0);
            return CommandReturn::success();
        }
        let ghost m = self@;
        let op = app.aes_operation.unwrap();
        let aoff = app.aoff;
        let moff = app.moff;
        let mlen = app.mlen;
        let mic_len = app.mic_len;
        let confidential = app.confidential;
        let ret = self.calculate_output(op, aoff, moff, mlen, mic_len, confidential);
        let ghost u = self@;
        if let Err(e) = ret {
            let code = into_statuscode(Err(e));
            self.schedule_upcall(appid, 0, code, 0, 0);
        }
        assert(output_post(m, u, a.aes_operation->Some_0, a.aoff, a.moff, a.mlen, a.mic_len, a.confidential, ret));
        assert(crypt_post(ce, self@, appid));
        CommandReturn::success()
    }

    /// Finishes the operation of the owner and looks for a queued request.
    fn finish(&mut self, appid: ProcessId) -> (r: CommandReturn)
        requires
            wf(old(self)@),
            enter_error(old(self)@.procs, appid) is None,
            queue_safe(old(self)@.procs, old(self)@.source_buffer, old(self)@.dest_buffer),
        ensures
            wf(final(self)@),
            r == CommandReturn::Success,
            finish_post(old(self)@, final(self)@, appid),
    {
        let ghost c = self@;
        match self.apps.enter(appid) {
            Ok(()) => {},
            Err(_) => {
                proof {
                    assert(false);
                }
                return CommandReturn::success();
            },
        }
        proof {
            lemma_kept_by_enter(c.procs, appid);
            lemma_requests_kept(
                c.procs,
                self@.procs,
                c.source_buffer,
                c.dest_buffer,
                c.source_buffer,
                c.dest_buffer,
            );
        }
        self.aes.disable();
        self.appid = None;
        self.check_queue();
        CommandReturn::success()
    }

    /// Sets a CCM parameter (commands 5 to 8) and looks for a queued
    /// request.
    fn set_parameter(&mut self, command_num: usize, data1: usize, appid: ProcessId) -> (r:
        CommandReturn)
        requires
            wf(old(self)@),
            5 <= command_num <= 8,
            enter_error(old(self)@.procs, appid) is None,
            old(self)@.appid is None ==> queue_safe(
                old(self)@.procs,
                old(self)@.source_buffer,
                old(self)@.dest_buffer,
            ),
        ensures
            wf(final(self)@),
            r == CommandReturn::Success,
            set_parameter_post(old(self)@, final(self)@, command_num, data1, appid),
    {
        let ghost c = self@;
        match self.apps.enter(appid) {
            Ok(()) => {},
            Err(_) => {
                proof {
                    assert(false);
                }
                return CommandReturn::success();
            },
        }
        let ghost mid = self.apps@;
        let mut app = self.apps.take_app(appid);
        if command_num == 5 {
            app.aoff = data1;
        } else if command_num == 6 {
            app.moff = data1;
        } else if command_num == 7 {
            app.mic_len = data1;
        } else {
            app.confidential = data1 > 0;
        }
        let ghost av = app@;
        self.apps.put_app(appid, app);
        assert(self.apps@ =~= with_app(mid, appid, av));
        proof {
            lemma_kept_by_enter(c.procs, appid);
            lemma_kept_by_update(mid, appid, av);
            lemma_requests_kept(
                c.procs,
                mid,
                c.source_buffer,
                c.dest_buffer,
                c.source_buffer,
                c.dest_buffer,
            );
            lemma_requests_kept(
                mid,
                self@.procs,
                c.source_buffer,
                c.dest_buffer,
                c.source_buffer,
                c.dest_buffer,
            );
        }
        self.check_queue();
        CommandReturn::success()
    }

    /// Handles command `command_num` of process `appid`: 0 checks that the
    /// driver is present, 1 selects the algorithm, 2 sets up and starts an
    /// operation (or queues the request while another process owns the
    /// driver), 3 processes the next data, 4 finishes the operation, 5 to 8
    /// set the CCM parameters.
    pub fn command(&mut self, command_num: usize, data1: usize, data2: usize, appid: ProcessId) -> (r:
        CommandReturn)
        requires
            wf(old(self)@),
            command_safe(old(self)@, command_num, appid),
        ensures
            wf(final(self)@),
            command_post(old(self)@, final(self)@, command_num, data1, data2, appid, r),
    {
        let ghost s = self@;
        let match_or_empty = match self.appid {
            None => true,
            Some(_) => self.check_owner(appid),
        };
        let ghost c = self@;
        let app_match = match self.appid {
            None => false,
            Some(_) => self.check_owner(appid),
        };
        proof {
            if s.appid is Some && !s.active {
                lemma_enter_twice(s.procs, s.appid->Some_0);
            }
            lemma_kept_by_enter(s.procs, s.appid->Some_0);
            lemma_requests_kept(s.procs, c.procs, s.source_buffer, s.dest_buffer, s.source_buffer, s.dest_buffer);
        }
        assert(self@ == c);
        if command_num == 0 {
            CommandReturn::success()
        } else if command_num == 1 {
            self.set_algorithm(data1, data2, appid)
        } else if command_num == 2 {
            self.setup(match_or_empty, appid)
        } else if command_num == 3 {
            if app_match {
                self.crypt(appid)
            } else {
                CommandReturn::failure(ErrorCode::OFF)
            }
        } else if command_num == 4 {
            if app_match {
                self.finish(appid)
            } else {
                CommandReturn::failure(ErrorCode::OFF)
            }
        } else if command_num <= 8 {
            self.set_parameter(command_num, data1, appid)
        } else {
            CommandReturn::failure(ErrorCode::NOSUPPORT)
        }
    }
}

} // verus!
