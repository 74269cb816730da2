use vstd::prelude::*;

use crate::bytes::{copied_back, copy_back, copy_back_fits, load_next, min_len, next_chunk};
use crate::driver::{
    lemma_kept_by_enter, lemma_kept_by_update, lemma_requests_kept, queue_safe, wf, AesDriver, DriverView,
};
use crate::error::{into_statuscode, ErrorCode, ProcessError};
use crate::grant::{
    has_app, app_of, entered, entered_app, enter_error, shared_len, with_app, AppView, ProcessId, Upcall,
};
use crate::hil::{AesEngine, HwCall};
use crate::queue::check_queue_post;
use crate::setup::output_post;

verus! {

/// Upcall 0 to `pid` with the given arguments.
pub open spec fn upcall0(pid: ProcessId, arg0: usize, arg1: usize, arg2: usize) -> Upcall {
    Upcall { pid, num: 0, arg0, arg1, arg2 }
}

/// Whether the owner's grant was found gone, which releases the owner.
pub open spec fn releases_owner(e: ProcessError) -> bool {
    e == ProcessError::NoSuchApp || e == ProcessError::InactiveApp
}

/// The state of `s` once the hardware is back and a callback is for the
/// owner whose grant cannot be entered with error `e`.
pub open spec fn owner_gone(s: DriverView, e: ProcessError) -> DriverView {
    DriverView {
        appid: if releases_owner(e) {
            None
        } else {
            s.appid
        },
        ..s
    }
}

/// Where copying results back to the owner starts: past what was copied
/// before the last block.
pub open spec fn back_offset(copied: usize, block: int) -> int {
    copied - block
}

/// When a completed block operation cannot panic or overflow: results must
/// be copied back within the owner's buffer, and when more data is left the
/// count of copied data must fit and the next start must be safe.
pub open spec fn crypt_done_safe(s: DriverView, source: Seq<u8>, destination: Seq<u8>) -> bool {
    match s.appid {
        None => true,
        Some(id) => enter_error(s.procs, id) is Some || {
            let a = entered_app(s.procs, id);
            let offset = back_offset(
                s.data_copied,
                min_len(source.len() as int, shared_len(a.source) as int),
            );
            &&& a.dest matches Some(d) ==> copy_back_fits(
                d.len() as int,
                offset,
                min_len(source.len() as int, destination.len() as int),
            )
            &&& a.dest is Some && a.source is Some && source.len() > 0 && a.source->Some_0.len()
                > s.data_copied ==> {
                &&& s.data_copied + source.len() <= usize::MAX
                &&& a.aes_operation is Some
                &&& queue_safe(s.procs, Some(source), Some(destination))
            }
        },
    }
}

/// `s` after the owner `id` lost a process buffer the callback needed: the
/// hardware is disabled, the owner released, and upcall 0 reports `code`.
pub open spec fn missing_buffer(s: DriverView, id: ProcessId, code: usize) -> DriverView {
    DriverView {
        appid: None,
        log: s.log.push(HwCall::Disable),
        upcalls: s.upcalls.push(upcall0(id, code, 0, 0)),
        ..s
    }
}

/// `s` after the results in the destination buffer were copied back to the
/// owner `id`, `block` bytes at most, past what was copied before the last
/// block of `last` bytes.
pub open spec fn results_back(s: DriverView, id: ProcessId, last: int, block: int) -> DriverView {
    let a = app_of(s.procs, id);
    DriverView {
        procs: with_app(
            s.procs,
            id,
            AppView {
                dest: Some(
                    copied_back(
                        a.dest->Some_0,
                        s.dest_buffer->Some_0,
                        back_offset(s.data_copied, last),
                        block,
                    ),
                ),
                ..a
            },
        ),
        ..s
    }
}

/// What comes after the results of a block operation are back with the
/// owner `id`, from `s` to `t`: while data is left, the next chunk is
/// loaded into the source buffer and the hardware started on it (a refusal
/// with an error releases the owner, reports the error to it by upcall 0
/// and looks at the queue); otherwise upcall 0 reports
/// how much data was processed and the count starts over. An unshared data
/// buffer releases the owner with `RESERVE`.
pub open spec fn continue_post(s: DriverView, t: DriverView, id: ProcessId) -> bool {
    let a = app_of(s.procs, id);
    let sb = s.source_buffer->Some_0;
    match a.source {
        None => t == missing_buffer(s, id, ErrorCode::RESERVE.code()),
        Some(src) => {
            let s3 = DriverView {
                source_buffer: Some(next_chunk(sb, src, s.data_copied as int)),
                ..s
            };
            if sb.len() > 0 && src.len() > s.data_copied {
                let s4 = DriverView { data_copied: (s.data_copied + sb.len()) as usize, ..s3 };
                exists|u: DriverView, r: Result<(), ErrorCode>|
                    {
                        &&& output_post(
                            s4,
                            u,
                            a.aes_operation->Some_0,
                            a.aoff,
                            a.moff,
                            a.mlen,
                            a.mic_len,
                            a.confidential,
                            r,
                        )
                        &&& match r {
                            Ok(()) => t == u,
                            Err(e) => check_queue_post(
                                DriverView {
                                    appid: None,
                                    log: u.log.push(HwCall::Disable),
                                    upcalls: u.upcalls.push(upcall0(id, e.code(), 0, 0)),
                                    ..u
                                },
                                t,
                            ),
                        }
                    }
            } else {
                t == DriverView {
                    upcalls: s3.upcalls.push(upcall0(id, 0, s.data_copied, 0)),
                    data_copied: 0,
                    ..s3
                }
            }
        },
    }
}

/// What the completion of a block operation does, from `s` to `t`, with the
/// buffers `source` and `destination` back from the hardware: for the owner
/// the results are copied back (`results_back`) and the operation goes on
/// (`continue_post`); an unshared destination buffer releases the owner.
/// An owner whose grant is gone is released.
pub open spec fn crypt_done_post(s: DriverView, t: DriverView, source: Seq<u8>, destination: Seq<u8>) -> bool {
    let s1 = DriverView { source_buffer: Some(source), dest_buffer: Some(destination), ..s };
    match s.appid {
        None => t == s1,
        Some(id) => match enter_error(s.procs, id) {
            Some(e) => t == owner_gone(s1, e),
            None => {
                let se = DriverView { procs: entered(s.procs, id), ..s1 };
                let a = app_of(se.procs, id);
                if a.dest is None {
                    t == missing_buffer(se, id, ProcessError::NoSuchApp.code())
                } else {
                    continue_post(
                        results_back(
                            se,
                            id,
                            min_len(source.len() as int, shared_len(a.source) as int),
                            min_len(source.len() as int, destination.len() as int),
                        ),
                        t,
                        id,
                    )
                }
            },
        },
    }
}

impl<H: AesEngine> AesDriver<H> {
    /// Copies the results back to the owner `id`, at most `block` bytes,
    /// past what was copied before the last block of `last` bytes. Reports
    /// whether the owner has a destination buffer.
    fn deliver(&mut self, id: ProcessId, last: usize, block: usize) -> (copied: bool)
        requires
            has_app(old(self)@.procs, id),
            old(self)@.dest_buffer matches Some(b) && block <= b.len(),
            app_of(old(self)@.procs, id).dest matches Some(d) ==> copy_back_fits(
                d.len() as int,
                back_offset(old(self)@.data_copied, last as int),
                block as int,
            ),
        ensures
            copied == app_of(old(self)@.procs, id).dest is Some,
            copied ==> final(self)@ == results_back(old(self)@, id, last as int, block as int),
            !copied ==> final(self)@ == old(self)@,
    {
        let ghost procs1 = self.apps@;
        let mut app = self.apps.take_app(id);
        let copied = match &mut app.dest.data {
            None => false,
            Some(dest) => {
                let offset = self.data_copied - last;
                match &self.dest_buffer {
                    Some(buf) => copy_back(dest, buf.as_slice(), offset, block),
                    None => {},
                }
                true
            },
        };
        let ghost av = app@;
        self.apps.put_app(id, app);
        assert(self.apps@ =~= with_app(procs1, id, av));
        if !copied {
            assert(self.apps@ =~= procs1);
        }
        copied
    }

    /// Goes on with the operation of the owner `id` once its results are
    /// back.
    fn continue_operation(&mut self, id: ProcessId)
        requires
            wf(old(self)@),
            has_app(old(self)@.procs, id),
            old(self)@.source_buffer is Some,
            old(self)@.dest_buffer is Some,
            ({
                let a = app_of(old(self)@.procs, id);
                let sb = old(self)@.source_buffer->Some_0;
                a.source is Some && sb.len() > 0 && a.source->Some_0.len() > old(self)@.data_copied
                    ==> {
                    &&& old(self)@.data_copied + sb.len() <= usize::MAX
                    &&& a.aes_operation is Some
                    &&& queue_safe(
                        old(self)@.procs,
                        old(self)@.source_buffer,
                        old(self)@.dest_buffer,
                    )
                }
            }),
        ensures
            wf(final(self)@),
            continue_post(old(self)@, final(self)@, id),
    {
        let ghost s = self@;
        if self.apps.app_ref(id).source.data.is_none() {
            self.aes.disable();
            self.appid = None;
            let code = ErrorCode::RESERVE.as_usize();
            self.schedule_upcall(id, 0, code, 0, 0);
            return ;
        }
        let copied_data = self.data_copied;
        let app = self.apps.app_ref(id);
        let data_len = app.source.len();
        let static_len = match &self.source_buffer {
            Some(b) => b.len(),
            None => 0,
        };
        match &app.source.data {
            Some(src) => match &mut self.source_buffer {
                Some(buf) => load_next(buf, src.as_slice(), copied_data),
                None => {},
            },
            None => {},
        }
        if static_len > 0 && data_len > copied_data {
            self.data_copied = copied_data + static_len;
            let op = app.aes_operation.unwrap();
            let aoff = app.aoff;
            let moff = app.moff;
            let mlen = app.mlen;
            let mic_len = app.mic_len;
            let confidential = app.confidential;
            let ghost s4 = self@;
            let r = self.calculate_output(op, aoff, moff, mlen, mic_len, confidential);
            let ghost u = self@;
            let ghost a = app_of(s.procs, id);
            if r.is_err() {
                proof {
                    lemma_requests_kept(
                        s.procs,
                        u.procs,
                        s.source_buffer,
                        s.dest_buffer,
                        u.source_buffer,
                        u.dest_buffer,
                    );
                }
                self.aes.disable();
                self.appid = None;
                let code = into_statuscode(r);
                self.schedule_upcall(id, 0, code, 0, 0);
                self.check_queue();
            }
            assert(output_post(s4, u, op, aoff, moff, mlen, mic_len, confidential, r));
            assert(match r {
                Ok(()) => self@ == u,
                Err(e) => check_queue_post(
                    DriverView {
                        appid: None,
                        log: u.log.push(HwCall::Disable),
                        upcalls: u.upcalls.push(upcall0(id, e.code(), 0, 0)),
                        ..u
                    },
                    self@,
                ),
            });
            assert(op == a.aes_operation->Some_0);
            assert(aoff == a.aoff && moff == a.moff && mlen == a.mlen && mic_len == a.mic_len
                && confidential == a.confidential);
            return ;
        }
        let count = self.data_copied;
        self.schedule_upcall(id, 0, 0, count, 0);
        self.data_copied = 0;
    }

    /// Called by the hardware when a block operation completes, with the
    /// buffers it held.
    pub fn crypt_done(&mut self, source: Option<Vec<u8>>, destination: Vec<u8>)
        requires
            wf(old(self)@),
            source is Some,
            crypt_done_safe(old(self)@, source->Some_0@, destination@),
        ensures
            wf(final(self)@),
            crypt_done_post(old(self)@, final(self)@, source->Some_0@, destination@),
    {
        let ghost s = self@;
        let source = source.unwrap();
        let src_len = source.len();
        let dest_len = destination.len();
        self.source_buffer = Some(source);
        self.dest_buffer = Some(destination);
        let id = match self.appid {
            None => return ,
            Some(id) => id,
        };
        match self.apps.enter(id) {
            Err(err) => {
                if err == ProcessError::NoSuchApp || err == ProcessError::InactiveApp {
                    self.appid = None;
                }
                return ;
            },
            Ok(()) => {},
        }
        proof {
            lemma_kept_by_enter(s.procs, id);
        }
        let ghost se = self@;
        let app_source_len = self.apps.app_ref(id).source.len();
        let last = if src_len < app_source_len {
            src_len
        } else {
            app_source_len
        };
        let block = if src_len < dest_len {
            src_len
        } else {
            dest_len
        };
        if !self.deliver(id, last, block) {
            self.aes.disable();
            self.appid = None;
            let code = ProcessError::NoSuchApp.as_usize();
            self.schedule_upcall(id, 0, code, 0, 0);
            return ;
        }
        proof {
            let a = app_of(se.procs, id);
            lemma_kept_by_update(se.procs, id, app_of(self@.procs, id));
            lemma_requests_kept(s.procs, se.procs, se.source_buffer, se.dest_buffer, se.source_buffer, se.dest_buffer);
            lemma_requests_kept(se.procs, self@.procs, se.source_buffer, se.dest_buffer, se.source_buffer, se.dest_buffer);
        }
        self.continue_operation(id);
    }
}

/// When a completed CCM operation cannot panic: a successful one must copy
/// its results back within the owner's buffer.
pub open spec fn ccm_crypt_done_safe(s: DriverView, buf: Seq<u8>, res: Result<(), ErrorCode>) -> bool {
    match s.appid {
        None => true,
        Some(id) => enter_error(s.procs, id) is Some || res is Err || {
            let a = entered_app(s.procs, id);
            a.dest matches Some(d) ==> copy_back_fits(
                d.len() as int,
                back_offset(s.data_copied, min_len(buf.len() as int, d.len() as int)),
                buf.len() as int,
            )
        },
    }
}

/// The number an upcall carries for a flag.
pub open spec fn flag(b: bool) -> usize {
    if b {
        1
    } else {
        0
    }
}

/// What the completion of a CCM operation with result `res` does, from `s`
/// to `t`, with the buffer `buf` back from the hardware. A failure is
/// reported to the owner by upcall 0. Otherwise the results are copied back
/// and upcall 0 reports how much data was processed and whether the tag
/// was valid; the count starts over. An unshared destination buffer
/// releases the owner; an owner whose grant is gone is released.
pub open spec fn ccm_crypt_done_post(
    s: DriverView,
    t: DriverView,
    buf: Seq<u8>,
    res: Result<(), ErrorCode>,
    tag_is_valid: bool,
) -> bool {
    let s1 = DriverView { dest_buffer: Some(buf), ..s };
    match s.appid {
        None => t == s1,
        Some(id) => match enter_error(s.procs, id) {
            Some(e) => t == owner_gone(s1, e),
            None => {
                let se = DriverView { procs: entered(s.procs, id), ..s1 };
                let a = app_of(se.procs, id);
                match res {
                    Err(e) => t == DriverView {
                        upcalls: se.upcalls.push(upcall0(id, e.code(), 0, 0)),
                        ..se
                    },
                    Ok(()) => if a.dest is None {
                        t == missing_buffer(se, id, ProcessError::NoSuchApp.code())
                    } else {
                        let s2 = results_back(
                            se,
                            id,
                            min_len(buf.len() as int, a.dest->Some_0.len() as int),
                            buf.len() as int,
                        );
                        t == DriverView {
                            upcalls: s2.upcalls.push(
                                upcall0(id, 0, s.data_copied, flag(tag_is_valid)),
                            ),
                            data_copied: 0,
                            ..s2
                        }
                    },
                }
            },
        },
    }
}

impl<H: AesEngine> AesDriver<H> {
    /// Called by the hardware when a CCM operation completes, with the
    /// buffer it held, its result and whether the tag was valid.
    pub fn ccm_crypt_done(&mut self, buf: Vec<u8>, res: Result<(), ErrorCode>, tag_is_valid: bool)
        requires
            wf(old(self)@),
            ccm_crypt_done_safe(old(self)@, buf@, res),
        ensures
            wf(final(self)@),
            ccm_crypt_done_post(old(self)@, final(self)@, buf@, res, tag_is_valid),
    {
        let ghost s = self@;
        let buf_len = buf.len();
        self.dest_buffer = Some(buf);
        let id = match self.appid {
            None => return ,
            Some(id) => id,
        };
        match self.apps.enter(id) {
            Err(err) => {
                if err == ProcessError::NoSuchApp || err == ProcessError::InactiveApp {
                    self.appid = None;
                }
                return ;
            },
            Ok(()) => {},
        }
        proof {
            lemma_kept_by_enter(s.procs, id);
            lemma_requests_kept(s.procs, self@.procs, s.source_buffer, s.dest_buffer, s.source_buffer, s.dest_buffer);
        }
        let ghost se = self@;
        if let Err(e) = res {
            let code = e.as_usize();
            self.schedule_upcall(id, 0, code, 0, 0);
            return ;
        }
        let app_dest_len = self.apps.app_ref(id).dest.len();
        let last = if buf_len < app_dest_len {
            buf_len
        } else {
            app_dest_len
        };
        if !self.deliver(id, last, buf_len) {
            self.aes.disable();
            self.appid = None;
            let code = ProcessError::NoSuchApp.as_usize();
            self.schedule_upcall(id, 0, code, 0, 0);
            return ;
        }
        proof {
            lemma_kept_by_update(se.procs, id, app_of(self@.procs, id));
            lemma_requests_kept(se.procs, self@.procs, se.source_buffer, se.dest_buffer, se.source_buffer, se.dest_buffer);
        }
        let count = self.data_copied;
        let tag: usize = if tag_is_valid {
            1
        } else {
            0
        };
        self.schedule_upcall(id, 0, 0, count, tag);
        self.data_copied = 0;
    }
}

} // verus!
