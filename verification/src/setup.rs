use vstd::prelude::*;

use crate::bytes::{min_len, stage, stage_prefix};
use crate::driver::{held, run_safe, AesDriver, DriverView};
use crate::error::ErrorCode;
use crate::grant::{app_of, entered, enter_error, shared_len, AesOperation, AppView, ProcessBuffer};
use crate::hil::{AesEngine, Engine, HwCall, AES128_BLOCK_SIZE, CCM_NONCE_LENGTH};

verus! {

/// What loading a process buffer into a static buffer does: an unshared
/// process buffer gives `RESERVE`, a missing static buffer `NOMEM`, and
/// otherwise the static buffer receives the prefix that fits.
pub open spec fn load_error(buf: Option<Seq<u8>>, src: Option<Seq<u8>>) -> Option<ErrorCode> {
    if src is None {
        Some(ErrorCode::RESERVE)
    } else if buf is None {
        Some(ErrorCode::NOMEM)
    } else {
        None
    }
}

/// The static buffer after a load that succeeded.
pub open spec fn loaded(buf: Option<Seq<u8>>, src: Option<Seq<u8>>) -> Seq<u8> {
    stage(buf->Some_0, src->Some_0)
}

/// Copies the key into the static buffer and hands the whole buffer to the
/// hardware as the key.
pub fn load_key<H: AesEngine>(
    aes: &mut Engine<H>,
    buf: &mut Option<Vec<u8>>,
    key: &ProcessBuffer,
    ccm: bool,
) -> (r: Result<(), ErrorCode>)
    ensures
        match load_error(held(*old(buf)), key@) {
            Some(e) => {
                &&& r == Err::<(), ErrorCode>(e)
                &&& *final(buf) == *old(buf)
                &&& final(aes).log() == old(aes).log()
            },
            None => {
                &&& held(*final(buf)) == Some(loaded(held(*old(buf)), key@))
                &&& final(aes).log() == old(aes).log().push(
                    HwCall::SetKey { ccm, key: loaded(held(*old(buf)), key@), result: r },
                )
            },
        },
{
    match &key.data {
        None => Err(ErrorCode::RESERVE),
        Some(k) => match buf {
            None => Err(ErrorCode::NOMEM),
            Some(b) => {
                stage_prefix(b, k.as_slice());
                aes.set_key(ccm, b.as_slice())
            },
        },
    }
}

/// Copies the IV into the static buffer and hands it to the hardware: the
/// whole buffer as IV, or for CCM its first bytes as the nonce.
pub fn load_iv<H: AesEngine>(
    aes: &mut Engine<H>,
    buf: &mut Option<Vec<u8>>,
    iv: &ProcessBuffer,
    ccm: bool,
) -> (r: Result<(), ErrorCode>)
    requires
        ccm && iv@ is Some ==> (held(*old(buf)) matches Some(b) ==> b.len() >= CCM_NONCE_LENGTH),
    ensures
        match load_error(held(*old(buf)), iv@) {
            Some(e) => {
                &&& r == Err::<(), ErrorCode>(e)
                &&& *final(buf) == *old(buf)
                &&& final(aes).log() == old(aes).log()
            },
            None => {
                &&& held(*final(buf)) == Some(loaded(held(*old(buf)), iv@))
                &&& final(aes).log() == old(aes).log().push(
                    if ccm {
                        HwCall::SetNonce {
                            nonce: loaded(held(*old(buf)), iv@).take(CCM_NONCE_LENGTH as int),
                            result: r,
                        }
                    } else {
                        HwCall::SetIv { iv: loaded(held(*old(buf)), iv@), result: r }
                    },
                )
            },
        },
{
    match &iv.data {
        None => Err(ErrorCode::RESERVE),
        Some(v) => match buf {
            None => Err(ErrorCode::NOMEM),
            Some(b) => {
                stage_prefix(b, v.as_slice());
                if ccm {
                    let nonce = vstd::slice::slice_subrange(b.as_slice(), 0, CCM_NONCE_LENGTH);
                    proof {
                        assert(nonce@ =~= b@.take(CCM_NONCE_LENGTH as int));
                    }
                    aes.set_nonce(nonce)
                } else {
                    aes.set_iv(b.as_slice())
                }
            },
        },
    }
}

/// Copies the data to process into a static buffer and records how much of
/// it was copied.
pub fn load_source(
    buf: &mut Option<Vec<u8>>,
    data_copied: &mut usize,
    source: &ProcessBuffer,
) -> (r: Result<(), ErrorCode>)
    ensures
        match load_error(held(*old(buf)), source@) {
            Some(e) => {
                &&& r == Err::<(), ErrorCode>(e)
                &&& *final(buf) == *old(buf)
                &&& *final(data_copied) == *old(data_copied)
            },
            None => {
                &&& r is Ok
                &&& held(*final(buf)) == Some(loaded(held(*old(buf)), source@))
                &&& *final(data_copied) == min_len(
                    held(*old(buf))->Some_0.len() as int,
                    shared_len(source@) as int,
                )
            },
        },
{
    match &source.data {
        None => Err(ErrorCode::RESERVE),
        Some(s) => match buf {
            None => Err(ErrorCode::NOMEM),
            Some(b) => {
                let n = stage_prefix(b, s.as_slice());
                *data_copied = n;
                Ok(())
            },
        },
    }
}

/// What starting the hardware does from `m` to `t`. A CCM operation hands
/// over the destination buffer; the others hand over both buffers for the
/// first block. Accepted, the buffers stay with the hardware; refused, the
/// hardware is disabled, the owner released and the driver holds again the
/// buffers the hardware handed back, as recorded in `t.log` (of the same
/// lengths).
pub open spec fn output_post(
    m: DriverView,
    t: DriverView,
    op: AesOperation,
    aoff: usize,
    moff: usize,
    mlen: usize,
    mic_len: usize,
    confidential: bool,
    r: Result<(), ErrorCode>,
) -> bool {
    &&& t.procs == m.procs
    &&& t.active == m.active
    &&& t.data_copied == m.data_copied
    &&& t.upcalls == m.upcalls
    &&& match op {
        AesOperation::AES128CCM(encrypting) => {
            let call = HwCall::CcmCrypt {
                buf: m.dest_buffer->Some_0,
                a_off: aoff,
                m_off: moff,
                m_len: mlen,
                mic_len,
                confidential,
                encrypting,
                error: match r {
                    Err(e) => Some((e, t.dest_buffer->Some_0)),
                    Ok(()) => None,
                },
            };
            &&& t.source_buffer == m.source_buffer
            &&& match r {
                Ok(()) => {
                    &&& t.log == m.log.push(call)
                    &&& t.dest_buffer is None
                    &&& t.appid == m.appid
                },
                Err(_) => {
                    &&& t.log == m.log.push(call).push(HwCall::Disable)
                    &&& t.dest_buffer matches Some(b) && b.len() == m.dest_buffer->Some_0.len()
                    &&& t.appid is None
                },
            }
        },
        _ => {
            let accepted = t.source_buffer is None;
            let call = HwCall::Crypt {
                source: m.source_buffer->Some_0,
                dest: m.dest_buffer->Some_0,
                start: 0,
                stop: AES128_BLOCK_SIZE,
                refused: if accepted {
                    None
                } else {
                    Some((r, t.source_buffer->Some_0, t.dest_buffer->Some_0))
                },
            };
            if accepted {
                &&& r is Ok
                &&& t.log == m.log.push(call)
                &&& t.dest_buffer is None
                &&& t.appid == m.appid
            } else {
                &&& t.log == m.log.push(call).push(HwCall::Disable)
                &&& t.source_buffer matches Some(b) && b.len() == m.source_buffer->Some_0.len()
                &&& t.dest_buffer matches Some(b) && b.len() == m.dest_buffer->Some_0.len()
                &&& t.appid is None
            }
        },
    }
}

/// The hardware's answer recorded in entry `i` of the record.
pub open spec fn answer(log: Seq<HwCall>, i: int) -> Result<(), ErrorCode> {
    match log[i] {
        HwCall::SetMode { result, .. } => result,
        HwCall::SetKey { result, .. } => result,
        HwCall::SetIv { result, .. } => result,
        HwCall::SetNonce { result, .. } => result,
        _ => Ok(()),
    }
}

/// What setting the mode, loading key, IV and data of a process with state
/// `a` and starting the hardware does, from `m` (the hardware enabled) to
/// `t`. Each step runs only when the one before it succeeded; the first
/// failure is the result, and the hardware's answers are those recorded in
/// `t.log`.
pub open spec fn setup_post(m: DriverView, t: DriverView, a: AppView, r: Result<(), ErrorCode>) -> bool {
    let out = t.log;
    let op = a.aes_operation->Some_0;
    let ccm = op is AES128CCM;
    let m2 = if ccm {
        m
    } else {
        DriverView {
            log: m.log.push(HwCall::SetMode { op, result: answer(out, m.log.len() as int) }),
            ..m
        }
    };
    if !ccm && answer(out, m.log.len() as int) is Err {
        r == answer(out, m.log.len() as int) && t == m2
    } else if load_error(m2.source_buffer, a.key) is Some {
        r == Err::<(), ErrorCode>(load_error(m2.source_buffer, a.key)->Some_0) && t == m2
    } else {
        let b1 = loaded(m2.source_buffer, a.key);
        let m3 = DriverView {
            source_buffer: Some(b1),
            log: m2.log.push(
                HwCall::SetKey { ccm, key: b1, result: answer(out, m2.log.len() as int) },
            ),
            ..m2
        };
        if answer(out, m2.log.len() as int) is Err {
            r == answer(out, m2.log.len() as int) && t == m3
        } else if load_error(Some(b1), a.iv) is Some {
            r == Err::<(), ErrorCode>(load_error(Some(b1), a.iv)->Some_0) && t == m3
        } else {
            let b2 = loaded(Some(b1), a.iv);
            let m4 = DriverView {
                source_buffer: Some(b2),
                log: m3.log.push(
                    if ccm {
                        HwCall::SetNonce {
                            nonce: b2.take(CCM_NONCE_LENGTH as int),
                            result: answer(out, m3.log.len() as int),
                        }
                    } else {
                        HwCall::SetIv { iv: b2, result: answer(out, m3.log.len() as int) }
                    },
                ),
                ..m3
            };
            let target = if ccm {
                m4.dest_buffer
            } else {
                m4.source_buffer
            };
            if answer(out, m3.log.len() as int) is Err {
                r == answer(out, m3.log.len() as int) && t == m4
            } else if load_error(target, a.source) is Some {
                r == Err::<(), ErrorCode>(load_error(target, a.source)->Some_0) && t == m4
            } else {
                let staged = loaded(target, a.source);
                let n = min_len(target->Some_0.len() as int, shared_len(a.source) as int) as usize;
                let m5 = if ccm {
                    DriverView { dest_buffer: Some(staged), data_copied: n, ..m4 }
                } else {
                    DriverView { source_buffer: Some(staged), data_copied: n, ..m4 }
                };
                output_post(
                    m5,
                    t,
                    op,
                    a.aoff,
                    a.moff,
                    a.mlen,
                    a.mic_len,
                    a.confidential,
                    r,
                )
            }
        }
    }
}

/// What starting the operation of the owner does, from `s` to `t`. With no
/// owner the result is `RESERVE`, with a grant that cannot be entered the
/// matching error; both leave everything as it was. Otherwise the grant is
/// entered and the hardware enabled; an owner without an operation gets
/// `INVAL`, one with an operation goes through `setup_post`.
pub open spec fn run_post(s: DriverView, t: DriverView, r: Result<(), ErrorCode>) -> bool {
    match s.appid {
        None => r == Err::<(), ErrorCode>(ErrorCode::RESERVE) && t == s,
        Some(p) => match enter_error(s.procs, p) {
            Some(e) => r == Err::<(), ErrorCode>(e.error_code()) && t == s,
            None => {
                let m = DriverView {
                    procs: entered(s.procs, p),
                    log: s.log.push(HwCall::Enable),
                    ..s
                };
                let a = app_of(m.procs, p);
                if a.aes_operation is None {
                    r == Err::<(), ErrorCode>(ErrorCode::INVAL) && t == m
                } else {
                    setup_post(m, t, a, r)
                }
            },
        },
    }
}

impl<H: AesEngine> AesDriver<H> {
    /// Starts the hardware on the data in the static buffers. On a refusal
    /// the hardware is disabled, the owner is released and the buffers come
    /// back.
    pub(crate) fn calculate_output(
        &mut self,
        op: AesOperation,
        aoff: usize,
        moff: usize,
        mlen: usize,
        mic_len: usize,
        confidential: bool,
    ) -> (r: Result<(), ErrorCode>)
        requires
            old(self).dest_buffer is Some,
            !(op is AES128CCM) ==> old(self).source_buffer is Some,
        ensures
            output_post(old(self)@, final(self)@, op, aoff, moff, mlen, mic_len, confidential, r),
    {
        match op {
            AesOperation::AES128CCM(encrypting) => {
                let buf = self.dest_buffer.take().unwrap();
                match self.aes.ccm_crypt(buf, aoff, moff, mlen, mic_len, confidential, encrypting) {
                    Err((e, dest)) => {
                        self.aes.disable();
                        self.appid = None;
                        self.dest_buffer = Some(dest);
                        Err(e)
                    },
                    Ok(()) => Ok(()),
                }
            },
            _ => {
                let source = self.source_buffer.take().unwrap();
                let dest = self.dest_buffer.take().unwrap();
                match self.aes.crypt(source, dest, 0, AES128_BLOCK_SIZE) {
                    Some((e, source, dest)) => {
                        self.aes.disable();
                        self.appid = None;
                        self.source_buffer = Some(source);
                        self.dest_buffer = Some(dest);
                        e
                    },
                    None => Ok(()),
                }
            },
        }
    }

    /// Loads the owner's key, IV and first data into the hardware and starts
    /// it.
    pub(crate) fn run(&mut self) -> (r: Result<(), ErrorCode>)
        requires
            old(self).appid matches Some(p) ==> run_safe(old(self)@, p),
        ensures
            run_post(old(self)@, final(self)@, r),
    {
        let appid = match self.appid {
            None => return Err(ErrorCode::RESERVE),
            Some(p) => p,
        };
        match self.apps.enter(appid) {
            Err(e) => return Err(e.to_error_code()),
            Ok(()) => {},
        }
        self.aes.enable();
        let op = match self.apps.app_ref(appid).aes_operation {
            None => return Err(ErrorCode::INVAL),
            Some(op) => op,
        };
        let ccm = match op {
            AesOperation::AES128CCM(_) => true,
            _ => false,
        };
        if !ccm {
            let ret = self.aes.set_mode(op);
            if ret.is_err() {
                return ret;
            }
        }
        let app = self.apps.app_ref(appid);
        let ret = load_key(&mut self.aes, &mut self.source_buffer, &app.key, ccm);
        if ret.is_err() {
            return ret;
        }
        let ret = load_iv(&mut self.aes, &mut self.source_buffer, &app.iv, ccm);
        if ret.is_err() {
            return ret;
        }
        let ret = if ccm {
            load_source(&mut self.dest_buffer, &mut self.data_copied, &app.source)
        } else {
            load_source(&mut self.source_buffer, &mut self.data_copied, &app.source)
        };
        if ret.is_err() {
            return ret;
        }
        let aoff = app.aoff;
        let moff = app.moff;
        let mlen = app.mlen;
        let mic_len = app.mic_len;
        let confidential = app.confidential;
        self.calculate_output(op, aoff, moff, mlen, mic_len, confidential)
    }
}

} // verus!
