use vstd::prelude::*;

use crate::error::ErrorCode;
use crate::grant::AesOperation;

verus! {

/// Size of an AES-128 block in bytes.
pub const AES128_BLOCK_SIZE: usize = 16;

/// Length of the nonce of AES-128 CCM in bytes.
pub const CCM_NONCE_LENGTH: usize = 13;

/// The AES-128 hardware interface that a chip implements for the driver.
/// Operations that are accepted finish later with a `crypt_done` callback
/// into the driver, which then receives its buffers back.
///
/// `trace` is the record of the calls the hardware received, each with its
/// arguments and the answer it gave; every method adds its own call. The
/// answers are free: the driver's contracts hold for whatever the hardware
/// answers. What an implementation must keep, without it being checked
/// here, is that record, and that a refused operation hands back the very
/// buffers it was given, so with the lengths they had.
pub trait AesEngine {
    spec fn trace(&self) -> Seq<HwCall>;

    fn enable(&mut self)
        ensures
            final(self).trace() == old(self).trace().push(HwCall::Enable),
    ;

    fn disable(&mut self)
        ensures
            final(self).trace() == old(self).trace().push(HwCall::Disable),
    ;

    fn set_mode_aes128ctr(&mut self, encrypting: bool) -> (r: Result<(), ErrorCode>)
        ensures
            final(self).trace() == old(self).trace().push(
                HwCall::SetMode { op: AesOperation::AES128Ctr(encrypting), result: r },
            ),
    ;

    fn set_mode_aes128cbc(&mut self, encrypting: bool) -> (r: Result<(), ErrorCode>)
        ensures
            final(self).trace() == old(self).trace().push(
                HwCall::SetMode { op: AesOperation::AES128CBC(encrypting), result: r },
            ),
    ;

    fn set_mode_aes128ecb(&mut self, encrypting: bool) -> (r: Result<(), ErrorCode>)
        ensures
            final(self).trace() == old(self).trace().push(
                HwCall::SetMode { op: AesOperation::AES128ECB(encrypting), result: r },
            ),
    ;

    /// Loads the key for the block cipher modes.
    fn set_key(&mut self, key: &[u8]) -> (r: Result<(), ErrorCode>)
        ensures
            final(self).trace() == old(self).trace().push(
                HwCall::SetKey { ccm: false, key: key@, result: r },
            ),
    ;

    /// Loads the key for CCM.
    fn set_ccm_key(&mut self, key: &[u8]) -> (r: Result<(), ErrorCode>)
        ensures
            final(self).trace() == old(self).trace().push(
                HwCall::SetKey { ccm: true, key: key@, result: r },
            ),
    ;

    fn set_iv(&mut self, iv: &[u8]) -> (r: Result<(), ErrorCode>)
        ensures
            final(self).trace() == old(self).trace().push(HwCall::SetIv { iv: iv@, result: r }),
    ;

    fn set_nonce(&mut self, nonce: &[u8]) -> (r: Result<(), ErrorCode>)
        ensures
            final(self).trace() == old(self).trace().push(
                HwCall::SetNonce { nonce: nonce@, result: r },
            ),
    ;

    /// Starts a block cipher operation from `source` into `dest` over the
    /// given index range. `None` means the operation was accepted and the
    /// buffers are held until it completes; otherwise the operation ended
    /// at once, with its result and the two buffers it was given.
    fn crypt(&mut self, source: Vec<u8>, dest: Vec<u8>, start_index: usize, stop_index: usize) -> (r:
        Option<(Result<(), ErrorCode>, Vec<u8>, Vec<u8>)>)
        ensures
            final(self).trace() == old(self).trace().push(
                HwCall::Crypt {
                    source: source@,
                    dest: dest@,
                    start: start_index,
                    stop: stop_index,
                    refused: match r {
                        Some((e, s, d)) => Some((e, s@, d@)),
                        None => None,
                    },
                },
            ),
            r matches Some((_, s, d)) ==> s@.len() == source@.len() && d@.len() == dest@.len(),
    ;

    /// Starts a CCM operation in place on `buf`. On error the buffer it was
    /// given comes back with the error.
    fn ccm_crypt(
        &mut self,
        buf: Vec<u8>,
        a_off: usize,
        m_off: usize,
        m_len: usize,
        mic_len: usize,
        confidential: bool,
        encrypting: bool,
    ) -> (r: Result<(), (ErrorCode, Vec<u8>)>)
        ensures
            final(self).trace() == old(self).trace().push(
                HwCall::CcmCrypt {
                    buf: buf@,
                    a_off,
                    m_off,
                    m_len,
                    mic_len,
                    confidential,
                    encrypting,
                    error: match r {
                        Err((e, b)) => Some((e, b@)),
                        Ok(()) => None,
                    },
                },
            ),
            r matches Err((_, b)) ==> b@.len() == buf@.len(),
    ;
}

/// A call the driver made to the hardware, with what the hardware answered.
pub enum HwCall {
    Enable,
    Disable,
    SetMode { op: AesOperation, result: Result<(), ErrorCode> },
    SetKey { ccm: bool, key: Seq<u8>, result: Result<(), ErrorCode> },
    SetIv { iv: Seq<u8>, result: Result<(), ErrorCode> },
    SetNonce { nonce: Seq<u8>, result: Result<(), ErrorCode> },
    Crypt {
        source: Seq<u8>,
        dest: Seq<u8>,
        start: usize,
        stop: usize,
        /// On a refusal: the result and the source and destination
        /// buffers handed back.
        refused: Option<(Result<(), ErrorCode>, Seq<u8>, Seq<u8>)>,
    },
    CcmCrypt {
        buf: Seq<u8>,
        a_off: usize,
        m_off: usize,
        m_len: usize,
        mic_len: usize,
        confidential: bool,
        encrypting: bool,
        /// On a refusal: the error and the buffer handed back.
        error: Option<(ErrorCode, Seq<u8>)>,
    },
}

/// The hardware, seen by the record of the calls it received.
pub struct Engine<H: AesEngine> {
    pub hw: H,
}

impl<H: AesEngine> Engine<H> {
    /// The calls the hardware received, with its answers.
    pub open spec fn log(&self) -> Seq<HwCall> {
        self.hw.trace()
    }

    pub fn new(hw: H) -> (e: Engine<H>)
        ensures
            e.hw == hw,
            e.log() == hw.trace(),
    {
        Engine { hw }
    }

    pub fn enable(&mut self)
        ensures
            final(self).log() == old(self).log().push(HwCall::Enable),
    {
        self.hw.enable();
    }

    pub fn disable(&mut self)
        ensures
            final(self).log() == old(self).log().push(HwCall::Disable),
    {
        self.hw.disable();
    }

    /// Selects the mode of a block cipher operation.
    pub fn set_mode(&mut self, op: AesOperation) -> (r: Result<(), ErrorCode>)
        requires
            !(op is AES128CCM),
        ensures
            final(self).log() == old(self).log().push(HwCall::SetMode { op, result: r }),
    {
        match op {
            AesOperation::AES128Ctr(e) => self.hw.set_mode_aes128ctr(e),
            AesOperation::AES128CBC(e) => self.hw.set_mode_aes128cbc(e),
            AesOperation::AES128ECB(e) => self.hw.set_mode_aes128ecb(e),
            AesOperation::AES128CCM(_) => {
                proof {
                    assert(false);
                }
                Ok(())
            },
        }
    }

    /// Loads the key for CCM (`ccm`) or the block cipher modes.
    pub fn set_key(&mut self, ccm: bool, key: &[u8]) -> (r: Result<(), ErrorCode>)
        ensures
            final(self).log() == old(self).log().push(HwCall::SetKey { ccm, key: key@, result: r }),
    {
        if ccm {
            self.hw.set_ccm_key(key)
        } else {
            self.hw.set_key(key)
        }
    }

    pub fn set_iv(&mut self, iv: &[u8]) -> (r: Result<(), ErrorCode>)
        ensures
            final(self).log() == old(self).log().push(HwCall::SetIv { iv: iv@, result: r }),
    {
        self.hw.set_iv(iv)
    }

    pub fn set_nonce(&mut self, nonce: &[u8]) -> (r: Result<(), ErrorCode>)
        ensures
            final(self).log() == old(self).log().push(HwCall::SetNonce { nonce: nonce@, result: r }),
    {
        self.hw.set_nonce(nonce)
    }

    pub fn crypt(&mut self, source: Vec<u8>, dest: Vec<u8>, start: usize, stop: usize) -> (r: Option<
        (Result<(), ErrorCode>, Vec<u8>, Vec<u8>),
    >)
        ensures
            final(self).log() == old(self).log().push(
                HwCall::Crypt {
                    source: source@,
                    dest: dest@,
                    start,
                    stop,
                    refused: match r {
                        Some((e, s, d)) => Some((e, s@, d@)),
                        None => None,
                    },
                },
            ),
            r matches Some((_, s, d)) ==> s@.len() == source@.len() && d@.len() == dest@.len(),
    {
        self.hw.crypt(source, dest, start, stop)
    }

    pub fn ccm_crypt(
        &mut self,
        buf: Vec<u8>,
        a_off: usize,
        m_off: usize,
        m_len: usize,
        mic_len: usize,
        confidential: bool,
        encrypting: bool,
    ) -> (r: Result<(), (ErrorCode, Vec<u8>)>)
        ensures
            final(self).log() == old(self).log().push(
                HwCall::CcmCrypt {
                    buf: buf@,
                    a_off,
                    m_off,
                    m_len,
                    mic_len,
                    confidential,
                    encrypting,
                    error: match r {
                        Err((e, b)) => Some((e, b@)),
                        Ok(()) => None,
                    },
                },
            ),
            r matches Err((_, b)) ==> b@.len() == buf@.len(),
    {
        self.hw.ccm_crypt(buf, a_off, m_off, m_len, mic_len, confidential, encrypting)
    }
}

} // verus!
