use lib::driver::{AesDriver, DRIVER_NUM};
use lib::error::{CommandReturn, ErrorCode, ProcessError};
use lib::grant::{AesOperation, Grants, ProcessBuffer, ProcessEntry, ProcessId, Upcall};
use lib::hil::{AesEngine, HwCall};
use vstd::seq::Seq;

/// A hardware engine that records what it is given, holds accepted buffers
/// until the test completes the operation, and answers as configured.
#[derive(Default)]
struct MockAes {
    enabled: bool,
    enables: usize,
    disables: usize,
    mode: Option<(u8, bool)>,
    key: Vec<u8>,
    ccm_key: Vec<u8>,
    iv: Vec<u8>,
    nonce: Vec<u8>,
    mode_error: Option<ErrorCode>,
    key_error: Option<ErrorCode>,
    refuse_crypt: Option<Result<(), ErrorCode>>,
    refuse_ccm: Option<ErrorCode>,
    crypts: Vec<(Vec<u8>, usize, usize)>,
    held: Option<(Vec<u8>, Vec<u8>)>,
    ccm_calls: Vec<(Vec<u8>, usize, usize, usize, usize, bool, bool)>,
    held_ccm: Option<Vec<u8>>,
}

fn answer(e: Option<ErrorCode>) -> Result<(), ErrorCode> {
    match e {
        Some(e) => Err(e),
        None => Ok(()),
    }
}

impl AesEngine for MockAes {
    // The record of calls belongs to the proofs; running code never reads it.
    fn trace(&self) -> Seq<HwCall> {
        unreachable!()
    }

    fn enable(&mut self) {
        self.enabled = true;
        self.enables += 1;
    }

    fn disable(&mut self) {
        self.enabled = false;
        self.disables += 1;
    }

    fn set_mode_aes128ctr(&mut self, encrypting: bool) -> Result<(), ErrorCode> {
        self.mode = Some((0, encrypting));
        answer(self.mode_error)
    }

    fn set_mode_aes128cbc(&mut self, encrypting: bool) -> Result<(), ErrorCode> {
        self.mode = Some((1, encrypting));
        answer(self.mode_error)
    }

    fn set_mode_aes128ecb(&mut self, encrypting: bool) -> Result<(), ErrorCode> {
        self.mode = Some((2, encrypting));
        answer(self.mode_error)
    }

    fn set_key(&mut self, key: &[u8]) -> Result<(), ErrorCode> {
        self.key = key.to_vec();
        answer(self.key_error)
    }

    fn set_ccm_key(&mut self, key: &[u8]) -> Result<(), ErrorCode> {
        self.ccm_key = key.to_vec();
        answer(self.key_error)
    }

    fn set_iv(&mut self, iv: &[u8]) -> Result<(), ErrorCode> {
        self.iv = iv.to_vec();
        Ok(())
    }

    fn set_nonce(&mut self, nonce: &[u8]) -> Result<(), ErrorCode> {
        self.nonce = nonce.to_vec();
        Ok(())
    }

    fn crypt(
        &mut self,
        source: Vec<u8>,
        mut dest: Vec<u8>,
        start_index: usize,
        stop_index: usize,
    ) -> Option<(Result<(), ErrorCode>, Vec<u8>, Vec<u8>)> {
        self.crypts.push((source.clone(), start_index, stop_index));
        if let Some(r) = self.refuse_crypt {
            return Some((r, source, dest));
        }
        // "Encrypt" by flipping every bit of the block.
        for i in 0..dest.len().min(source.len()) {
            dest[i] = !source[i];
        }
        self.held = Some((source, dest));
        None
    }

    fn ccm_crypt(
        &mut self,
        mut buf: Vec<u8>,
        a_off: usize,
        m_off: usize,
        m_len: usize,
        mic_len: usize,
        confidential: bool,
        encrypting: bool,
    ) -> Result<(), (ErrorCode, Vec<u8>)> {
        self.ccm_calls.push((buf.clone(), a_off, m_off, m_len, mic_len, confidential, encrypting));
        if let Some(e) = self.refuse_ccm {
            return Err((e, buf));
        }
        for b in buf.iter_mut() {
            *b = b.wrapping_add(1);
        }
        self.held_ccm = Some(buf);
        Ok(())
    }
}

fn pid(id: usize) -> ProcessId {
    ProcessId { id }
}

fn table(n: usize) -> Grants {
    let mut procs = Vec::new();
    for _ in 0..n {
        procs.push(ProcessEntry { alive: true, grant_room: true, grant: None });
    }
    Grants { procs }
}

fn driver(n: usize, static_len: usize) -> AesDriver<MockAes> {
    AesDriver::new(MockAes::default(), vec![0u8; static_len], vec![0u8; static_len], table(n))
}

fn shared(bytes: &[u8]) -> ProcessBuffer {
    ProcessBuffer::shared(bytes.to_vec())
}

fn bytes_of(b: &ProcessBuffer) -> Vec<u8> {
    b.data.clone().unwrap()
}

/// Shares key, IV and data for `p` and selects `algorithm`.
fn prepare(d: &mut AesDriver<MockAes>, p: usize, algorithm: usize, data: &[u8], dest_len: usize) {
    assert_eq!(d.command(1, algorithm, 1, pid(p)), CommandReturn::Success);
    assert!(d.allow_readonly(pid(p), 0, shared(&[0x11; 16])).is_ok());
    assert!(d.allow_readonly(pid(p), 1, shared(&[0x22; 16])).is_ok());
    assert!(d.allow_readonly(pid(p), 2, shared(data)).is_ok());
    assert!(d.allow_readwrite(pid(p), 0, ProcessBuffer::shared(vec![0u8; dest_len])).is_ok());
}

/// Hands the buffers the engine holds back to the driver.
fn complete(d: &mut AesDriver<MockAes>) {
    let (source, dest) = d.aes.hw.held.take().unwrap();
    d.crypt_done(Some(source), dest);
}

fn app_dest(d: &AesDriver<MockAes>, p: usize) -> Vec<u8> {
    bytes_of(&d.apps.procs[p].grant.as_ref().unwrap().dest)
}

#[test]
fn driver_number() {
    assert_eq!(DRIVER_NUM, 0x40006);
}

#[test]
fn command_zero_reports_presence() {
    let mut d = driver(1, 16);
    assert_eq!(d.command(0, 0, 0, pid(0)), CommandReturn::Success);
    assert_eq!(d.command(0, 7, 9, pid(5)), CommandReturn::Success);
}

#[test]
fn unknown_command_is_not_supported() {
    let mut d = driver(1, 16);
    assert_eq!(d.command(9, 0, 0, pid(0)), CommandReturn::Failure(ErrorCode::NOSUPPORT));
    assert_eq!(d.command(100, 0, 0, pid(0)), CommandReturn::Failure(ErrorCode::NOSUPPORT));
}

#[test]
fn set_algorithm_selects_operation() {
    let mut d = driver(1, 16);
    assert_eq!(d.command(1, 0, 1, pid(0)), CommandReturn::Success);
    assert_eq!(d.apps.procs[0].grant.as_ref().unwrap().aes_operation, Some(AesOperation::AES128Ctr(true)));
    assert_eq!(d.command(1, 1, 0, pid(0)), CommandReturn::Success);
    assert_eq!(d.apps.procs[0].grant.as_ref().unwrap().aes_operation, Some(AesOperation::AES128CBC(false)));
    assert_eq!(d.command(1, 2, 5, pid(0)), CommandReturn::Success);
    assert_eq!(d.apps.procs[0].grant.as_ref().unwrap().aes_operation, Some(AesOperation::AES128ECB(true)));
    assert_eq!(d.command(1, 3, 0, pid(0)), CommandReturn::Success);
    assert_eq!(d.apps.procs[0].grant.as_ref().unwrap().aes_operation, Some(AesOperation::AES128CCM(false)));
    assert_eq!(d.command(1, 4, 0, pid(0)), CommandReturn::Failure(ErrorCode::NOSUPPORT));
    assert_eq!(d.apps.procs[0].grant.as_ref().unwrap().aes_operation, Some(AesOperation::AES128CCM(false)));
}

#[test]
fn set_algorithm_for_missing_process_fails() {
    let mut d = driver(1, 16);
    // NoSuchApp becomes INVAL, an inactive process FAIL, no room NOMEM.
    assert_eq!(d.command(1, 0, 0, pid(3)), CommandReturn::Failure(ErrorCode::INVAL));
    d.apps.procs[0].alive = false;
    assert_eq!(d.command(1, 0, 0, pid(0)), CommandReturn::Failure(ErrorCode::FAIL));
    let mut d = driver(1, 16);
    d.apps.procs[0].grant_room = false;
    assert_eq!(d.command(1, 0, 0, pid(0)), CommandReturn::Failure(ErrorCode::NOMEM));
}

#[test]
fn allow_readonly_returns_previous_buffer() {
    let mut d = driver(1, 16);
    let first = d.allow_readonly(pid(0), 0, shared(&[1, 2, 3])).ok().unwrap();
    assert!(first.data.is_none());
    let second = d.allow_readonly(pid(0), 0, shared(&[4, 5])).ok().unwrap();
    assert_eq!(bytes_of(&second), vec![1, 2, 3]);
    let iv = d.allow_readonly(pid(0), 1, shared(&[9])).ok().unwrap();
    assert!(iv.data.is_none());
    let iv = d.allow_readonly(pid(0), 1, ProcessBuffer::unshared()).ok().unwrap();
    assert_eq!(bytes_of(&iv), vec![9]);
}

#[test]
fn allow_source_sets_message_length() {
    let mut d = driver(1, 16);
    assert!(d.allow_readonly(pid(0), 2, shared(&[7; 37])).is_ok());
    assert_eq!(d.apps.procs[0].grant.as_ref().unwrap().mlen, 37);
    assert!(d.allow_readonly(pid(0), 2, ProcessBuffer::unshared()).is_ok());
    assert_eq!(d.apps.procs[0].grant.as_ref().unwrap().mlen, 0);
}

#[test]
fn allow_unknown_number_is_not_supported() {
    let mut d = driver(1, 16);
    match d.allow_readonly(pid(0), 3, shared(&[1])) {
        Err((b, e)) => {
            assert_eq!(e, ErrorCode::NOSUPPORT);
            assert_eq!(bytes_of(&b), vec![1]);
        }
        Ok(_) => panic!("allow 3 must fail"),
    }
    match d.allow_readwrite(pid(0), 1, shared(&[2])) {
        Err((b, e)) => {
            assert_eq!(e, ErrorCode::NOSUPPORT);
            assert_eq!(bytes_of(&b), vec![2]);
        }
        Ok(_) => panic!("allow 1 must fail"),
    }
    // Nothing was allocated for the process.
    assert!(d.apps.procs[0].grant.is_none());
}

#[test]
fn allow_for_missing_process_fails() {
    let mut d = driver(1, 16);
    match d.allow_readwrite(pid(4), 0, shared(&[2])) {
        Err((b, e)) => {
            assert_eq!(e, ErrorCode::FAIL);
            assert_eq!(bytes_of(&b), vec![2]);
        }
        Ok(_) => panic!("no such process"),
    }
    match d.allow_readonly(pid(4), 1, shared(&[3])) {
        Err((_, e)) => assert_eq!(e, ErrorCode::FAIL),
        Ok(_) => panic!("no such process"),
    }
}

#[test]
fn allow_readwrite_returns_previous_buffer() {
    let mut d = driver(1, 16);
    let first = d.allow_readwrite(pid(0), 0, shared(&[1; 4])).ok().unwrap();
    assert!(first.data.is_none());
    let back = d.allow_readwrite(pid(0), 0, shared(&[2; 4])).ok().unwrap();
    assert_eq!(bytes_of(&back), vec![1; 4]);
}

#[test]
fn allocate_grant_outcomes() {
    let mut d = driver(3, 16);
    d.apps.procs[1].alive = false;
    d.apps.procs[2].grant_room = false;
    assert_eq!(d.allocate_grant(pid(0)), Ok(()));
    assert!(d.apps.procs[0].grant.is_some());
    assert_eq!(d.allocate_grant(pid(0)), Ok(()));
    assert_eq!(d.allocate_grant(pid(1)), Err(ProcessError::InactiveApp));
    assert_eq!(d.allocate_grant(pid(2)), Err(ProcessError::OutOfMemory));
    assert_eq!(d.allocate_grant(pid(3)), Err(ProcessError::NoSuchApp));
}

#[test]
fn setup_runs_a_block_operation() {
    let mut d = driver(1, 16);
    let data: Vec<u8> = (0..20).collect();
    prepare(&mut d, 0, 0, &data, 32);
    assert_eq!(d.command(2, 0, 0, pid(0)), CommandReturn::Success);
    assert_eq!(d.appid, Some(pid(0)));
    let hw = &d.aes.hw;
    assert!(hw.enabled);
    assert_eq!(hw.mode, Some((0, true)));
    // The whole static buffer, with the key at its start, is the key.
    assert_eq!(hw.key, vec![0x11; 16]);
    assert_eq!(hw.iv, vec![0x22; 16]);
    assert_eq!(hw.crypts.len(), 1);
    assert_eq!(hw.crypts[0], ((0..16).collect::<Vec<u8>>(), 0, 16));
    assert_eq!(d.data_copied, 16);
    assert!(d.source_buffer.is_none());
    assert!(d.dest_buffer.is_none());

    // First block back: results copied, the rest of the data loaded.
    complete(&mut d);
    let expected_first: Vec<u8> = (0..16u8).map(|b| !b).collect();
    assert_eq!(&app_dest(&d, 0)[..16], &expected_first[..]);
    assert_eq!(d.data_copied, 32);
    assert_eq!(d.aes.hw.crypts.len(), 2);
    let mut second_block: Vec<u8> = (16..20).collect();
    second_block.extend_from_slice(&(4..16).collect::<Vec<u8>>());
    assert_eq!(d.aes.hw.crypts[1].0, second_block);

    // Second block back: copied after the first, and the operation reported.
    complete(&mut d);
    let dest = app_dest(&d, 0);
    let expected_second: Vec<u8> = second_block.iter().map(|b| !b).collect();
    assert_eq!(&dest[16..32], &expected_second[..]);
    assert_eq!(d.upcalls, vec![Upcall { pid: pid(0), num: 0, arg0: 0, arg1: 32, arg2: 0 }]);
    assert_eq!(d.data_copied, 0);
    // The owner keeps the driver until it finishes.
    assert_eq!(d.appid, Some(pid(0)));
    assert_eq!(d.command(4, 0, 0, pid(0)), CommandReturn::Success);
    assert_eq!(d.appid, None);
    assert!(!d.aes.hw.enabled);
}

#[test]
fn short_data_is_reported_after_one_block() {
    let mut d = driver(1, 16);
    prepare(&mut d, 0, 2, &[5u8; 10], 16);
    assert_eq!(d.command(2, 0, 0, pid(0)), CommandReturn::Success);
    assert_eq!(d.data_copied, 10);
    complete(&mut d);
    // offset 10 - 10 = 0; the destination takes the whole block.
    assert_eq!(&app_dest(&d, 0)[..10], &[!5u8; 10][..]);
    assert_eq!(d.upcalls, vec![Upcall { pid: pid(0), num: 0, arg0: 0, arg1: 10, arg2: 0 }]);
    assert_eq!(d.data_copied, 0);
}

#[test]
fn small_destination_takes_what_fits() {
    let mut d = driver(1, 16);
    prepare(&mut d, 0, 1, &[3u8; 16], 8);
    assert_eq!(d.command(2, 0, 0, pid(0)), CommandReturn::Success);
    complete(&mut d);
    assert_eq!(app_dest(&d, 0), vec![!3u8; 8]);
}

#[test]
fn setup_without_algorithm_fails_and_releases() {
    let mut d = driver(1, 16);
    assert!(d.allow_readonly(pid(0), 0, shared(&[1; 16])).is_ok());
    assert_eq!(d.command(2, 0, 0, pid(0)), CommandReturn::Failure(ErrorCode::INVAL));
    assert_eq!(d.appid, None);
    assert_eq!(d.aes.hw.disables, 1);
}

#[test]
fn setup_without_key_is_reserve() {
    let mut d = driver(1, 16);
    assert_eq!(d.command(1, 0, 1, pid(0)), CommandReturn::Success);
    assert_eq!(d.command(2, 0, 0, pid(0)), CommandReturn::Failure(ErrorCode::RESERVE));
    assert_eq!(d.appid, None);
}

#[test]
fn setup_reports_hardware_errors() {
    let mut d = driver(1, 16);
    prepare(&mut d, 0, 0, &[1; 16], 16);
    d.aes.hw.mode_error = Some(ErrorCode::BUSY);
    assert_eq!(d.command(2, 0, 0, pid(0)), CommandReturn::Failure(ErrorCode::BUSY));
    d.aes.hw.mode_error = None;
    d.aes.hw.key_error = Some(ErrorCode::SIZE);
    assert_eq!(d.command(2, 0, 0, pid(0)), CommandReturn::Failure(ErrorCode::SIZE));
    assert_eq!(d.appid, None);
}

#[test]
fn refused_crypt_releases_owner_and_keeps_buffers() {
    let mut d = driver(1, 16);
    prepare(&mut d, 0, 0, &[1; 16], 16);
    d.aes.hw.refuse_crypt = Some(Err(ErrorCode::BUSY));
    assert_eq!(d.command(2, 0, 0, pid(0)), CommandReturn::Failure(ErrorCode::BUSY));
    assert_eq!(d.appid, None);
    assert!(d.source_buffer.is_some());
    assert!(d.dest_buffer.is_some());
    // disabled once by the refusal, once by the failed setup
    assert_eq!(d.aes.hw.disables, 2);
}

#[test]
fn second_process_queues_and_starts_after_finish() {
    let mut d = driver(2, 16);
    prepare(&mut d, 0, 0, &[1; 16], 16);
    prepare(&mut d, 1, 2, &[2; 16], 16);
    assert_eq!(d.command(2, 0, 0, pid(0)), CommandReturn::Success);
    assert_eq!(d.command(2, 0, 0, pid(1)), CommandReturn::Success);
    assert_eq!(d.apps.procs[1].grant.as_ref().unwrap().pending_run_app, Some(pid(1)));
    assert_eq!(d.appid, Some(pid(0)));
    // Only one request can wait.
    assert_eq!(d.command(2, 0, 0, pid(1)), CommandReturn::Failure(ErrorCode::NOMEM));
    // The waiting process cannot crypt or finish.
    assert_eq!(d.command(3, 0, 0, pid(1)), CommandReturn::Failure(ErrorCode::OFF));
    assert_eq!(d.command(4, 0, 0, pid(1)), CommandReturn::Failure(ErrorCode::OFF));
    complete(&mut d);
    assert_eq!(d.command(4, 0, 0, pid(0)), CommandReturn::Success);
    // Finishing started the queued request.
    assert_eq!(d.appid, Some(pid(1)));
    assert_eq!(d.apps.procs[1].grant.as_ref().unwrap().pending_run_app, None);
    assert_eq!(d.aes.hw.mode, Some((2, true)));
    assert_eq!(d.aes.hw.crypts.last().unwrap().0, vec![2; 16]);
}

#[test]
fn crypt_and_finish_need_ownership() {
    let mut d = driver(1, 16);
    assert_eq!(d.command(3, 0, 0, pid(0)), CommandReturn::Failure(ErrorCode::OFF));
    assert_eq!(d.command(4, 0, 0, pid(0)), CommandReturn::Failure(ErrorCode::OFF));
}

#[test]
fn dead_owner_is_replaced() {
    let mut d = driver(2, 16);
    prepare(&mut d, 0, 0, &[1; 16], 16);
    prepare(&mut d, 1, 1, &[2; 16], 16);
    assert_eq!(d.command(2, 0, 0, pid(0)), CommandReturn::Success);
    complete(&mut d);
    d.apps.procs[0].alive = false;
    assert_eq!(d.command(2, 0, 0, pid(1)), CommandReturn::Success);
    assert_eq!(d.appid, Some(pid(1)));
}

#[test]
fn crypt_command_processes_next_data() {
    let mut d = driver(1, 16);
    prepare(&mut d, 0, 0, &[4; 16], 16);
    assert_eq!(d.command(2, 0, 0, pid(0)), CommandReturn::Success);
    complete(&mut d);
    assert_eq!(d.upcalls.len(), 1);
    assert!(d.allow_readonly(pid(0), 2, shared(&[6; 8])).is_ok());
    assert_eq!(d.command(3, 0, 0, pid(0)), CommandReturn::Success);
    assert_eq!(d.data_copied, 8);
    let mut block = vec![6u8; 8];
    block.extend_from_slice(&[4u8; 8]);
    assert_eq!(d.aes.hw.crypts.last().unwrap().0, block);
}

#[test]
fn crypt_command_without_buffer_reports_by_upcall() {
    let mut d = driver(1, 16);
    prepare(&mut d, 0, 0, &[4; 16], 16);
    assert_eq!(d.command(2, 0, 0, pid(0)), CommandReturn::Success);
    // The hardware holds the static buffers: NOMEM goes to the process.
    assert_eq!(d.command(3, 0, 0, pid(0)), CommandReturn::Success);
    assert_eq!(d.upcalls, vec![Upcall { pid: pid(0), num: 0, arg0: 9, arg1: 0, arg2: 0 }]);
    complete(&mut d);
    assert!(d.allow_readonly(pid(0), 2, ProcessBuffer::unshared()).is_ok());
    assert_eq!(d.command(3, 0, 0, pid(0)), CommandReturn::Success);
    assert_eq!(d.upcalls.last().unwrap().arg0, 5);
}

#[test]
fn ccm_parameters_are_set() {
    let mut d = driver(1, 16);
    assert_eq!(d.command(5, 3, 0, pid(0)), CommandReturn::Success);
    assert_eq!(d.command(6, 7, 0, pid(0)), CommandReturn::Success);
    assert_eq!(d.command(7, 8, 0, pid(0)), CommandReturn::Success);
    assert_eq!(d.command(8, 2, 0, pid(0)), CommandReturn::Success);
    let app = d.apps.procs[0].grant.as_ref().unwrap();
    assert_eq!((app.aoff, app.moff, app.mic_len, app.confidential), (3, 7, 8, true));
    assert_eq!(d.command(8, 0, 0, pid(0)), CommandReturn::Success);
    assert!(!d.apps.procs[0].grant.as_ref().unwrap().confidential);
    assert!(d.upcalls.is_empty());
    assert!(d.aes.hw.crypts.is_empty() && d.aes.hw.ccm_calls.is_empty());
}

#[test]
fn active_owner_keeps_driver_even_when_gone() {
    let mut d = driver(2, 16);
    prepare(&mut d, 0, 0, &[1; 16], 16);
    prepare(&mut d, 1, 0, &[2; 16], 16);
    assert_eq!(d.command(2, 0, 0, pid(0)), CommandReturn::Success);
    d.active = true;
    d.apps.procs[0].alive = false;
    // The request of process 1 waits although the owner is gone.
    assert_eq!(d.command(2, 0, 0, pid(1)), CommandReturn::Success);
    assert_eq!(d.appid, Some(pid(0)));
    assert_eq!(d.apps.procs[1].grant.as_ref().unwrap().pending_run_app, Some(pid(1)));
    assert_eq!(d.command(4, 0, 0, pid(1)), CommandReturn::Failure(ErrorCode::OFF));
}

#[test]
fn finish_schedules_no_upcall() {
    let mut d = driver(1, 16);
    prepare(&mut d, 0, 0, &[1; 16], 16);
    assert_eq!(d.command(2, 0, 0, pid(0)), CommandReturn::Success);
    complete(&mut d);
    let before = d.upcalls.len();
    assert_eq!(d.command(4, 0, 0, pid(0)), CommandReturn::Success);
    assert_eq!(d.upcalls.len(), before);
}

#[test]
fn ccm_operation_runs_in_place() {
    let mut d = driver(1, 16);
    prepare(&mut d, 0, 3, &[9u8; 12], 20);
    assert_eq!(d.command(5, 1, 0, pid(0)), CommandReturn::Success);
    assert_eq!(d.command(6, 2, 0, pid(0)), CommandReturn::Success);
    assert_eq!(d.command(7, 4, 0, pid(0)), CommandReturn::Success);
    assert_eq!(d.command(8, 1, 0, pid(0)), CommandReturn::Success);
    assert_eq!(d.command(2, 0, 0, pid(0)), CommandReturn::Success);
    let hw = &d.aes.hw;
    assert_eq!(hw.mode, None);
    assert_eq!(hw.ccm_key, vec![0x11; 16]);
    assert_eq!(hw.nonce, vec![0x22; 13]);
    let mut staged = vec![9u8; 12];
    staged.extend_from_slice(&[0u8; 4]);
    assert_eq!(hw.ccm_calls, vec![(staged.clone(), 1, 2, 12, 4, true, true)]);
    assert_eq!(d.data_copied, 12);
    assert!(d.source_buffer.is_some());
    assert!(d.dest_buffer.is_none());
    // The whole block was counted as copied before it comes back.
    d.data_copied = 16;
    let buf = d.aes.hw.held_ccm.take().unwrap();
    d.ccm_crypt_done(buf, Ok(()), true);
    // offset 16 - min(16, 20) = 0: the block lands at the start.
    let dest = app_dest(&d, 0);
    let expected: Vec<u8> = staged.iter().map(|b| b.wrapping_add(1)).collect();
    assert_eq!(&dest[..16], &expected[..]);
    assert_eq!(&dest[16..], &[0u8; 4][..]);
    assert_eq!(d.upcalls, vec![Upcall { pid: pid(0), num: 0, arg0: 0, arg1: 16, arg2: 1 }]);
    assert_eq!(d.data_copied, 0);
}

#[test]
fn ccm_failure_is_reported() {
    let mut d = driver(1, 16);
    prepare(&mut d, 0, 3, &[9u8; 16], 16);
    assert_eq!(d.command(2, 0, 0, pid(0)), CommandReturn::Success);
    let buf = d.aes.hw.held_ccm.take().unwrap();
    d.ccm_crypt_done(buf, Err(ErrorCode::FAIL), false);
    assert_eq!(d.upcalls, vec![Upcall { pid: pid(0), num: 0, arg0: 1, arg1: 0, arg2: 0 }]);
    assert!(d.dest_buffer.is_some());
}

#[test]
fn refused_ccm_releases_owner() {
    let mut d = driver(1, 16);
    prepare(&mut d, 0, 3, &[9u8; 16], 16);
    d.aes.hw.refuse_ccm = Some(ErrorCode::NOMEM);
    assert_eq!(d.command(2, 0, 0, pid(0)), CommandReturn::Failure(ErrorCode::NOMEM));
    assert_eq!(d.appid, None);
    assert!(d.dest_buffer.is_some());
}

#[test]
fn completion_for_gone_owner_releases_it() {
    let mut d = driver(1, 16);
    prepare(&mut d, 0, 0, &[1; 16], 16);
    assert_eq!(d.command(2, 0, 0, pid(0)), CommandReturn::Success);
    d.apps.procs[0].alive = false;
    complete(&mut d);
    assert_eq!(d.appid, None);
    assert!(d.source_buffer.is_some());
    assert!(d.dest_buffer.is_some());
    assert!(d.upcalls.is_empty());
}

#[test]
fn completion_without_destination_releases_owner() {
    let mut d = driver(1, 16);
    prepare(&mut d, 0, 0, &[1; 16], 16);
    assert_eq!(d.command(2, 0, 0, pid(0)), CommandReturn::Success);
    assert!(d.allow_readwrite(pid(0), 0, ProcessBuffer::unshared()).is_ok());
    complete(&mut d);
    assert_eq!(d.appid, None);
    assert_eq!(d.upcalls, vec![Upcall { pid: pid(0), num: 0, arg0: 0, arg1: 0, arg2: 0 }]);
}

#[test]
fn completion_without_data_releases_owner() {
    let mut d = driver(1, 16);
    prepare(&mut d, 0, 0, &[1; 16], 16);
    assert_eq!(d.command(2, 0, 0, pid(0)), CommandReturn::Success);
    assert!(d.allow_readonly(pid(0), 2, ProcessBuffer::unshared()).is_ok());
    d.data_copied = 0;
    complete(&mut d);
    assert_eq!(d.appid, None);
    assert_eq!(d.upcalls, vec![Upcall { pid: pid(0), num: 0, arg0: 5, arg1: 0, arg2: 0 }]);
}

#[test]
fn refused_next_chunk_is_reported_to_owner() {
    let mut d = driver(1, 16);
    prepare(&mut d, 0, 0, &[1; 20], 32);
    assert_eq!(d.command(2, 0, 0, pid(0)), CommandReturn::Success);
    d.aes.hw.refuse_crypt = Some(Err(ErrorCode::BUSY));
    complete(&mut d);
    assert_eq!(d.appid, None);
    assert_eq!(d.upcalls, vec![Upcall { pid: pid(0), num: 0, arg0: 2, arg1: 0, arg2: 0 }]);
    assert!(d.source_buffer.is_some() && d.dest_buffer.is_some());
}

#[test]
fn later_requests_keep_waiting() {
    let mut d = driver(3, 16);
    prepare(&mut d, 0, 0, &[1; 16], 16);
    prepare(&mut d, 1, 0, &[2; 16], 16);
    prepare(&mut d, 2, 0, &[3; 16], 16);
    assert_eq!(d.command(2, 0, 0, pid(0)), CommandReturn::Success);
    assert_eq!(d.command(2, 0, 0, pid(1)), CommandReturn::Success);
    assert_eq!(d.command(2, 0, 0, pid(2)), CommandReturn::Success);
    complete(&mut d);
    assert_eq!(d.command(4, 0, 0, pid(0)), CommandReturn::Success);
    assert_eq!(d.appid, Some(pid(1)));
    assert_eq!(d.apps.procs[1].grant.as_ref().unwrap().pending_run_app, None);
    assert_eq!(d.apps.procs[2].grant.as_ref().unwrap().pending_run_app, Some(pid(2)));
}

#[test]
fn key_survives_other_calls() {
    let mut d = driver(1, 16);
    prepare(&mut d, 0, 0, &[1; 16], 16);
    assert_eq!(d.command(2, 0, 0, pid(0)), CommandReturn::Success);
    complete(&mut d);
    assert!(d.allow_readonly(pid(0), 1, shared(&[5; 16])).is_ok());
    assert_eq!(d.command(4, 0, 0, pid(0)), CommandReturn::Success);
    let back = d.allow_readonly(pid(0), 0, ProcessBuffer::unshared()).ok().unwrap();
    assert_eq!(bytes_of(&back), vec![0x11; 16]);
}
