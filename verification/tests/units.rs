use lib::bytes::{copy_back, copy_range, load_next, stage_prefix};
use lib::error::{into_statuscode, CommandReturn, ErrorCode, ProcessError};
use lib::grant::{App, Grants, ProcessBuffer, ProcessEntry, ProcessId};
use lib::hil::{AES128_BLOCK_SIZE, CCM_NONCE_LENGTH};

#[test]
fn stage_prefix_copies_what_fits() {
    let mut buf = vec![0u8; 4];
    assert_eq!(stage_prefix(&mut buf, &[1, 2]), 2);
    assert_eq!(buf, vec![1, 2, 0, 0]);
    assert_eq!(stage_prefix(&mut buf, &[5, 6, 7, 8, 9, 10]), 4);
    assert_eq!(buf, vec![5, 6, 7, 8]);
    assert_eq!(stage_prefix(&mut buf, &[]), 0);
    assert_eq!(buf, vec![5, 6, 7, 8]);
}

#[test]
fn copy_range_writes_a_window() {
    let mut dst = vec![0u8; 6];
    copy_range(&mut dst, 2, &[9, 8, 7, 6], 1, 3);
    assert_eq!(dst, vec![0, 0, 8, 7, 6, 0]);
}

#[test]
fn copy_back_short_destination() {
    // destination shorter than the block: what fits after the offset
    let mut dest = vec![0u8; 5];
    copy_back(&mut dest, &[1, 2, 3, 4, 5, 6, 7, 8], 2, 8);
    assert_eq!(dest, vec![0, 0, 1, 2, 3]);
    // nothing fits past the end
    let mut dest = vec![0u8; 5];
    copy_back(&mut dest, &[1, 2, 3, 4, 5, 6, 7, 8], 5, 8);
    assert_eq!(dest, vec![0u8; 5]);
}

#[test]
fn copy_back_long_destination() {
    let mut dest = vec![0u8; 10];
    copy_back(&mut dest, &[1, 2, 3, 4], 3, 4);
    assert_eq!(dest, vec![0, 0, 0, 1, 2, 3, 4, 0, 0, 0]);
    // a block that does not fit whole is dropped
    let mut dest = vec![0u8; 10];
    copy_back(&mut dest, &[1, 2, 3, 4], 8, 4);
    assert_eq!(dest, vec![0u8; 10]);
}

#[test]
fn load_next_takes_the_rest() {
    let src: Vec<u8> = (0..10).collect();
    let mut buf = vec![0xffu8; 4];
    load_next(&mut buf, &src, 4);
    assert_eq!(buf, vec![4, 5, 6, 7]);
    load_next(&mut buf, &src, 8);
    assert_eq!(buf, vec![8, 9, 6, 7]);
    load_next(&mut buf, &src, 10);
    assert_eq!(buf, vec![8, 9, 6, 7]);
}

#[test]
fn error_codes_and_status() {
    assert_eq!(ErrorCode::FAIL.as_usize(), 1);
    assert_eq!(ErrorCode::OFF.as_usize(), 4);
    assert_eq!(ErrorCode::RESERVE.as_usize(), 5);
    assert_eq!(ErrorCode::NOMEM.as_usize(), 9);
    assert_eq!(ErrorCode::NOSUPPORT.as_usize(), 10);
    assert_eq!(ErrorCode::NOACK.as_usize(), 13);
    assert_eq!(into_statuscode(Ok(())), 0);
    assert_eq!(into_statuscode(Err(ErrorCode::SIZE)), 7);
}

#[test]
fn process_errors_map_to_error_codes() {
    assert_eq!(ProcessError::NoSuchApp.to_error_code(), ErrorCode::INVAL);
    assert_eq!(ProcessError::OutOfMemory.to_error_code(), ErrorCode::NOMEM);
    assert_eq!(ProcessError::AddressOutOfBounds.to_error_code(), ErrorCode::INVAL);
    assert_eq!(ProcessError::InactiveApp.to_error_code(), ErrorCode::FAIL);
    assert_eq!(ProcessError::KernelError.to_error_code(), ErrorCode::FAIL);
    assert_eq!(ProcessError::AlreadyInUse.to_error_code(), ErrorCode::FAIL);
    assert_eq!(ProcessError::NoSuchApp.as_usize(), 0);
    assert_eq!(ProcessError::InactiveApp.as_usize(), 3);
    assert_eq!(
        CommandReturn::from_process_error(ProcessError::OutOfMemory),
        CommandReturn::Failure(ErrorCode::NOMEM)
    );
}

#[test]
fn process_buffer_lengths() {
    assert_eq!(ProcessBuffer::unshared().len(), 0);
    assert_eq!(ProcessBuffer::shared(vec![1, 2, 3]).len(), 3);
}

#[test]
fn fresh_app_is_empty() {
    let a = App::default();
    assert!(a.pending_run_app.is_none());
    assert!(a.aes_operation.is_none());
    assert!(a.key.data.is_none() && a.iv.data.is_none());
    assert!(a.source.data.is_none() && a.dest.data.is_none());
    assert_eq!((a.aoff, a.moff, a.mlen, a.mic_len, a.confidential), (0, 0, 0, 0, false));
}

#[test]
fn grant_enter_allocates_once() {
    let mut g = Grants {
        procs: vec![
            ProcessEntry { alive: true, grant_room: true, grant: None },
            ProcessEntry { alive: false, grant_room: true, grant: None },
        ],
    };
    assert_eq!(g.enter(ProcessId { id: 0 }), Ok(()));
    g.procs[0].grant.as_mut().unwrap().aoff = 4;
    assert_eq!(g.enter(ProcessId { id: 0 }), Ok(()));
    assert_eq!(g.app_ref(ProcessId { id: 0 }).aoff, 4);
    assert_eq!(g.enter(ProcessId { id: 1 }), Err(ProcessError::InactiveApp));
    assert_eq!(g.enter(ProcessId { id: 2 }), Err(ProcessError::NoSuchApp));
}

#[test]
fn sizes() {
    assert_eq!(AES128_BLOCK_SIZE, 16);
    assert_eq!(CCM_NONCE_LENGTH, 13);
}
