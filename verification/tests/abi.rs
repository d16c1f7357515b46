use agentfs_fskit::abi::{FFIBuffer, FFIResult, EINVAL, EIO, ENOENT};

#[test]
fn test_ffi_result_values() {
    let ok = FFIResult::ok();
    assert!(ok.success);
    assert_eq!(ok.error_code, 0);

    let not_found = FFIResult::not_found();
    assert!(!not_found.success);
    assert_eq!(not_found.error_code, libc::ENOENT);
}

#[test]
fn test_ffi_buffer_from_vec() {
    let data = vec![1u8, 2, 3, 4, 5];
    let buf = FFIBuffer::from_vec(data);
    assert!(buf.data.is_some());
    assert_eq!(buf.len, 5);
    assert_eq!(buf.capacity, 5);
}

#[test]
fn errno_codes_match_the_platform() {
    assert_eq!(ENOENT, libc::ENOENT);
    assert_eq!(EIO, libc::EIO);
    assert_eq!(EINVAL, libc::EINVAL);
}

#[test]
fn error_envelopes_carry_their_codes() {
    let io = FFIResult::io_error();
    assert!(!io.success);
    assert_eq!(io.error_code, libc::EIO);

    let inval = FFIResult::invalid_arg();
    assert!(!inval.success);
    assert_eq!(inval.error_code, libc::EINVAL);

    let custom = FFIResult::err(libc::ENOTDIR);
    assert!(!custom.success);
    assert_eq!(custom.error_code, libc::ENOTDIR);
}

#[test]
fn null_buffer_is_the_zero_sentinel() {
    let buf = FFIBuffer::null();
    assert!(buf.data.is_none());
    assert_eq!(buf.len, 0);
    assert_eq!(buf.capacity, 0);
}

#[test]
fn buffer_contents_cross_unchanged() {
    let data = b"payload".to_vec();
    let buf = FFIBuffer::from_vec(data.clone());
    assert_eq!(buf.data.as_deref(), Some(data.as_slice()));
    assert_eq!(buf.len, data.len());
}
