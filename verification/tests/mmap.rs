use pyroscope_kit::mmap::{mmap_call, mmap_result, munmap_result, MmapCall};

#[test]
fn test_mmap_size_zero_returns_err() {
    let result = mmap_call(0);
    assert!(result.is_err());
    let errno = result.unwrap_err();
    let expected = libc::EINVAL;
    assert_eq!(errno, expected, "expected EINVAL ({expected}), got {errno}");
}

#[test]
fn mapping_is_private_anonymous_and_writable() {
    assert_eq!(
        mmap_call(4096),
        Ok(MmapCall {
            addr: 0,
            length: 4096,
            prot: (libc::PROT_READ | libc::PROT_WRITE) as usize,
            flags: (libc::MAP_PRIVATE | libc::MAP_ANONYMOUS) as usize,
            fd: usize::MAX,
            offset: 0,
        })
    );
}

#[test]
fn mapping_fits_a_slice() {
    assert!(mmap_call(isize::MAX as usize).is_ok());
    assert_eq!(mmap_call(isize::MAX as usize + 1), Err(22));
    assert_eq!(mmap_call(usize::MAX), Err(22));
}

#[test]
fn results_are_addresses_or_error_numbers() {
    assert_eq!(mmap_result(0x7f00_0000_0000), Ok(0x7f00_0000_0000));
    assert_eq!(mmap_result(usize::MAX - 4096), Ok(usize::MAX - 4096));
    assert_eq!(mmap_result(usize::MAX - 4095), Err(4096));
    assert_eq!(mmap_result(-(libc::ENOMEM as isize) as usize), Err(libc::ENOMEM));
    assert_eq!(mmap_result(usize::MAX), Err(1));
}

#[test]
fn unmapping_succeeds_or_gives_an_error_number() {
    assert_eq!(munmap_result(0), Ok(()));
    assert_eq!(munmap_result(-22isize as usize), Err(22));
}
