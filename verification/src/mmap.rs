//! Anonymous private mappings: the system calls to make and what their results mean.
use vstd::prelude::*;

verus! {

/// `mmap` on x86-64 Linux.
pub const SYS_MMAP: usize = 9;

/// `munmap` on x86-64 Linux.
pub const SYS_MUNMAP: usize = 11;

/// The mapping can be read and written.
pub const PROT_READ_WRITE: usize = 0x3;

/// The mapping is private and has no file behind it.
pub const MAP_PRIVATE_ANONYMOUS: usize = 0x22;

/// The argument is invalid.
pub const EINVAL: i32 = 22;

/// The largest error number that a result can stand for.
pub const MAX_ERRNO: usize = 4096;

/// The arguments of `mmap`, in order.
#[derive(Debug, Clone, Copy, PartialEq, Eq, Structural)]
pub struct MmapCall {
    pub addr: usize,
    pub length: usize,
    pub prot: usize,
    pub flags: usize,
    pub fd: usize,
    pub offset: usize,
}

/// The call that maps `size` bytes: anywhere, readable and writable, private, with no file (all
/// bits of the descriptor set). Nothing and more than a slice can hold are refused.
pub open spec fn mmap_call_for(size: usize) -> Result<MmapCall, i32> {
    if 1 <= size <= isize::MAX {
        Ok(
            MmapCall {
                addr: 0,
                length: size,
                prot: PROT_READ_WRITE,
                flags: MAP_PRIVATE_ANONYMOUS,
                fd: usize::MAX,
                offset: 0,
            },
        )
    } else {
        Err(EINVAL)
    }
}

/// Says which call maps `size` bytes.
pub fn mmap_call(size: usize) -> (r: Result<MmapCall, i32>)
    ensures
        r == mmap_call_for(size),
{
    if size == 0 || size > isize::MAX as usize {
        return Err(EINVAL);
    }
    Ok(
        MmapCall {
            addr: 0,
            length: size,
            prot: PROT_READ_WRITE,
            flags: MAP_PRIVATE_ANONYMOUS,
            fd: usize::MAX,
            offset: 0,
        },
    )
}

/// The meaning of a result of a system call: the last 4096 values are negated error numbers,
/// all others are successes.
pub open spec fn syscall_meaning(ret: usize) -> Result<usize, i32> {
    if ret + MAX_ERRNO > usize::MAX {
        Err((usize::MAX - ret + 1) as i32)
    } else {
        Ok(ret)
    }
}

fn check_syscall(ret: usize) -> (r: Result<usize, i32>)
    ensures
        r == syscall_meaning(ret),
{
    if ret >= usize::MAX - (MAX_ERRNO - 1) {
        Err((usize::MAX - ret + 1) as i32)
    } else {
        Ok(ret)
    }
}

/// What a result of `mmap` means: the address of the mapping, or an error number.
pub fn mmap_result(ret: usize) -> (r: Result<usize, i32>)
    ensures
        r == syscall_meaning(ret),
        r is Ok <==> ret <= usize::MAX - 4096,
        r matches Ok(address) ==> address == ret,
        r matches Err(errno) ==> errno + ret == usize::MAX + 1,
{
    check_syscall(ret)
}

/// What a result of `munmap` means.
pub fn munmap_result(ret: usize) -> (r: Result<(), i32>)
    ensures
        r == match syscall_meaning(ret) {
            Ok(_) => Ok(()),
            Err(errno) => Err(errno),
        },
        r is Ok <==> ret <= usize::MAX - 4096,
        r matches Err(errno) ==> errno + ret == usize::MAX + 1,
{
    match check_syscall(ret) {
        Ok(_) => Ok(()),
        Err(errno) => Err(errno),
    }
}

/// An error number that comes out of a result is one of 1 to 4096, and the result is the one
/// that stands for it: their sum is 2 to the number of bits of a word.
pub proof fn law_error_numbers(ret: usize)
    ensures
        syscall_meaning(ret) matches Err(errno) ==> {
            &&& 1 <= errno <= 4096
            &&& ret + errno == usize::MAX + 1
        },
{
}

/// Every error number from 1 to 4096 can be told from a result, and no address of a mapping of
/// a page or more is taken for one.
pub proof fn law_results_are_told_apart(errno: i32, address: usize)
    requires
        1 <= errno <= 4096,
        address + 4096 <= usize::MAX,
    ensures
        syscall_meaning((usize::MAX - errno + 1) as usize) == Err::<usize, i32>(errno),
        syscall_meaning(address) == Ok::<usize, i32>(address),
{
}

/// A mapping is asked for exactly where its size fits a slice, and it is of that size, at no
/// particular address, readable and writable, private, and of no file.
pub proof fn law_mapping_fits_a_slice(size: usize)
    ensures
        mmap_call_for(size) matches Ok(call) ==> {
            &&& call.length == size && 0 < call.length <= isize::MAX
            &&& call.addr == 0 && call.offset == 0
            &&& call.prot == 1 + 2
            &&& call.flags == 0x02 + 0x20
            &&& call.fd == usize::MAX
        },
        mmap_call_for(size) is Err <==> size == 0 || size > isize::MAX,
        mmap_call_for(size) matches Err(errno) ==> errno == 22,
{
}

} // verus!
