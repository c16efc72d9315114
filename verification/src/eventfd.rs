//! Event descriptors: the system calls to make, what their results mean, and which descriptor
//! of a set has fired.
use vstd::prelude::*;

verus! {

/// `write` on x86-64 Linux.
pub const SYS_WRITE: usize = 1;

/// `eventfd2` on x86-64 Linux.
pub const SYS_EVENTFD2: usize = 290;

/// Reads do not block, and each of them takes one from the counter.
pub const EFD_NONBLOCK_SEMAPHORE: usize = 0x801;

/// The descriptor is in the set already.
pub const EEXIST: i32 = 17;

/// The set has no room left.
pub const ENOSPC: i32 = 28;

/// Nothing fired in time.
pub const ETIMEDOUT: i32 = 110;

/// The most descriptors that a set holds.
pub const EVENT_SET_CAPACITY: usize = 64;

/// The arguments of `eventfd2`, in order.
#[derive(Debug, Clone, Copy, PartialEq, Eq, Structural)]
pub struct EventFdCall {
    pub initial: usize,
    pub flags: usize,
}

/// Says which call creates an event descriptor: one that counts from 0, does not block, and
/// gives back one notification per read.
pub fn eventfd_create_call() -> (r: EventFdCall)
    ensures
        r == (EventFdCall { initial: 0, flags: EFD_NONBLOCK_SEMAPHORE }),
        r.initial == 0 && r.flags == 0x800 + 0x1,
{
    EventFdCall { initial: 0, flags: EFD_NONBLOCK_SEMAPHORE }
}

/// What a result of `eventfd2` means: itself, or from below zero its negation as an error.
pub open spec fn create_answer(ret: isize) -> Result<i32, i32> {
    if ret >= 0 {
        Ok(ret as i32)
    } else {
        Err((-ret) as i32)
    }
}

/// What a result of `eventfd2` means: a descriptor, or a negated error number.
pub fn eventfd_create_result(ret: isize) -> (r: Result<i32, i32>)
    requires
        ret != isize::MIN,
    ensures
        r == if ret >= 0 {
            Ok::<i32, i32>(ret as i32)
        } else {
            Err::<i32, i32>((-ret) as i32)
        },
        r == create_answer(ret),
        r is Ok <==> ret >= 0,
        0 <= ret <= i32::MAX ==> r == Ok::<i32, i32>(ret as i32),
        -i32::MAX <= ret ==> (r matches Err(errno) ==> errno + ret == 0),
{
    if ret >= 0 {
        Ok(ret as i32)
    } else {
        Err((-ret) as i32)
    }
}

/// What is written to a descriptor to notify it: the value 1 in the eight bytes of a machine
/// word, as one `write`.
#[derive(Debug, Clone, Copy, PartialEq, Eq, Structural)]
pub struct NotifyCall {
    pub fd: i32,
    pub value: u64,
    pub length: usize,
}

/// The write that notifies a descriptor.
pub open spec fn notify_write(fd: i32) -> NotifyCall {
    NotifyCall { fd, value: 1, length: 8 }
}

/// Says which write notifies a descriptor. Its result is of no interest: in a signal handler
/// nothing could be done about a failure.
pub fn eventfd_notify_call(fd: i32) -> (r: NotifyCall)
    ensures
        r == notify_write(fd),
        r.fd == fd && r.value == 1 && r.length == 8,
{
    NotifyCall { fd, value: 1, length: 8 }
}

/// An error number of the system.
#[derive(Debug, Clone, Copy, PartialEq, Eq, Structural)]
pub struct Errno(pub i32);

/// The descriptors that are waited for together. A descriptor's index is its place in the
/// order of adding.
pub struct EventSet {
    fds: Vec<i32>,
}

impl View for EventSet {
    type V = Seq<i32>;

    closed spec fn view(&self) -> Seq<i32> {
        self.fds@
    }
}

/// What adding `fd` to a set of `fds` answers: its index, or why it cannot be added.
pub open spec fn slot(fds: Seq<i32>, fd: i32) -> Result<usize, Errno> {
    if fds.len() >= EVENT_SET_CAPACITY {
        Err(Errno(ENOSPC))
    } else if fds.contains(fd) {
        Err(Errno(EEXIST))
    } else {
        Ok(fds.len() as usize)
    }
}

/// What waiting answers, given the number of descriptors that the system reported, or a negated
/// error number, and the index that came with the first of them.
pub open spec fn wait_answer(ret: isize, index: usize) -> Result<usize, Errno> {
    if ret < 0 {
        Err(Errno((-ret) as i32))
    } else if ret == 0 {
        Err(Errno(ETIMEDOUT))
    } else {
        Ok(index)
    }
}

impl EventSet {
    /// The set holds no more than it has room for, and nothing twice.
    #[verifier::type_invariant]
    spec fn inv(self) -> bool {
        set_wf(self.fds@)
    }

    /// A set without descriptors.
    pub fn new() -> (r: EventSet)
        ensures
            r@ == Seq::<i32>::empty(),
    {
        EventSet { fds: Vec::new() }
    }

    /// How many descriptors there are.
    pub fn len(&self) -> (r: usize)
        ensures
            r == self@.len(),
            set_wf(self@),
    {
        proof {
            use_type_invariant(self);
        }
        self.fds.len()
    }

    /// Says what adding a descriptor would answer.
    pub fn slot_for(&self, fd: i32) -> (r: Result<usize, Errno>)
        ensures
            r == slot(self@, fd),
            set_wf(self@),
    {
        proof {
            use_type_invariant(self);
        }
        if self.fds.len() >= EVENT_SET_CAPACITY {
            return Err(Errno(ENOSPC));
        }
        let mut i: usize = 0;
        while i < self.fds.len()
            invariant
                0 <= i <= self.fds@.len(),
                set_wf(self.fds@),
                self.fds@.len() < EVENT_SET_CAPACITY,
                forall|j: int| 0 <= j < i ==> self.fds@[j] != fd,
            decreases self.fds@.len() - i,
        {
            if self.fds[i] == fd {
                assert(self@.contains(self.fds@[i as int]));
                return Err(Errno(EEXIST));
            }
            i += 1;
        }
        Ok(i)
    }

    /// Adds a descriptor and answers its index.
    pub fn add(&mut self, fd: i32) -> (r: Result<usize, Errno>)
        ensures
            r == slot(old(self)@, fd),
            final(self)@ == if r is Ok {
                old(self)@.push(fd)
            } else {
                old(self)@
            },
            set_wf(old(self)@),
            r is Ok <==> old(self)@.len() < EVENT_SET_CAPACITY && !old(self)@.contains(fd),
            r matches Ok(index) ==> index == old(self)@.len() && final(self)@[index as int] == fd,
    {
        proof {
            use_type_invariant(&*self);
        }
        let r = self.slot_for(fd);
        if r.is_ok() {
            proof {
                law_add_keeps_set(self.fds@, fd);
            }
            let mut fds: Vec<i32> = Vec::new();
            std::mem::swap(&mut fds, &mut self.fds);
            fds.push(fd);
            self.fds = fds;
        }
        r
    }

    /// Says which descriptor fired.
    pub fn wait_result(&self, ret: isize, index: usize) -> (r: Result<usize, Errno>)
        requires
            ret != isize::MIN,
            ret > 0 ==> index < self@.len(),
        ensures
            r == wait_answer(ret, index),
            r matches Ok(i) ==> i < self@.len(),
            r is Ok <==> ret > 0,
            r matches Ok(i) ==> i == index,
    {
        if ret < 0 {
            Err(Errno((-ret) as i32))
        } else if ret == 0 {
            Err(Errno(ETIMEDOUT))
        } else {
            Ok(index)
        }
    }
}

/// The descriptors of a set: no more than it has room for, and none twice.
pub open spec fn set_wf(fds: Seq<i32>) -> bool {
    fds.len() <= EVENT_SET_CAPACITY && fds.no_duplicates()
}

/// Adding keeps a set within its room and free of duplicates.
pub proof fn law_add_keeps_set(fds: Seq<i32>, fd: i32)
    requires
        set_wf(fds),
    ensures
        slot(fds, fd) is Ok ==> set_wf(fds.push(fd)),
{
    if slot(fds, fd) is Ok {
        let more = fds.push(fd);
        assert forall|i: int, j: int|
            0 <= i < more.len() && 0 <= j < more.len() && i != j implies more[i] != more[j] by {
            if i == fds.len() {
                assert(fds.contains(fds[j]));
            } else if j == fds.len() {
                assert(fds.contains(fds[i]));
            }
        }
    }
}

/// An index names one descriptor: the one that was added under it, whatever is added later. A
/// descriptor that was added cannot be added again, and a full set takes none.
pub proof fn law_indices_name_descriptors(fds: Seq<i32>, fd: i32, later: Seq<i32>)
    requires
        slot(fds, fd) is Ok,
        set_wf(fds.push(fd) + later),
    ensures
        ({
            let all = fds.push(fd) + later;
            let index = slot(fds, fd)->Ok_0;
            &&& all[index as int] == fd
            &&& forall|i: int| 0 <= i < all.len() && all[i] == fd ==> i == index
            &&& slot(all, fd) == Err::<usize, Errno>(
                Errno(
                    if all.len() == EVENT_SET_CAPACITY {
                        ENOSPC
                    } else {
                        EEXIST
                    },
                ),
            )
        }),
{
    let all = fds.push(fd) + later;
    assert(all[fds.len() as int] == fd);
    assert(all.contains(fd));
}

/// A descriptor can be added exactly where there is room and it is not in the set, whatever its
/// number is, and it gets the next index. A full set answers 28, a descriptor that is there 17.
pub proof fn law_added_where_there_is_room(fds: Seq<i32>, fd: i32)
    ensures
        slot(fds, fd) is Ok <==> fds.len() < EVENT_SET_CAPACITY && forall|i: int|
            0 <= i < fds.len() ==> fds[i] != fd,
        slot(fds, fd) matches Ok(index) ==> index == fds.len(),
        fds.len() >= EVENT_SET_CAPACITY ==> slot(fds, fd) == Err::<usize, Errno>(Errno(28)),
        fds.len() < EVENT_SET_CAPACITY && fds.contains(fd) ==> slot(fds, fd) == Err::<
            usize,
            Errno,
        >(Errno(17)),
        EVENT_SET_CAPACITY >= 16,
{
    if !fds.contains(fd) {
        assert forall|i: int| 0 <= i < fds.len() implies fds[i] != fd by {
            assert(fds.contains(fds[i]));
        }
    }
}

/// Two descriptors that are not in a set are treated alike: which numbers they have is of no
/// account.
pub proof fn law_numbers_do_not_matter(fds: Seq<i32>, a: i32, b: i32)
    requires
        !fds.contains(a),
        !fds.contains(b),
    ensures
        slot(fds, a) == slot(fds, b),
{
}

/// A wait that the system answered with a descriptor gives that descriptor's index; without one
/// it is 110, and a failure gives the error number whose negation the system answered.
pub proof fn law_wait_tells_the_index(ret: isize, index: usize)
    ensures
        ret > 0 ==> wait_answer(ret, index) == Ok::<usize, Errno>(index),
        ret == 0 ==> wait_answer(ret, index) == Err::<usize, Errno>(Errno(110)),
        -i32::MAX <= ret < 0 ==> (wait_answer(ret, index) matches Err(errno) && errno.0 + ret == 0),
        wait_answer(ret, index) is Ok <==> ret > 0,
{
}

/// A result that is no descriptor is an error whose number is the result's negation; every
/// descriptor comes out as it is.
pub proof fn law_create_tells_the_descriptor(ret: isize)
    ensures
        0 <= ret <= i32::MAX ==> (create_answer(ret) matches Ok(fd) && fd == ret),
        -i32::MAX <= ret < 0 ==> (create_answer(ret) matches Err(errno) && errno + ret == 0),
        create_answer(ret) is Ok <==> ret >= 0,
{
}

/// The descriptor that is notified is the one that was asked for, by the eight bytes of a 1.
pub proof fn law_notify_writes_one(fd: i32)
    ensures
        notify_write(fd).fd == fd,
        notify_write(fd).value == 1,
        notify_write(fd).length == 8,
{
}

} // verus!
