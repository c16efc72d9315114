use pyroscope_kit::eventfd::{
    eventfd_create_call, eventfd_create_result, eventfd_notify_call, Errno, EventFdCall, EventSet,
    NotifyCall, EVENT_SET_CAPACITY,
};

#[test]
fn eventfd_create_returns_valid_fd() {
    let fd = eventfd_create_result(5).expect("a descriptor");
    assert!(fd >= 0, "fd must be non-negative");
    assert_eq!(fd, 5);
}

#[test]
fn descriptor_zero_is_no_error() {
    assert_eq!(eventfd_create_result(0), Ok(0));
}

#[test]
fn failed_creation_gives_the_error_number() {
    assert_eq!(eventfd_create_result(-(libc::EMFILE as isize)), Err(libc::EMFILE));
}

#[test]
fn descriptors_are_non_blocking_semaphores() {
    assert_eq!(
        eventfd_create_call(),
        EventFdCall { initial: 0, flags: (libc::EFD_NONBLOCK | libc::EFD_SEMAPHORE) as usize }
    );
}

#[test]
fn notification_writes_one() {
    assert_eq!(eventfd_notify_call(9), NotifyCall { fd: 9, value: 1, length: 8 });
}

/// Stands in for the system: it keeps the index that each descriptor was registered with, and
/// reports the descriptors that were notified, the last one first.
struct Registry {
    registered: Vec<(i32, usize)>,
    notified: Vec<i32>,
}

impl Registry {
    fn new() -> Registry {
        Registry { registered: Vec::new(), notified: Vec::new() }
    }

    fn add(&mut self, set: &mut EventSet, fd: i32) -> Result<usize, Errno> {
        let index = set.slot_for(fd)?;
        self.registered.push((fd, index));
        set.add(fd)
    }

    fn notify(&mut self, fd: i32) {
        self.notified.push(fd);
    }

    fn wait(&mut self, set: &EventSet) -> Result<usize, Errno> {
        match self.notified.pop() {
            None => set.wait_result(0, 0),
            Some(fd) => {
                let entry = self.registered.iter().find(|entry| entry.0 == fd).unwrap();
                set.wait_result(1, entry.1)
            }
        }
    }
}

#[test]
fn event_set_single_fd_wait() {
    let mut system = Registry::new();
    let mut set = EventSet::new();
    let idx = system.add(&mut set, 3).expect("EventSet::add");
    assert_eq!(idx, 0);

    system.notify(3);
    let fired = system.wait(&set).expect("EventSet::wait");
    assert_eq!(fired, 0);
}

#[test]
fn event_set_identifies_which_fd_fired() {
    let fds: Vec<i32> = vec![14, 11, 19, 12];
    let mut system = Registry::new();
    let mut set = EventSet::new();
    for fd in &fds {
        system.add(&mut set, *fd).unwrap();
    }

    system.notify(fds[2]);
    let fired = system.wait(&set).unwrap();
    assert_eq!(fired, 2, "expected index 2 to fire");
}

#[test]
fn event_set_add_capacity_limit() {
    let mut set = EventSet::new();
    for fd in 0..EVENT_SET_CAPACITY {
        assert_eq!(set.add(fd as i32), Ok(fd));
    }

    let err = set.add(EVENT_SET_CAPACITY as i32).expect_err("add beyond capacity should fail");
    assert_eq!(err.0, 28, "expected ENOSPC (28), got errno {}", err.0);
    assert_eq!(set.len(), EVENT_SET_CAPACITY);
}

#[test]
fn event_set_wait_timeout_zero_on_empty_returns_etimedout() {
    let mut system = Registry::new();
    let set = EventSet::new();
    let err = system.wait(&set).expect_err("wait(0) on empty set should fail");
    assert_eq!(err.0, 110, "expected ETIMEDOUT (110), got errno {}", err.0);
}

#[test]
fn event_set_multiple_simultaneous_fires_sequential_draining() {
    let fds: Vec<i32> = vec![24, 21, 29, 22];
    let mut system = Registry::new();
    let mut set = EventSet::new();
    for fd in &fds {
        system.add(&mut set, *fd).unwrap();
    }

    system.notify(fds[0]);
    system.notify(fds[3]);

    let first = system.wait(&set).unwrap();
    let second = system.wait(&set).unwrap();

    let mut seen = [first, second];
    seen.sort_unstable();
    assert_eq!(seen, [0, 3], "expected both index 0 and 3, got {first} and {second}");
}

#[test]
fn event_set_add_same_fd_twice_returns_eexist() {
    let mut set = EventSet::new();
    set.add(6).unwrap();

    let err = set.add(6).expect_err("duplicate add should fail");
    assert_eq!(err.0, 17, "expected EEXIST (17), got errno {}", err.0);
    assert_eq!(set.len(), 1);
}

#[test]
fn slot_is_told_without_adding() {
    let mut set = EventSet::new();
    set.add(4).unwrap();
    assert_eq!(set.slot_for(5), Ok(1));
    assert_eq!(set.slot_for(4), Err(Errno(17)));
    assert_eq!(set.len(), 1);
    assert_eq!(set.add(5), Ok(1));
}

#[test]
fn failed_wait_gives_the_error_number() {
    let mut set = EventSet::new();
    set.add(4).unwrap();
    assert_eq!(set.wait_result(-4, 0), Err(Errno(4)));
}
