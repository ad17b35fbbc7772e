//! Sets of file descriptors to wait on.
use vstd::prelude::*;
use crate::port::RawFd;

verus! {

/// `select` cannot wait on a descriptor of this number or above.
pub const FD_SETSIZE: usize = 1024;

/// `fd` is a descriptor that `select` can wait on.
pub open spec fn selectable(fd: RawFd) -> bool {
    0 <= fd < FD_SETSIZE
}

/// A set of file descriptors.
pub struct FdSet {
    fds: Vec<RawFd>,
}

impl View for FdSet {
    type V = Set<RawFd>;

    closed spec fn view(&self) -> Set<RawFd> {
        self.fds@.to_set()
    }
}

impl FdSet {
    /// The empty set.
    pub fn new() -> (s: FdSet)
        ensures
            s@ == Set::<RawFd>::empty(),
    {
        let s = FdSet { fds: Vec::new() };
        assert(s@ =~= Set::<RawFd>::empty());
        s
    }

    /// Whether `fd` is in the set.
    pub fn contains(&self, fd: RawFd) -> (r: bool)
        ensures
            r == self@.contains(fd),
    {
        let mut i: usize = 0;
        while i < self.fds.len()
            invariant
                i <= self.fds@.len(),
                forall|k: int| 0 <= k < i ==> self.fds@[k] != fd,
            decreases self.fds@.len() - i,
        {
            if self.fds[i] == fd {
                return true;
            }
            i = i + 1;
        }
        false
    }

    /// Adds `fd`, which has to be one that `select` can wait on. For any other number, a
    /// negative one too, the program has to end before it comes to this.
    pub fn insert(&mut self, fd: RawFd)
        requires
            selectable(fd),
        ensures
            final(self)@ == old(self)@.insert(fd),
    {
        if self.contains(fd) {
            assert(self@ =~= old(self)@.insert(fd));
        } else {
            let ghost before = self.fds@;
            self.fds.push(fd);
            proof {
                assert forall|x: RawFd| self@.contains(x) == before.to_set().insert(fd).contains(x) by {
                    if before.contains(x) {
                        let k = choose|k: int| 0 <= k < before.len() && before[k] == x;
                        assert(self.fds@[k] == x);
                    }
                    assert(self.fds@[before.len() as int] == fd);
                }
                assert(self@ =~= old(self)@.insert(fd));
            }
        }
    }

    /// Takes `fd` out of the set.
    pub fn remove(&mut self, fd: RawFd)
        ensures
            final(self)@ == old(self)@.remove(fd),
    {
        let mut kept: Vec<RawFd> = Vec::new();
        let mut i: usize = 0;
        let ghost before = self.fds@;
        while i < self.fds.len()
            invariant
                self.fds@ == before,
                i <= before.len(),
                forall|x: RawFd| kept@.contains(x) <==> (x != fd && before.take(i as int).contains(x)),
            decreases before.len() - i,
        {
            let x = self.fds[i];
            let ghost kept_before = kept@;
            proof {
                assert(before.take(i + 1) =~= before.take(i as int).push(x));
            }
            if x != fd {
                kept.push(x);
            }
            proof {
                assert forall|y: RawFd| kept@.contains(y) <==> (y != fd && before.take(i + 1).contains(y)) by {
                    let seen = before.take(i as int);
                    let upto = before.take(i + 1);
                    if upto.contains(y) {
                        let k = choose|k: int| 0 <= k < upto.len() && upto[k] == y;
                        if k < i {
                            assert(seen[k] == y);
                        }
                    }
                    if seen.contains(y) {
                        let k = choose|k: int| 0 <= k < seen.len() && seen[k] == y;
                        assert(before.take(i + 1)[k] == y);
                    }
                    assert(before.take(i + 1)[i as int] == x);
                    if kept_before.contains(y) {
                        let k = choose|k: int| 0 <= k < kept_before.len() && kept_before[k] == y;
                        assert(kept@[k] == y);
                    }
                    if kept@.contains(y) {
                        let k = choose|k: int| 0 <= k < kept@.len() && kept@[k] == y;
                        if k < kept_before.len() {
                            assert(kept_before[k] == y);
                        }
                    }
                    if x != fd {
                        assert(kept@[kept_before.len() as int] == x);
                    }
                }
            }
            i = i + 1;
        }
        proof {
            assert(before.take(before.len() as int) =~= before);
        }
        self.fds = kept;
        assert(self@ =~= old(self)@.remove(fd));
    }

    /// The descriptors of the set.
    pub fn members(&self) -> (r: &Vec<RawFd>)
        ensures
            forall|fd: RawFd| r@.contains(fd) <==> self@.contains(fd),
    {
        &self.fds
    }
}

} // verus!
