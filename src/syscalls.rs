use vstd::prelude::*;
use crate::error::{Errno, errno_code};
use crate::fd_table::{DescriptorTable, Fd, OpenOptions, FD_MAX, dup2_post, close_post, same_table};

verus! {

pub const SYS_CLOSE: usize = 3;
pub const SYS_DUP: usize = 32;
pub const SYS_DUP2: usize = 33;

/// The signed value a system call returns for `r`.
pub open spec fn return_code(r: Result<isize, Errno>) -> int {
    match r {
        Ok(v) => v as int,
        Err(e) => errno_code(e),
    }
}

/// A descriptor argument as it arrives in a register.
pub open spec fn fd_arg_spec(a: usize) -> Fd {
    if a <= i32::MAX { Fd(a as i32) } else { Fd(-1i32) }
}

pub fn fd_arg(a: usize) -> (r: Fd)
    ensures
        r == fd_arg_spec(a),
{
    if a <= i32::MAX as usize {
        Fd(a as i32)
    } else {
        Fd(-1)
    }
}

/// Turns a handler's outcome into the signed return convention.
pub fn to_return_code(r: Result<isize, Errno>) -> (c: isize)
    ensures
        c == return_code(r),
{
    match r {
        Ok(v) => v,
        Err(e) => e.to_code(),
    }
}

/// Runs system calls on behalf of the current process, against its
/// descriptor table.
pub struct SyscallDispatcher<'a> {
    pub table: &'a mut DescriptorTable,
}

impl<'a> SyscallDispatcher<'a> {
    pub fn new(table: &'a mut DescriptorTable) -> (r: SyscallDispatcher<'a>)
        ensures
            *r.table == *old(table),
            *final(table) == *final(r.table),
    {
        SyscallDispatcher { table }
    }

    /// `dup2(oldfd, newfd)`: returns `newfd` on success.
    pub fn sys_dup2(&mut self, oldfd: Fd, newfd: Fd) -> (r: Result<isize, Errno>)
        requires
            old(self).table.wf(),
        ensures
            final(self).table.wf(),
            dup2_post(
                *old(self).table,
                *final(self).table,
                oldfd,
                newfd,
                OpenOptions { close_on_exec: false, append: false },
                match r {
                    Ok(_) => Ok(()),
                    Err(e) => Err(e),
                },
            ),
            r matches Ok(v) ==> v == newfd.0,
    {
        self.table.dup2(oldfd, newfd, OpenOptions::new(false, false))?;
        Ok(newfd.as_int() as isize)
    }

    /// `close(fd)`: returns 0 on success.
    pub fn sys_close(&mut self, fd: Fd) -> (r: Result<isize, Errno>)
        requires
            old(self).table.wf(),
        ensures
            final(self).table.wf(),
            old(self).table.bound(fd.num()) is None ==> r == Err::<isize, Errno>(Errno::BadDescriptor)
                && same_table(*old(self).table, *final(self).table),
            old(self).table.bound(fd.num()) is Some ==> r == Ok::<isize, Errno>(0) && exists|rel|
                close_post(*old(self).table, *final(self).table, fd.num(), rel),
    {
        self.table.close(fd)?;
        Ok(0)
    }

    /// `dup(fd)`: returns the lowest unused descriptor, now bound to the same
    /// object.
    pub fn sys_dup(&mut self, fd: Fd) -> (r: Result<isize, Errno>)
        requires
            old(self).table.wf(),
        ensures
            final(self).table.wf(),
            old(self).table.bound(fd.num()) is None ==> r == Err::<isize, Errno>(Errno::BadDescriptor)
                && same_table(*old(self).table, *final(self).table),
            old(self).table.bound(fd.num()) is Some && old(self).table.full() ==> r == Err::<isize, Errno>(
                Errno::ResourceExhausted,
            ) && same_table(*old(self).table, *final(self).table),
            old(self).table.bound(fd.num()) is Some && !old(self).table.full() ==> {
                &&& r is Ok
                &&& 0 <= r->Ok_0 < FD_MAX
                &&& old(self).table.bound(r->Ok_0 as int) is None
                &&& forall|k: int| 0 <= k < r->Ok_0 ==> #[trigger] old(self).table.bound(k) is Some
                &&& final(self).table.bound(r->Ok_0 as int) matches Some(b) && b.file == old(self).table.bound(
                    fd.num(),
                )->0.file
            },
    {
        let new = self.table.dup(fd, OpenOptions::new(false, false))?;
        Ok(new.as_int() as isize)
    }

    /// Runs system call `n` with the argument registers `args` and returns the
    /// signed result: the handler's value, or the negative code of its failure.
    pub fn dispatch(&mut self, n: usize, args: [usize; 6]) -> (r: isize)
        requires
            old(self).table.wf(),
        ensures
            final(self).table.wf(),
            n == SYS_DUP2 ==> exists|res: Result<isize, Errno>|
                r == return_code(res) && (res matches Ok(v) ==> v == args[1]) && dup2_post(
                    *old(self).table,
                    *final(self).table,
                    fd_arg_spec(args[0]),
                    fd_arg_spec(args[1]),
                    OpenOptions { close_on_exec: false, append: false },
                    match res {
                        Ok(_) => Ok(()),
                        Err(e) => Err(e),
                    },
                ),
            n == SYS_CLOSE && old(self).table.bound(fd_arg_spec(args[0]).num()) is None ==> r
                == errno_code(Errno::BadDescriptor) && same_table(*old(self).table, *final(self).table),
            n == SYS_CLOSE && old(self).table.bound(fd_arg_spec(args[0]).num()) is Some ==> r == 0
                && exists|rel|
                close_post(*old(self).table, *final(self).table, fd_arg_spec(args[0]).num(), rel),
            n == SYS_DUP && old(self).table.bound(fd_arg_spec(args[0]).num()) is None ==> r
                == errno_code(Errno::BadDescriptor) && same_table(*old(self).table, *final(self).table),
            n == SYS_DUP && old(self).table.bound(fd_arg_spec(args[0]).num()) is Some
                && old(self).table.full() ==> r == errno_code(Errno::ResourceExhausted) && same_table(
                *old(self).table,
                *final(self).table,
            ),
            n == SYS_DUP && old(self).table.bound(fd_arg_spec(args[0]).num()) is Some
                && !old(self).table.full() ==> {
                &&& 0 <= r
                &&& old(self).table.bound(r as int) is None
                &&& forall|k: int| 0 <= k < r ==> #[trigger] old(self).table.bound(k) is Some
                &&& final(self).table.bound(r as int) matches Some(b) && b.file == old(self).table.bound(
                    fd_arg_spec(args[0]).num(),
                )->0.file
            },
            n != SYS_DUP2 && n != SYS_CLOSE && n != SYS_DUP ==> r == errno_code(Errno::NoSuchSyscall)
                && *final(self).table == *old(self).table,
    {
        let res = if n == SYS_DUP2 {
            self.sys_dup2(fd_arg(args[0]), fd_arg(args[1]))
        } else if n == SYS_CLOSE {
            self.sys_close(fd_arg(args[0]))
        } else if n == SYS_DUP {
            self.sys_dup(fd_arg(args[0]))
        } else {
            Err(Errno::NoSuchSyscall)
        };
        to_return_code(res)
    }
}

} // verus!
