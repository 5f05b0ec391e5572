use vstd::prelude::*;
use crate::elf::{Elf, ProgramHeader, elf_valid, e_entry, e_phnum, e_phoff, phdr_at, PHDR_SIZE, PT_LOAD};
use crate::error::Errno;
use crate::fd_table::{DescriptorTable, Fd, OpenOptions, OpenedFile, AccessMode};
use crate::vfs::{InodeId, RootFs};

verus! {

#[derive(Clone, Copy, Debug, PartialEq, Eq, Structural)]
pub enum ProcessState {
    Runnable,
    Blocked,
    Zombie,
}

/// Which state changes a process may make: a terminated process never changes
/// again, and a blocked one does not block a second time.
pub open spec fn transition_allowed(from: ProcessState, to: ProcessState) -> bool {
    match (from, to) {
        (ProcessState::Zombie, _) => false,
        (ProcessState::Blocked, ProcessState::Blocked) => false,
        _ => true,
    }
}

pub fn can_transition(from: ProcessState, to: ProcessState) -> (r: bool)
    ensures
        r == transition_allowed(from, to),
{
    match (from, to) {
        (ProcessState::Zombie, _) => false,
        (ProcessState::Blocked, ProcessState::Blocked) => false,
        _ => true,
    }
}

/// The program headers of `hs` that describe loadable segments, in order.
pub open spec fn load_headers(hs: Seq<ProgramHeader>) -> Seq<ProgramHeader>
    decreases hs.len(),
{
    if hs.len() == 0 {
        seq![]
    } else {
        let rest = load_headers(hs.drop_last());
        if hs.last().p_type == PT_LOAD {
            rest.push(hs.last())
        } else {
            rest
        }
    }
}

/// A loadable segment whose file part lies inside an image of `len` bytes.
pub open spec fn segment_fits(h: ProgramHeader, len: int) -> bool {
    &&& h.p_offset + h.p_filesz <= len
    &&& h.p_filesz <= h.p_memsz
}

/// The program-header table of a valid image.
pub open spec fn headers_of(s: Seq<u8>) -> Seq<ProgramHeader> {
    Seq::new(e_phnum(s) as nat, |i: int| phdr_at(s, e_phoff(s) + i * PHDR_SIZE))
}

/// An image that process creation accepts.
pub open spec fn image_loadable(s: Seq<u8>) -> bool {
    &&& elf_valid(s)
    &&& forall|k: int|
        0 <= k < load_headers(headers_of(s)).len() ==> segment_fits(
            #[trigger] load_headers(headers_of(s))[k],
            s.len() as int,
        )
}

/// Reads an executable: its entry address and its loadable segments.
pub fn load_image(image: &[u8]) -> (r: Result<(u64, Vec<ProgramHeader>), Errno>)
    ensures
        r is Ok <==> image_loadable(image@),
        r matches Ok((entry, segs)) ==> entry == e_entry(image@) && segs@ == load_headers(
            headers_of(image@),
        ),
        r matches Err(e) ==> e == Errno::MalformedBinary,
{
    let elf = Elf::parse(image)?;
    let hs = elf.program_headers();
    let len = image.len() as u64;
    let ghost all = headers_of(image@);
    assert(hs@ =~= all);
    let mut segs: Vec<ProgramHeader> = Vec::new();
    let mut i: usize = 0;
    while i < hs.len()
        invariant
            i <= hs@.len(),
            hs@ == all,
            all == headers_of(image@),
            len == image@.len(),
            segs@ == load_headers(all.subrange(0, i as int)),
            forall|k: int| 0 <= k < segs@.len() ==> segment_fits(#[trigger] segs@[k], len as int),
        decreases hs@.len() - i,
    {
        let h = hs[i];
        assert(all.subrange(0, i + 1).drop_last() =~= all.subrange(0, i as int));
        if h.p_type == PT_LOAD {
            if h.p_offset > len || h.p_filesz > len - h.p_offset || h.p_filesz > h.p_memsz {
                proof {
                    let l = load_headers(all.subrange(0, i + 1));
                    assert(l.last() == h);
                    lemma_load_headers_prefix(all, i + 1);
                    assert(load_headers(all)[l.len() - 1] == h);
                    assert(!segment_fits(load_headers(all)[l.len() - 1], len as int));
                    assert(headers_of(image@) == all);
                }
                return Err(Errno::MalformedBinary);
            }
            segs.push(h);
        }
        i = i + 1;
    }
    assert(all.subrange(0, hs@.len() as int) =~= all);
    Ok((elf.entry(), segs))
}

/// The loadable headers of a prefix are a prefix of the loadable headers.
proof fn lemma_load_headers_prefix(hs: Seq<ProgramHeader>, n: int)
    requires
        0 <= n <= hs.len(),
    ensures
        load_headers(hs.subrange(0, n)).len() <= load_headers(hs).len(),
        forall|k: int|
            0 <= k < load_headers(hs.subrange(0, n)).len() ==> #[trigger] load_headers(
                hs.subrange(0, n),
            )[k] == load_headers(hs)[k],
    decreases hs.len() - n,
{
    if n < hs.len() {
        lemma_load_headers_prefix(hs, n + 1);
        assert(hs.subrange(0, n + 1).drop_last() =~= hs.subrange(0, n));
        let a = load_headers(hs.subrange(0, n));
        let b = load_headers(hs.subrange(0, n + 1));
        assert(a.len() <= b.len());
        assert(forall|k: int| 0 <= k < a.len() ==> a[k] == b[k]);
    } else {
        assert(hs.subrange(0, n) =~= hs);
    }
}

} // verus!

verus! {

/// The root filesystem as every process shares it: published exactly once,
/// during boot, and never replaced.
pub struct SharedRootFs {
    fs: Option<RootFs>,
}

impl SharedRootFs {
    pub closed spec fn published(&self) -> Option<RootFs> {
        self.fs
    }

    /// A handle with nothing published yet.
    pub fn new() -> (r: SharedRootFs)
        ensures
            r.published() is None,
    {
        SharedRootFs { fs: None }
    }

    /// Publishes `fs`; publishing twice is a contract violation.
    pub fn publish(&mut self, fs: RootFs)
        requires
            old(self).published() is None,
            fs.wf(),
        ensures
            final(self).published() == Some(fs),
    {
        self.fs = Some(fs);
    }

    pub fn is_published(&self) -> (r: bool)
        ensures
            r == self.published() is Some,
    {
        self.fs.is_some()
    }

    /// The published filesystem; looking before publication is a contract
    /// violation.
    pub fn get(&self) -> (r: &RootFs)
        requires
            self.published() is Some,
        ensures
            Some(*r) == self.published(),
    {
        self.fs.as_ref().unwrap()
    }
}

/// One schedulable unit of execution.
pub struct Process {
    pub pid: usize,
    pub state: ProcessState,
    pub opened_files: DescriptorTable,
    /// Entry address of the initial execution context.
    pub entry: u64,
    /// The segments mapped into the address space.
    pub segments: Vec<ProgramHeader>,
    pub args: Vec<Vec<u8>>,
}

/// How many low descriptors a new process has bound to its console.
pub const CONSOLE_FDS: usize = 3;

/// What the caller of the scheduler runs next.
#[derive(Clone, Copy, Debug, PartialEq, Eq, Structural)]
pub enum SwitchAction {
    Resume(usize),
    Idle,
}

/// Position `k` of a round that starts at `start` and wraps past `n`.
pub open spec fn cyclic(start: int, k: int, n: int) -> int {
    if start + k < n {
        start + k
    } else {
        start + k - n
    }
}

/// The state a new process's console descriptors are in.
pub open spec fn console_seeded(t: DescriptorTable, console: InodeId) -> bool {
    &&& t.wf()
    &&& t.bound(0) is Some
    &&& t.file(t.bound(0)->0.file as int) == Some(
        OpenedFile { inode: console, mode: AccessMode::ReadWrite, pos: 0 },
    )
    &&& forall|fd: int| 0 <= fd < CONSOLE_FDS ==> #[trigger] t.bound(fd) == t.bound(0)
    &&& forall|fd: int| !(0 <= fd < CONSOLE_FDS) ==> #[trigger] t.bound(fd) is None
}

pub struct Scheduler {
    procs: Vec<Process>,
    current: Option<usize>,
}

impl Scheduler {
    pub closed spec fn procs(&self) -> Seq<Process> {
        self.procs@
    }

    pub closed spec fn current(&self) -> Option<usize> {
        self.current
    }

    pub open spec fn state(&self, pid: int) -> ProcessState {
        self.procs()[pid].state
    }

    pub open spec fn wf(&self) -> bool {
        &&& forall|i: int| 0 <= i < self.procs().len() ==> (#[trigger] self.procs()[i]).pid == i
        &&& forall|i: int| 0 <= i < self.procs().len() ==> (#[trigger] self.procs()[i]).opened_files.wf()
        &&& self.current() matches Some(c) ==> c < self.procs().len() && self.state(c as int)
            == ProcessState::Runnable
    }

    /// A scheduler with no process.
    pub fn new() -> (r: Scheduler)
        ensures
            r.wf(),
            r.procs().len() == 0,
            r.current() is None,
    {
        Scheduler { procs: Vec::new(), current: None }
    }

    pub fn current_pid(&self) -> (r: Option<usize>)
        ensures
            r == self.current(),
    {
        self.current
    }

    pub fn process_count(&self) -> (r: usize)
        ensures
            r == self.procs().len(),
    {
        self.procs.len()
    }

    pub fn process_state(&self, pid: usize) -> (r: ProcessState)
        requires
            pid < self.procs().len(),
        ensures
            r == self.state(pid as int),
    {
        self.procs[pid].state
    }

    /// The process `pid`.
    pub fn process(&self, pid: usize) -> (r: &Process)
        requires
            pid < self.procs().len(),
        ensures
            *r == self.procs()[pid as int],
    {
        &self.procs[pid]
    }

    /// Creates the first process from `executable`, with `console` open at the
    /// low descriptors. Nothing becomes visible to the scheduler on failure.
    pub fn new_init_process(
        &mut self,
        root: &SharedRootFs,
        executable: InodeId,
        console: InodeId,
        argv: Vec<Vec<u8>>,
    ) -> (r: Result<usize, Errno>)
        requires
            old(self).wf(),
            root.published() matches Some(fs) && fs.wf() && fs.valid_inode(executable),
        ensures
            final(self).wf(),
            final(self).current() == old(self).current(),
            ({
                let image = root.published()->0.contents(executable);
                &&& r is Ok <==> image_loadable(image)
                &&& r matches Err(e) ==> e == Errno::MalformedBinary && final(self).procs() == old(
                    self,
                ).procs()
                &&& r matches Ok(pid) ==> {
                    let p = final(self).procs()[pid as int];
                    &&& pid == old(self).procs().len()
                    &&& final(self).procs() == old(self).procs().push(p)
                    &&& p.pid == pid
                    &&& p.state == ProcessState::Runnable
                    &&& p.entry == e_entry(image)
                    &&& p.segments@ == load_headers(headers_of(image))
                    &&& p.args@ == argv@
                    &&& console_seeded(p.opened_files, console)
                }
            }),
    {
        let fs = root.get();
        let image = fs.data(executable);
        let (entry, segments) = load_image(image.as_slice())?;
        let mut table = DescriptorTable::new();
        let opts = OpenOptions::new(false, false);
        let file = OpenedFile { inode: console, mode: AccessMode::ReadWrite, pos: 0 };
        let ghost t0 = table;
        assert(!t0.full()) by {
            assert(t0.bound(0) is None);
        }
        let opened = table.open_file(file, opts);
        assert(opened == Ok::<Fd, Errno>(Fd(0))) by {
            let fd = opened->Ok_0.num();
            if fd > 0 {
                assert(t0.bound(0) is Some);
            }
        }
        let ghost t1 = table;
        let _ = table.dup2(Fd(0), Fd(1), opts);
        let ghost t2 = table;
        let _ = table.dup2(Fd(0), Fd(2), opts);
        proof {
            assert(t1.bound(1) is None);
            assert(!t1.last_ref(1));
            assert(t2.bound(2) is None);
            assert(!t2.last_ref(2));
            assert(table.bound(1) == table.bound(0));
            assert(table.bound(2) == table.bound(0));
            assert forall|fd: int| 0 <= fd < CONSOLE_FDS implies #[trigger] table.bound(fd) == table.bound(0) by {}
            assert forall|fd: int| !(0 <= fd < CONSOLE_FDS) implies #[trigger] table.bound(fd) is None by {
                assert(t0.bound(fd) is None);
            }
        }
        let pid = self.procs.len();
        let p = Process { pid, state: ProcessState::Runnable, opened_files: table, entry, segments, args: argv };
        self.procs.push(p);
        Ok(pid)
    }

    /// The first runnable process in a round starting at `start`; marks it
    /// current, or marks nothing current when no process is runnable.
    fn pick(&mut self, start: usize) -> (r: SwitchAction)
        requires
            old(self).wf(),
            start <= old(self).procs().len(),
        ensures
            final(self).wf(),
            final(self).procs() == old(self).procs(),
            pick_post(old(self).procs(), start as int, final(self).current(), r),
    {
        let n = self.procs.len();
        let mut k: usize = 0;
        while k < n
            invariant
                n == self.procs@.len(),
                self.procs@ == old(self).procs(),
                self.wf(),
                start <= n,
                k <= n,
                forall|j: int| 0 <= j < k ==> #[trigger] self.procs@[cyclic(start as int, j, n as int)].state != ProcessState::Runnable,
            decreases n - k,
        {
            let idx = if k < n - start { start + k } else { k - (n - start) };
            assert(idx == cyclic(start as int, k as int, n as int));
            if self.procs[idx].state == ProcessState::Runnable {
                self.current = Some(idx);
                assert(exists|k2: int| 0 <= k2 < n && cyclic(start as int, k2, n as int) == idx
                    && forall|j: int| 0 <= j < k2 ==> #[trigger] self.procs@[cyclic(start as int, j, n as int)].state
                    != ProcessState::Runnable) by {
                    assert(0 <= k < n && cyclic(start as int, k as int, n as int) == idx);
                }
                return SwitchAction::Resume(idx);
            }
            k = k + 1;
        }
        self.current = None;
        proof {
            assert forall|i: int| 0 <= i < n implies #[trigger] self.procs@[i].state != ProcessState::Runnable by {
                let j = if i >= start { i - start } else { i + n - start };
                assert(cyclic(start as int, j, n as int) == i);
            }
        }
        SwitchAction::Idle
    }

    /// Records `outgoing` as the running process's new state and selects the
    /// next runnable process, in round order after it.
    pub fn switch(&mut self, outgoing: ProcessState) -> (r: SwitchAction)
        requires
            old(self).wf(),
        ensures
            final(self).wf(),
            final(self).procs().len() == old(self).procs().len(),
            old(self).current() matches Some(c) ==> transition_allowed(
                old(self).state(c as int),
                outgoing,
            ),
            forall|i: int| 0 <= i < old(self).procs().len() ==> {
                &&& (#[trigger] final(self).procs()[i]).state == if (old(self).current() matches Some(c) && c
                    == i) {
                    outgoing
                } else {
                    old(self).procs()[i].state
                }
                &&& final(self).procs()[i].opened_files == old(self).procs()[i].opened_files
                &&& final(self).procs()[i].entry == old(self).procs()[i].entry
            },
            pick_post(
                final(self).procs(),
                match old(self).current() {
                    Some(c) => c + 1,
                    None => 0,
                },
                final(self).current(),
                r,
            ),
    {
        let _n = self.procs.len();
        let start = match self.current {
            Some(c) => {
                let mut p = self.procs.remove(c);
                p.state = outgoing;
                self.procs.insert(c, p);
                c + 1
            },
            None => 0,
        };
        proof {
            assert forall|i: int| 0 <= i < self.procs@.len() implies (#[trigger] self.procs@[i]).pid == i by {
                if !(old(self).current() matches Some(c) && c == i) {
                    assert(self.procs@[i] == old(self).procs()[i]);
                }
            }
            assert forall|i: int| 0 <= i < self.procs@.len() implies (#[trigger] self.procs@[i]).opened_files.wf() by {
                if !(old(self).current() matches Some(c) && c == i) {
                    assert(self.procs@[i] == old(self).procs()[i]);
                }
            }
        }
        self.current = None;
        self.pick(start)
    }

    /// Runs when no process is current: resumes the first runnable process, or
    /// reports that the caller should wait for an interrupt and try again.
    pub fn idle_thread(&mut self) -> (r: SwitchAction)
        requires
            old(self).wf(),
            old(self).current() is None,
        ensures
            final(self).wf(),
            final(self).procs() == old(self).procs(),
            pick_post(old(self).procs(), 0, final(self).current(), r),
    {
        self.pick(0)
    }
}

/// `r` and `current` name the first runnable process of `procs` in the round
/// that starts at `start`, or no process when none is runnable.
pub open spec fn pick_post(procs: Seq<Process>, start: int, current: Option<usize>, r: SwitchAction) -> bool {
    match r {
        SwitchAction::Resume(p) => {
            &&& current == Some(p)
            &&& p < procs.len()
            &&& procs[p as int].state == ProcessState::Runnable
            &&& exists|k: int| 0 <= k < procs.len() && cyclic(start, k, procs.len() as int) == p
                && forall|j: int| 0 <= j < k ==> #[trigger] procs[cyclic(start, j, procs.len() as int)].state
                != ProcessState::Runnable
        },
        SwitchAction::Idle => {
            &&& current is None
            &&& forall|i: int| 0 <= i < procs.len() ==> #[trigger] procs[i].state != ProcessState::Runnable
        },
    }
}

} // verus!
