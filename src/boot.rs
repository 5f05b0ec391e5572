use vstd::prelude::*;
use arrayvec::ArrayVec;
use crate::elf::e_entry;
use crate::process::{
    SharedRootFs, Scheduler, SwitchAction, ProcessState, image_loadable, console_seeded,
};
use crate::vfs::{FsBackend, InodeId, InodeKind, RootFs, MountPoint, child_index, mount_post, lemma_walk_skip};

verus! {

/// A region of physical memory.
#[derive(Clone, Copy, Debug, PartialEq, Eq, Structural)]
pub struct RamArea {
    pub base: usize,
    pub len: usize,
}

/// Most regions a memory description holds.
pub const MAX_RAM_AREAS: usize = 8;

/// The memory regions the boot loader reports, in a fixed-capacity list.
#[verifier::external_body]
pub struct RamAreas {
    inner: ArrayVec<[RamArea; 8]>,
}

/// The regions a list holds, in order.
pub uninterp spec fn areas_of(v: RamAreas) -> Seq<RamArea>;

/// Relies on arrayvec's `ArrayVec::new`: an empty list.
#[verifier::external_body]
fn empty_areas() -> (r: RamAreas)
    ensures
        areas_of(r) == Seq::<RamArea>::empty(),
{
    RamAreas { inner: ArrayVec::new() }
}

/// Relies on arrayvec's `ArrayVec::try_push`: appends while below the capacity
/// of eight, and otherwise fails and leaves the list as it was.
#[verifier::external_body]
fn push_area(v: &mut RamAreas, a: RamArea) -> (r: bool)
    ensures
        r == (areas_of(*old(v)).len() < MAX_RAM_AREAS),
        r ==> areas_of(*final(v)) == areas_of(*old(v)).push(a),
        !r ==> areas_of(*final(v)) == areas_of(*old(v)),
{
    v.inner.try_push(a).is_ok()
}

/// Relies on arrayvec's `ArrayVec::len`: the number of elements held.
#[verifier::external_body]
fn area_count(v: &RamAreas) -> (r: usize)
    ensures
        r == areas_of(*v).len(),
{
    v.inner.len()
}

/// Relies on arrayvec's `ArrayVec` indexing (through its slice): the `i`-th
/// element held.
#[verifier::external_body]
fn area_at(v: &RamAreas, i: usize) -> (r: RamArea)
    requires
        i < areas_of(*v).len(),
    ensures
        r == areas_of(*v)[i as int],
{
    v.inner[i]
}

/// What the boot loader hands the kernel.
pub struct BootInfo {
    pub ram_areas: RamAreas,
}

impl BootInfo {
    /// A description of `areas`; `None` when there are more than the list holds.
    pub fn new(areas: &[RamArea]) -> (r: Option<BootInfo>)
        ensures
            r is Some <==> areas@.len() <= MAX_RAM_AREAS,
            r matches Some(b) ==> areas_of(b.ram_areas) == areas@,
    {
        let mut v = empty_areas();
        let mut i: usize = 0;
        while i < areas.len()
            invariant
                i <= areas@.len(),
                areas_of(v) == areas@.subrange(0, i as int),
                i <= MAX_RAM_AREAS,
            decreases areas@.len() - i,
        {
            if !push_area(&mut v, areas[i]) {
                return None;
            }
            i = i + 1;
        }
        assert(areas@.subrange(0, areas@.len() as int) =~= areas@);
        Some(BootInfo { ram_areas: v })
    }

    pub fn area_count(&self) -> (r: usize)
        ensures
            r == areas_of(self.ram_areas).len(),
    {
        area_count(&self.ram_areas)
    }
}

/// Some region holds memory to allocate from.
pub open spec fn memory_usable(areas: Seq<RamArea>) -> bool {
    exists|k: int| 0 <= k < areas.len() && #[trigger] areas[k].len > 0
}

/// Whether the memory description leaves the allocators anything to manage.
pub fn has_usable_memory(info: &BootInfo) -> (r: bool)
    ensures
        r == memory_usable(areas_of(info.ram_areas)),
{
    let n = area_count(&info.ram_areas);
    let mut i: usize = 0;
    while i < n
        invariant
            n == areas_of(info.ram_areas).len(),
            i <= n,
            forall|k: int| 0 <= k < i ==> #[trigger] areas_of(info.ram_areas)[k].len == 0,
        decreases n - i,
    {
        if area_at(&info.ram_areas, i).len > 0 {
            return true;
        }
        i = i + 1;
    }
    false
}

} // verus!

verus! {

/// How much the kernel logs.
#[derive(Clone, Copy, Debug, PartialEq, Eq, Structural)]
pub enum LogLevel {
    Trace,
    Info,
}

/// The log level the kernel runs with: everything in debug builds, and
/// informational messages and above otherwise.
pub fn init_logger(debug_build: bool) -> (r: LogLevel)
    ensures
        r == (if debug_build { LogLevel::Trace } else { LogLevel::Info }),
{
    if debug_build {
        LogLevel::Trace
    } else {
        LogLevel::Info
    }
}

/// Boot conditions the kernel cannot recover from.
#[derive(Clone, Copy, Debug, PartialEq, Eq, Structural)]
pub enum BootError {
    NoMemory,
    NoDevDir,
    MountFailed,
    NoConsole,
    NoInit,
    InitFailed,
}

/// `/dev`
pub open spec fn dev_path() -> Seq<u8> {
    seq![0x2fu8, 0x64, 0x65, 0x76]
}

/// `/dev/console`
pub open spec fn console_path() -> Seq<u8> {
    seq![0x2fu8, 0x64, 0x65, 0x76, 0x2f, 0x63, 0x6f, 0x6e, 0x73, 0x6f, 0x6c, 0x65]
}

/// A root filesystem fresh from `RootFs::new(initramfs)`.
pub open spec fn initial_fs(initramfs: FsBackend, fs: RootFs) -> bool {
    &&& fs.wf()
    &&& fs.backends() == seq![initramfs]
    &&& fs.mounts() == Seq::<MountPoint>::empty()
}

/// The root filesystem after `devfs` has been mounted at `/dev` of `initramfs`.
pub open spec fn booted_fs(initramfs: FsBackend, devfs: FsBackend, fs: RootFs) -> bool {
    &&& fs.wf()
    &&& fs.backends() == seq![initramfs, devfs]
    &&& exists|fs0: RootFs, d: InodeId|
        #![trigger initial_fs(initramfs, fs0), fs0.kind(d)]
        initial_fs(initramfs, fs0) && fs0.resolve(fs0.root(), dev_path()) == Some(d)
            && fs0.kind(d) == InodeKind::Directory && fs.mounts() == seq![MountPoint { at: d, fs: 1 }]
}

/// The kernel once boot has handed control to the first process.
pub struct Kernel {
    pub root_fs: SharedRootFs,
    pub scheduler: Scheduler,
    pub init_pid: usize,
    pub console: InodeId,
}

/// Brings the kernel up: checks the memory description, builds the root
/// filesystem from `initramfs`, mounts `devfs` at `/dev`, opens `/dev/console`
/// and the init executable at `init_path`, publishes the root filesystem,
/// creates the init process and switches to it. Every missing step is a fatal
/// error.
pub fn boot_kernel(
    info: &BootInfo,
    initramfs: FsBackend,
    devfs: FsBackend,
    init_path: &[u8],
    argv: Vec<Vec<u8>>,
) -> (r: Result<(Kernel, SwitchAction), BootError>)
    requires
        initramfs.wf(),
        devfs.wf(),
    ensures
        r == Err::<(Kernel, SwitchAction), BootError>(BootError::NoMemory) <==> !memory_usable(
            areas_of(info.ram_areas),
        ),
        !(r matches Err(BootError::MountFailed)),
        r matches Err(BootError::NoDevDir) ==> exists|fs: RootFs|
            initial_fs(initramfs, fs) && !(#[trigger] fs.resolve(fs.root(), dev_path()) matches Some(d)
                && fs.kind(d) == InodeKind::Directory),
        r matches Err(BootError::NoConsole) ==> exists|fs: RootFs|
            booted_fs(initramfs, devfs, fs) && #[trigger] fs.resolve(fs.root(), console_path()) is None,
        r matches Err(BootError::NoInit) ==> exists|fs: RootFs|
            booted_fs(initramfs, devfs, fs) && fs.resolve(fs.root(), console_path()) is Some && !(
            #[trigger] fs.resolve(fs.root(), init_path@) matches Some(i) && fs.kind(i) == InodeKind::File),
        r matches Err(BootError::InitFailed) ==> exists|fs: RootFs|
            booted_fs(initramfs, devfs, fs) && fs.resolve(fs.root(), console_path()) is Some && (
            #[trigger] fs.resolve(fs.root(), init_path@) matches Some(i) && fs.kind(i) == InodeKind::File
                && !image_loadable(fs.contents(i))),
        r matches Ok((k, act)) ==> {
            &&& k.root_fs.published() matches Some(fs) && {
                &&& booted_fs(initramfs, devfs, fs)
                &&& fs.resolve(fs.root(), console_path()) == Some(k.console)
                &&& fs.resolve(fs.root(), init_path@) matches Some(exe) && fs.kind(exe)
                    == InodeKind::File && image_loadable(fs.contents(exe))
                    && k.scheduler.procs()[0].entry == e_entry(fs.contents(exe))
            }
            &&& k.scheduler.wf()
            &&& k.init_pid == 0
            &&& k.scheduler.procs().len() == 1
            &&& k.scheduler.state(0) == ProcessState::Runnable
            &&& k.scheduler.current() == Some(0usize)
            &&& act == SwitchAction::Resume(0)
            &&& console_seeded(k.scheduler.procs()[0].opened_files, k.console)
        },
{
    if !has_usable_memory(info) {
        return Err(BootError::NoMemory);
    }
    let mut fs = RootFs::new(initramfs);
    let ghost fs0 = fs;
    assert(fs0.mounts() =~= Seq::<MountPoint>::empty());
    let dev: [u8; 4] = [0x2f, 0x64, 0x65, 0x76];
    let dev_slice = dev.as_slice();
    assert(dev_slice@ =~= dev_path());
    let dev_dir = match fs.lookup_dir(dev_slice) {
        Ok(d) => d,
        Err(_) => {
            return Err(BootError::NoDevDir);
        },
    };
    assert(!fs0.occupied(dev_dir));
    match fs.mount(dev_dir, devfs) {
        Ok(()) => {},
        Err(_) => {
            return Err(BootError::MountFailed);
        },
    }
    assert(fs.mounts() =~= seq![MountPoint { at: dev_dir, fs: 1 }]);
    assert(fs.backends() =~= seq![initramfs, devfs]);
    assert(initial_fs(initramfs, fs0));
    assert(fs0.resolve(fs0.root(), dev_path()) == Some(dev_dir));
    assert(fs0.kind(dev_dir) == InodeKind::Directory);
    assert(booted_fs(initramfs, devfs, fs));
    let root = fs.root_dir();
    let console_bytes: [u8; 12] = [0x2f, 0x64, 0x65, 0x76, 0x2f, 0x63, 0x6f, 0x6e, 0x73, 0x6f, 0x6c, 0x65];
    let console_slice = console_bytes.as_slice();
    assert(console_slice@ =~= console_path());
    assert(fs.backends()[0].wf());
    let console = match fs.lookup_inode(root, console_slice) {
        Ok(c) => c,
        Err(_) => {
            return Err(BootError::NoConsole);
        },
    };
    let exe = match fs.lookup_file(init_path) {
        Ok(e) => e,
        Err(_) => {
            return Err(BootError::NoInit);
        },
    };
    let ghost booted = fs;
    let mut shared = SharedRootFs::new();
    shared.publish(fs);
    let mut sched = Scheduler::new();
    let pid = match sched.new_init_process(&shared, exe, console, argv) {
        Ok(p) => p,
        Err(_) => {
            return Err(BootError::InitFailed);
        },
    };
    let act = sched.switch(ProcessState::Runnable);
    Ok((Kernel { root_fs: shared, scheduler: sched, init_pid: pid, console }, act))
}

/// `dev`
pub open spec fn dev_name() -> Seq<u8> {
    seq![0x64u8, 0x65, 0x76]
}

/// `console`
pub open spec fn console_name() -> Seq<u8> {
    seq![0x63u8, 0x6f, 0x6e, 0x73, 0x6f, 0x6c, 0x65]
}

/// `/dev/console` does not resolve while `/dev` is a directory of the root
/// backend without a `console` entry, and resolves into the device backend once
/// a backend whose root holds `console` is mounted at `/dev`.
pub proof fn lemma_console_appears_with_devfs(
    initramfs: FsBackend,
    devfs: FsBackend,
    fs0: RootFs,
    fs1: RootFs,
    d: InodeId,
    r: Result<(), crate::error::Errno>,
)
    requires
        initial_fs(initramfs, fs0),
        initramfs.nodes().len() <= usize::MAX,
        devfs.nodes().len() <= usize::MAX,
        fs0.resolve(fs0.root(), dev_path()) == Some(d),
        fs0.is_dir(d),
        child_index(initramfs.nodes(), d.ino as int, console_name()) is None,
        child_index(devfs.nodes(), 0, console_name()) is Some,
        mount_post(fs0, fs1, d, devfs, r),
    ensures
        fs0.resolve(fs0.root(), console_path()) is None,
        r is Ok,
        fs1.resolve(fs1.root(), console_path()) == Some(
            InodeId { fs: 1, ino: child_index(devfs.nodes(), 0, console_name())->0 as usize },
        ),
{
    let p = console_path();
    let q = dev_path();
    let root = fs0.root();
    assert(q.subrange(0, 0).len() == 0);
    assert(q.subrange(1, 4) =~= dev_name());
    assert(fs0.walk(root, q, 0, 0) == fs0.walk(root, q, 1, 1));
    lemma_walk_skip(fs0, root, q, 1, 1, 4);
    assert(fs0.mounted_at(root) is None);
    let c = fs0.step(root, dev_name());
    assert(c is Some);
    assert(fs0.mounted_at(c->0) is None);
    assert(c == Some(d));
    assert(d.fs == 0 && d.ino > 0);
    // Before the mount.
    assert(p.subrange(0, 0).len() == 0);
    assert(p.subrange(1, 4) =~= dev_name());
    assert(p.subrange(5, 12) =~= console_name());
    assert(fs0.walk(root, p, 0, 0) == fs0.walk(root, p, 1, 1));
    lemma_walk_skip(fs0, root, p, 1, 1, 4);
    assert(fs0.walk(root, p, 1, 4) == fs0.walk(d, p, 5, 5));
    lemma_walk_skip(fs0, d, p, 5, 5, 12);
    assert(fs0.mounted_at(d) is None);
    assert(fs0.step(d, console_name()) is None);
    // After the mount.
    assert(!fs0.occupied(d));
    assert(fs1.mounts() =~= seq![MountPoint { at: d, fs: 1 }]);
    assert(fs1.backends()[0] == initramfs);
    assert(fs1.backends()[1] == devfs);
    assert(fs1.mounted_at(root) is None) by {
        assert(fs1.mounts()[0].at != root);
    }
    assert(fs1.step(root, dev_name()) == Some(d));
    assert(fs1.walk(root, p, 0, 0) == fs1.walk(root, p, 1, 1));
    lemma_walk_skip(fs1, root, p, 1, 1, 4);
    assert(fs1.walk(root, p, 1, 4) == fs1.walk(d, p, 5, 5));
    lemma_walk_skip(fs1, d, p, 5, 5, 12);
    assert(fs1.mounted_at(d) == Some(1int));
    let target = InodeId { fs: 1, ino: child_index(devfs.nodes(), 0, console_name())->0 as usize };
    assert(fs1.step(d, console_name()) == Some(target));
    assert(fs1.mounted_at(target) is None) by {
        assert(fs1.mounts()[0].at != target);
    }
}

} // verus!
