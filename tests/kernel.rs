use penguin_kernel::boot::{boot_kernel, init_logger, BootError, BootInfo, LogLevel, RamArea};
use penguin_kernel::elf::{Elf, EHDR_SIZE, EM_X86_64, PHDR_SIZE, PT_LOAD};
use penguin_kernel::error::Errno;
use penguin_kernel::fd_table::{AccessMode, DescriptorTable, Fd, OpenOptions, OpenedFile, FD_MAX};
use penguin_kernel::process::{
    can_transition, load_image, ProcessState, Scheduler, SharedRootFs, SwitchAction,
};
use penguin_kernel::syscalls::{SyscallDispatcher, SYS_CLOSE, SYS_DUP, SYS_DUP2};
use penguin_kernel::vfs::{FsBackend, InodeId, InodeKind, RootFs};

fn put16(b: &mut Vec<u8>, o: usize, v: u16) {
    b[o..o + 2].copy_from_slice(&v.to_le_bytes());
}

fn put32(b: &mut Vec<u8>, o: usize, v: u32) {
    b[o..o + 4].copy_from_slice(&v.to_le_bytes());
}

fn put64(b: &mut Vec<u8>, o: usize, v: u64) {
    b[o..o + 8].copy_from_slice(&v.to_le_bytes());
}

/// An x86-64 ELF64 image with `phnum` program headers right after the header;
/// header 0 is a loadable segment covering the whole file, the others are notes.
fn image(entry: u64, phnum: u16) -> Vec<u8> {
    let size = 64 + 56 * phnum as usize;
    let mut b = vec![0u8; size];
    b[0..4].copy_from_slice(&[0x7f, b'E', b'L', b'F']);
    b[4] = 2;
    b[5] = 1;
    b[6] = 1;
    put16(&mut b, 16, 2);
    put16(&mut b, 18, 62);
    put32(&mut b, 20, 1);
    put64(&mut b, 24, entry);
    put64(&mut b, 32, 64);
    put16(&mut b, 52, 64);
    put16(&mut b, 54, 56);
    put16(&mut b, 56, phnum);
    for i in 0..phnum as usize {
        let o = 64 + 56 * i;
        put32(&mut b, o, if i == 0 { 1 } else { 4 });
        put32(&mut b, o + 4, 5);
        put64(&mut b, o + 8, 0);
        put64(&mut b, o + 16, 0x40_0000 + 0x1000 * i as u64);
        put64(&mut b, o + 24, 0x40_0000);
        put64(&mut b, o + 32, size as u64);
        put64(&mut b, o + 40, 0x2000);
        put64(&mut b, o + 48, 0x1000);
    }
    b
}

fn console_file(ino: usize) -> OpenedFile {
    OpenedFile { inode: InodeId { fs: 1, ino }, mode: AccessMode::ReadWrite, pos: 0 }
}

fn opts() -> OpenOptions {
    OpenOptions::new(false, false)
}

#[test]
fn elf_constants_agree_with_goblin() {
    assert_eq!(EHDR_SIZE, goblin::elf64::header::SIZEOF_EHDR);
    assert_eq!(PHDR_SIZE, goblin::elf64::program_header::SIZEOF_PHDR);
    assert_eq!(EM_X86_64, goblin::elf::header::EM_X86_64);
    assert_eq!(PT_LOAD, goblin::elf::program_header::PT_LOAD);
}

#[test]
fn elf_parse_reports_entry_and_headers() {
    let b = image(0x40_1000, 3);
    let elf = Elf::parse(&b).unwrap();
    assert_eq!(elf.entry(), 0x40_1000);
    assert_eq!(elf.phnum(), 3);
    let hs = elf.program_headers();
    assert_eq!(hs.len(), 3);
    assert_eq!(hs[0].p_type, PT_LOAD);
    assert_eq!(hs[1].p_type, 4);
    assert_eq!(hs[2].p_vaddr, 0x40_2000);
    assert_eq!(hs[0].p_filesz, b.len() as u64);
    assert_eq!(hs[0].p_memsz, 0x2000);
    assert_eq!(elf.program_header(1), hs[1]);
}

#[test]
fn elf_parse_without_program_headers() {
    let b = image(7, 0);
    let elf = Elf::parse(&b).unwrap();
    assert_eq!(elf.entry(), 7);
    assert!(elf.program_headers().is_empty());
}

#[test]
fn elf_parse_rejects_short_buffer() {
    let b = image(0x1000, 1);
    assert_eq!(Elf::parse(&b[..63]).err(), Some(Errno::MalformedBinary));
    assert_eq!(Elf::parse(&[]).err(), Some(Errno::MalformedBinary));
}

#[test]
fn elf_parse_rejects_table_past_end() {
    let b = image(0x1000, 2);
    assert_eq!(Elf::parse(&b[..b.len() - 1]).err(), Some(Errno::MalformedBinary));
    let mut c = image(0x1000, 1);
    put64(&mut c, 32, u64::MAX - 10);
    assert_eq!(Elf::parse(&c).err(), Some(Errno::MalformedBinary));
}

#[test]
fn elf_parse_rejects_bad_ident() {
    let mut b = image(0x1000, 1);
    b[1] = b'X';
    assert_eq!(Elf::parse(&b).err(), Some(Errno::MalformedBinary));
    let mut c = image(0x1000, 1);
    c[4] = 1;
    assert_eq!(Elf::parse(&c).err(), Some(Errno::MalformedBinary));
    let mut d = image(0x1000, 1);
    put16(&mut d, 18, 183);
    assert_eq!(Elf::parse(&d).err(), Some(Errno::MalformedBinary));
}

#[test]
fn load_image_keeps_loadable_segments() {
    let b = image(0x40_1000, 3);
    let (entry, segs) = load_image(&b).unwrap();
    assert_eq!(entry, 0x40_1000);
    assert_eq!(segs.len(), 1);
    assert_eq!(segs[0].p_vaddr, 0x40_0000);
}

#[test]
fn load_image_rejects_segment_past_end() {
    let mut b = image(0x40_1000, 1);
    put64(&mut b, 64 + 32, 10_000);
    assert_eq!(load_image(&b).err(), Some(Errno::MalformedBinary));
}

#[test]
fn open_takes_lowest_free_descriptor() {
    let mut t = DescriptorTable::new();
    assert_eq!(t.open_file(console_file(1), opts()), Ok(Fd::new(0)));
    assert_eq!(t.open_file(console_file(2), opts()), Ok(Fd::new(1)));
    assert_eq!(t.open_file(console_file(3), opts()), Ok(Fd::new(2)));
    assert_eq!(t.close(Fd::new(1)), Ok(Some(console_file(2))));
    assert_eq!(t.open_file(console_file(4), opts()), Ok(Fd::new(1)));
    assert_eq!(t.get(Fd::new(1)), Ok(console_file(4)));
}

#[test]
fn open_fails_when_table_full() {
    let mut t = DescriptorTable::new();
    for i in 0..FD_MAX {
        assert_eq!(t.open_file(console_file(1), opts()), Ok(Fd::new(i as i32)));
    }
    assert_eq!(t.open_file(console_file(1), opts()), Err(Errno::ResourceExhausted));
    assert_eq!(t.dup(Fd::new(0), opts()), Err(Errno::ResourceExhausted));
}

#[test]
fn dup2_onto_itself_is_noop() {
    let mut t = DescriptorTable::new();
    let a = t.open_file(console_file(1), opts()).unwrap();
    let before = t.binding(a);
    assert_eq!(t.dup2(a, a, OpenOptions::new(true, true)), Ok(()));
    assert_eq!(t.binding(a), before);
    assert_eq!(t.get(a), Ok(console_file(1)));
}

#[test]
fn dup2_shares_object_until_last_close() {
    let mut t = DescriptorTable::new();
    let a = t.open_file(console_file(5), opts()).unwrap();
    let b = Fd::new(7);
    assert_eq!(t.dup2(a, b, OpenOptions::new(true, false)), Ok(()));
    assert_eq!(t.binding(b).unwrap().options, OpenOptions::new(true, false));
    assert_eq!(t.binding(a).unwrap().options, opts());
    assert_eq!(t.close(a), Ok(None));
    assert_eq!(t.get(b), Ok(console_file(5)));
    assert_eq!(t.close(b), Ok(Some(console_file(5))));
    assert_eq!(t.get(b), Err(Errno::BadDescriptor));
}

#[test]
fn dup2_replaces_existing_target() {
    let mut t = DescriptorTable::new();
    let a = t.open_file(console_file(1), opts()).unwrap();
    let b = t.open_file(console_file(2), opts()).unwrap();
    assert_eq!(t.dup2(a, b, opts()), Ok(()));
    assert_eq!(t.get(b), Ok(console_file(1)));
    assert_eq!(t.close(a), Ok(None));
    assert_eq!(t.close(b), Ok(Some(console_file(1))));
}

#[test]
fn dup2_from_unbound_changes_nothing() {
    let mut t = DescriptorTable::new();
    let a = t.open_file(console_file(1), opts()).unwrap();
    assert_eq!(t.dup2(Fd::new(4), a, opts()), Err(Errno::BadDescriptor));
    assert_eq!(t.get(a), Ok(console_file(1)));
    assert_eq!(t.dup2(Fd::new(-1), a, opts()), Err(Errno::BadDescriptor));
    assert_eq!(t.dup2(a, Fd::new(FD_MAX as i32), opts()), Err(Errno::BadDescriptor));
    assert_eq!(t.dup2(a, Fd::new(-3), opts()), Err(Errno::BadDescriptor));
    assert_eq!(t.get(a), Ok(console_file(1)));
}

#[test]
fn dup_uses_lowest_free() {
    let mut t = DescriptorTable::new();
    let a = t.open_file(console_file(1), opts()).unwrap();
    assert_eq!(t.dup2(a, Fd::new(3), opts()), Ok(()));
    assert_eq!(t.dup(Fd::new(3), opts()), Ok(Fd::new(1)));
    assert_eq!(t.get(Fd::new(1)), Ok(console_file(1)));
    assert_eq!(t.dup(Fd::new(2), opts()), Err(Errno::BadDescriptor));
}

#[test]
fn close_unbound_is_bad_descriptor() {
    let mut t = DescriptorTable::new();
    assert_eq!(t.close(Fd::new(0)), Err(Errno::BadDescriptor));
    assert_eq!(t.close(Fd::new(-1)), Err(Errno::BadDescriptor));
}

fn initramfs(with_sh: bool) -> FsBackend {
    let mut fs = FsBackend::new();
    let dev = fs.create(0, b"dev", InodeKind::Directory, Vec::new()).unwrap();
    assert_eq!(dev, 1);
    let bin = fs.create(0, b"bin", InodeKind::Directory, Vec::new()).unwrap();
    if with_sh {
        fs.create(bin, b"sh", InodeKind::File, image(0x40_1000, 2)).unwrap();
    }
    fs
}

fn devfs() -> FsBackend {
    let mut fs = FsBackend::new();
    fs.create(0, b"console", InodeKind::Device, Vec::new()).unwrap();
    fs
}

#[test]
fn create_returns_existing_entry() {
    let mut fs = FsBackend::new();
    let a = fs.create(0, b"etc", InodeKind::Directory, Vec::new()).unwrap();
    assert_eq!(fs.create(0, b"etc", InodeKind::File, Vec::new()), Ok(a));
    assert_eq!(fs.node_count(), 2);
    let f = fs.create(a, b"passwd", InodeKind::File, Vec::new()).unwrap();
    assert_eq!(fs.create(f, b"x", InodeKind::File, Vec::new()), Err(Errno::NotFound));
    assert_eq!(fs.create(99, b"x", InodeKind::File, Vec::new()), Err(Errno::NotFound));
}

#[test]
fn console_resolves_only_after_devfs_mount() {
    let mut root = RootFs::new(initramfs(true));
    assert_eq!(root.lookup(b"/dev/console"), Err(Errno::NotFound));
    let dev = root.lookup_dir(b"/dev").unwrap();
    assert_eq!(root.mount(dev, devfs()), Ok(()));
    assert_eq!(root.lookup(b"/dev/console"), Ok(InodeId { fs: 1, ino: 1 }));
    assert_eq!(root.lookup(b"/dev"), Ok(InodeId { fs: 1, ino: 0 }));
    assert_eq!(root.lookup(b"//dev//console/"), Ok(InodeId { fs: 1, ino: 1 }));
    assert_eq!(root.lookup_inode(dev, b"console"), Ok(InodeId { fs: 1, ino: 1 }));
    assert_eq!(root.lookup(b"/dev/tty"), Err(Errno::NotFound));
}

#[test]
fn second_mount_is_rejected() {
    let mut root = RootFs::new(initramfs(true));
    let dev = root.lookup_dir(b"/dev").unwrap();
    assert_eq!(root.mount(dev, devfs()), Ok(()));
    assert_eq!(root.mount(dev, FsBackend::new()), Err(Errno::AlreadyMounted));
    assert_eq!(root.mount(InodeId { fs: 1, ino: 0 }, FsBackend::new()), Err(Errno::AlreadyMounted));
    assert_eq!(root.lookup(b"/dev/console"), Ok(InodeId { fs: 1, ino: 1 }));
    let sh = root.lookup_file(b"/bin/sh").unwrap();
    assert_eq!(root.mount(sh, FsBackend::new()), Err(Errno::NotFound));
    assert_eq!(root.mount(InodeId { fs: 5, ino: 0 }, FsBackend::new()), Err(Errno::NotFound));
}

#[test]
fn lookup_checks_kind() {
    let root = RootFs::new(initramfs(true));
    assert_eq!(root.lookup_dir(b"/bin/sh"), Err(Errno::NotFound));
    assert_eq!(root.lookup_file(b"/bin"), Err(Errno::NotFound));
    assert_eq!(root.lookup_file(b"/bin/sh"), Ok(InodeId { fs: 0, ino: 3 }));
    assert_eq!(root.lookup(b"/"), Ok(root.root_dir()));
    assert_eq!(root.lookup(b""), Ok(root.root_dir()));
    assert_eq!(root.kind_of(InodeId { fs: 0, ino: 2 }), InodeKind::Directory);
    assert_eq!(root.data(InodeId { fs: 0, ino: 3 }).len(), 64 + 2 * 56);
}

#[test]
fn state_transitions() {
    assert!(can_transition(ProcessState::Runnable, ProcessState::Blocked));
    assert!(can_transition(ProcessState::Blocked, ProcessState::Runnable));
    assert!(can_transition(ProcessState::Runnable, ProcessState::Zombie));
    assert!(!can_transition(ProcessState::Zombie, ProcessState::Runnable));
    assert!(!can_transition(ProcessState::Blocked, ProcessState::Blocked));
}

fn booted_root() -> SharedRootFs {
    let mut root = RootFs::new(initramfs(true));
    let dev = root.lookup_dir(b"/dev").unwrap();
    root.mount(dev, devfs()).unwrap();
    let mut shared = SharedRootFs::new();
    assert!(!shared.is_published());
    shared.publish(root);
    assert!(shared.is_published());
    shared
}

#[test]
fn init_process_is_seeded_with_console() {
    let shared = booted_root();
    let exe = shared.get().lookup_file(b"/bin/sh").unwrap();
    let console = shared.get().lookup(b"/dev/console").unwrap();
    let mut s = Scheduler::new();
    let pid = s.new_init_process(&shared, exe, console, vec![b"/bin/sh".to_vec()]).unwrap();
    assert_eq!(pid, 0);
    let p = s.process(0);
    assert_eq!(p.state, ProcessState::Runnable);
    assert_eq!(p.entry, 0x40_1000);
    assert_eq!(p.segments.len(), 1);
    assert_eq!(p.args, vec![b"/bin/sh".to_vec()]);
    let f = OpenedFile { inode: console, mode: AccessMode::ReadWrite, pos: 0 };
    for fd in 0..3 {
        assert_eq!(p.opened_files.get(Fd::new(fd)), Ok(f));
    }
    assert_eq!(p.opened_files.get(Fd::new(3)), Err(Errno::BadDescriptor));
}

#[test]
fn failed_creation_leaves_no_process() {
    let mut root = RootFs::new(initramfs(true));
    let dev = root.lookup_dir(b"/dev").unwrap();
    let mut shared = SharedRootFs::new();
    root.mount(dev, devfs()).unwrap();
    shared.publish(root);
    let mut s = Scheduler::new();
    let console = shared.get().lookup(b"/dev/console").unwrap();
    assert_eq!(s.new_init_process(&shared, console, console, Vec::new()), Err(Errno::MalformedBinary));
    assert_eq!(s.process_count(), 0);
}

#[test]
fn switch_round_robin_and_idle() {
    let shared = booted_root();
    let exe = shared.get().lookup_file(b"/bin/sh").unwrap();
    let console = shared.get().lookup(b"/dev/console").unwrap();
    let mut s = Scheduler::new();
    assert_eq!(s.idle_thread(), SwitchAction::Idle);
    s.new_init_process(&shared, exe, console, Vec::new()).unwrap();
    s.new_init_process(&shared, exe, console, Vec::new()).unwrap();
    assert_eq!(s.switch(ProcessState::Runnable), SwitchAction::Resume(0));
    assert_eq!(s.current_pid(), Some(0));
    assert_eq!(s.switch(ProcessState::Runnable), SwitchAction::Resume(1));
    assert_eq!(s.switch(ProcessState::Blocked), SwitchAction::Resume(0));
    assert_eq!(s.process_state(1), ProcessState::Blocked);
    assert_eq!(s.switch(ProcessState::Runnable), SwitchAction::Resume(0));
    assert_eq!(s.switch(ProcessState::Zombie), SwitchAction::Idle);
    assert_eq!(s.current_pid(), None);
    assert_eq!(s.process_state(0), ProcessState::Zombie);
    assert_eq!(s.idle_thread(), SwitchAction::Idle);
}

#[test]
fn error_codes_are_distinct_and_negative() {
    let all = [
        Errno::MalformedBinary,
        Errno::NotFound,
        Errno::TooManySymlinks,
        Errno::AlreadyMounted,
        Errno::BadDescriptor,
        Errno::ResourceExhausted,
        Errno::NoSuchSyscall,
    ];
    for (i, a) in all.iter().enumerate() {
        assert!(a.to_code() < 0);
        for b in all.iter().skip(i + 1) {
            assert_ne!(a.to_code(), b.to_code());
        }
    }
    assert_eq!(Errno::BadDescriptor.to_code(), -9);
    assert_eq!(Errno::NoSuchSyscall.to_code(), -38);
}

#[test]
fn sys_dup2_returns_new_descriptor() {
    let mut t = DescriptorTable::new();
    t.open_file(console_file(1), opts()).unwrap();
    let mut d = SyscallDispatcher::new(&mut t);
    assert_eq!(d.sys_dup2(Fd::new(0), Fd::new(5)), Ok(5));
    assert_eq!(d.sys_dup2(Fd::new(0), Fd::new(0)), Ok(0));
    assert_eq!(d.sys_dup2(Fd::new(2), Fd::new(5)), Err(Errno::BadDescriptor));
    assert_eq!(t.get(Fd::new(5)), Ok(console_file(1)));
}

#[test]
fn dispatch_maps_results_to_codes() {
    let mut t = DescriptorTable::new();
    t.open_file(console_file(1), opts()).unwrap();
    let mut d = SyscallDispatcher::new(&mut t);
    assert_eq!(d.dispatch(SYS_DUP2, [0, 4, 0, 0, 0, 0]), 4);
    assert_eq!(d.dispatch(SYS_DUP2, [9, 4, 0, 0, 0, 0]), -9);
    assert_eq!(d.dispatch(SYS_DUP, [4, 0, 0, 0, 0, 0]), 1);
    assert_eq!(d.dispatch(SYS_CLOSE, [4, 0, 0, 0, 0, 0]), 0);
    assert_eq!(d.dispatch(SYS_CLOSE, [4, 0, 0, 0, 0, 0]), -9);
    assert_eq!(d.dispatch(SYS_DUP2, [usize::MAX, 4, 0, 0, 0, 0]), -9);
    assert_eq!(t.get(Fd::new(1)), Ok(console_file(1)));
}

#[test]
fn dispatch_unknown_syscall() {
    let mut t = DescriptorTable::new();
    t.open_file(console_file(1), opts()).unwrap();
    let mut d = SyscallDispatcher::new(&mut t);
    assert_eq!(d.dispatch(9999, [0, 1, 2, 3, 4, 5]), Errno::NoSuchSyscall.to_code());
    assert_eq!(d.dispatch(9999, [0, 1, 2, 3, 4, 5]), -38);
    assert_eq!(t.get(Fd::new(0)), Ok(console_file(1)));
    assert_eq!(t.get(Fd::new(1)), Err(Errno::BadDescriptor));
}

fn one_region() -> BootInfo {
    BootInfo::new(&[RamArea { base: 0x10_0000, len: 0x100_0000 }]).unwrap()
}

#[test]
fn boot_reaches_init_process() {
    let info = one_region();
    assert_eq!(info.area_count(), 1);
    let (k, act) = boot_kernel(&info, initramfs(true), devfs(), b"/bin/sh", vec![b"/bin/sh".to_vec()]).unwrap();
    assert_eq!(act, SwitchAction::Resume(0));
    assert_eq!(k.init_pid, 0);
    assert_eq!(k.scheduler.current_pid(), Some(0));
    assert_eq!(k.scheduler.process_state(0), ProcessState::Runnable);
    assert_eq!(k.console, InodeId { fs: 1, ino: 1 });
    assert!(k.root_fs.is_published());
    assert_eq!(k.root_fs.get().lookup(b"/dev/console"), Ok(k.console));
}

#[test]
fn boot_without_init_is_fatal() {
    let r = boot_kernel(&one_region(), initramfs(false), devfs(), b"/bin/sh", Vec::new());
    assert_eq!(r.err(), Some(BootError::NoInit));
}

#[test]
fn boot_without_console_is_fatal() {
    let r = boot_kernel(&one_region(), initramfs(true), FsBackend::new(), b"/bin/sh", Vec::new());
    assert_eq!(r.err(), Some(BootError::NoConsole));
}

#[test]
fn boot_without_dev_is_fatal() {
    let r = boot_kernel(&one_region(), FsBackend::new(), devfs(), b"/bin/sh", Vec::new());
    assert_eq!(r.err(), Some(BootError::NoDevDir));
}

#[test]
fn boot_with_bad_init_is_fatal() {
    let mut fs = initramfs(false);
    fs.create(2, b"sh", InodeKind::File, vec![1, 2, 3]).unwrap();
    let r = boot_kernel(&one_region(), fs, devfs(), b"/bin/sh", Vec::new());
    assert_eq!(r.err(), Some(BootError::InitFailed));
}

#[test]
fn boot_without_memory_is_fatal() {
    let empty = BootInfo::new(&[]).unwrap();
    let r = boot_kernel(&empty, initramfs(true), devfs(), b"/bin/sh", Vec::new());
    assert_eq!(r.err(), Some(BootError::NoMemory));
    let zero = BootInfo::new(&[RamArea { base: 0x1000, len: 0 }]).unwrap();
    let r = boot_kernel(&zero, initramfs(true), devfs(), b"/bin/sh", Vec::new());
    assert_eq!(r.err(), Some(BootError::NoMemory));
}

#[test]
fn boot_info_capacity() {
    let areas = [RamArea { base: 0, len: 1 }; 9];
    assert!(BootInfo::new(&areas[..8]).is_some());
    assert_eq!(BootInfo::new(&areas[..8]).unwrap().area_count(), 8);
    assert!(BootInfo::new(&areas).is_none());
}

#[test]
fn logger_level() {
    assert_eq!(init_logger(true), LogLevel::Trace);
    assert_eq!(init_logger(false), LogLevel::Info);
}

#[test]
fn open_by_path_binds_resolved_inode() {
    let mut root = RootFs::new(initramfs(true));
    let dev = root.lookup_dir(b"/dev").unwrap();
    root.mount(dev, devfs()).unwrap();
    let mut t = DescriptorTable::new();
    let fd = t.open(&root, b"/dev/console", AccessMode::WriteOnly, opts()).unwrap();
    assert_eq!(fd, Fd::new(0));
    assert_eq!(fd.as_int(), 0);
    assert_eq!(
        t.get(fd),
        Ok(OpenedFile { inode: InodeId { fs: 1, ino: 1 }, mode: AccessMode::WriteOnly, pos: 0 })
    );
    assert_eq!(t.open(&root, b"/dev/null", AccessMode::ReadOnly, opts()), Err(Errno::NotFound));
    assert_eq!(t.get(Fd::new(1)), Err(Errno::BadDescriptor));
}
