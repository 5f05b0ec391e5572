use vstd::prelude::*;
use crate::error::Errno;

verus! {

/// Size of the fixed ELF64 file header.
pub const EHDR_SIZE: usize = 64;
/// Size of one ELF64 program header.
pub const PHDR_SIZE: usize = 56;
/// `EI_CLASS` value of a 64-bit image.
pub const ELFCLASS64: u8 = 2;
/// `EI_DATA` value of a little-endian image.
pub const ELFDATA2LSB: u8 = 1;
/// `e_machine` of the architecture the kernel runs on (x86-64).
pub const EM_X86_64: u16 = 62;
/// Program-header type of a loadable segment.
pub const PT_LOAD: u32 = 1;

pub open spec fn le_u16(s: Seq<u8>, o: int) -> int {
    s[o] as int + s[o + 1] as int * 0x100
}

pub open spec fn le_u32(s: Seq<u8>, o: int) -> int {
    le_u16(s, o) + le_u16(s, o + 2) * 0x10000
}

pub open spec fn le_u64(s: Seq<u8>, o: int) -> int {
    le_u32(s, o) + le_u32(s, o + 4) * 0x1_0000_0000
}

fn read_u16(b: &[u8], o: usize) -> (r: u16)
    requires
        o + 2 <= b@.len(),
    ensures
        r == le_u16(b@, o as int),
{
    (b[o] as u16) + (b[o + 1] as u16) * 0x100
}

fn read_u32(b: &[u8], o: usize) -> (r: u32)
    requires
        o + 4 <= b@.len(),
    ensures
        r == le_u32(b@, o as int),
{
    let _len = b.len();
    let lo = read_u16(b, o);
    let hi = read_u16(b, o + 2);
    (lo as u32) + (hi as u32) * 0x10000
}

fn read_u64(b: &[u8], o: usize) -> (r: u64)
    requires
        o + 8 <= b@.len(),
    ensures
        r == le_u64(b@, o as int),
{
    let _len = b.len();
    let lo = read_u32(b, o);
    let hi = read_u32(b, o + 4);
    (lo as u64) + (hi as u64) * 0x1_0000_0000
}

/// One entry of the program-header table.
#[derive(Clone, Copy, Debug, PartialEq, Eq, Structural)]
pub struct ProgramHeader {
    pub p_type: u32,
    pub p_flags: u32,
    pub p_offset: u64,
    pub p_vaddr: u64,
    pub p_paddr: u64,
    pub p_filesz: u64,
    pub p_memsz: u64,
    pub p_align: u64,
}

/// The program header stored at byte offset `o`.
pub open spec fn phdr_at(s: Seq<u8>, o: int) -> ProgramHeader {
    ProgramHeader {
        p_type: le_u32(s, o) as u32,
        p_flags: le_u32(s, o + 4) as u32,
        p_offset: le_u64(s, o + 8) as u64,
        p_vaddr: le_u64(s, o + 16) as u64,
        p_paddr: le_u64(s, o + 24) as u64,
        p_filesz: le_u64(s, o + 32) as u64,
        p_memsz: le_u64(s, o + 40) as u64,
        p_align: le_u64(s, o + 48) as u64,
    }
}

pub open spec fn e_entry(s: Seq<u8>) -> int {
    le_u64(s, 24)
}

pub open spec fn e_phoff(s: Seq<u8>) -> int {
    le_u64(s, 32)
}

pub open spec fn e_phentsize(s: Seq<u8>) -> int {
    le_u16(s, 54)
}

pub open spec fn e_phnum(s: Seq<u8>) -> int {
    le_u16(s, 56)
}

/// The identification bytes name an ELF64 little-endian image for this machine.
pub open spec fn ident_ok(s: Seq<u8>) -> bool {
    &&& s.len() >= EHDR_SIZE
    &&& s[0] == 0x7f && s[1] == 0x45 && s[2] == 0x4c && s[3] == 0x46
    &&& s[4] == ELFCLASS64
    &&& s[5] == ELFDATA2LSB
    &&& le_u16(s, 18) == EM_X86_64
}

/// A buffer the loader accepts: a valid header whose program-header table lies
/// inside the buffer.
pub open spec fn elf_valid(s: Seq<u8>) -> bool {
    &&& ident_ok(s)
    &&& e_phentsize(s) == PHDR_SIZE
    &&& e_phoff(s) + e_phnum(s) * PHDR_SIZE <= s.len()
}

/// A validated view of an ELF64 image borrowed from the caller.
pub struct Elf<'a> {
    buf: &'a [u8],
    entry: u64,
    phoff: usize,
    phnum: usize,
}

impl<'a> Elf<'a> {
    /// The bytes the image was parsed from.
    pub closed spec fn bytes(&self) -> Seq<u8> {
        self.buf@
    }

    pub closed spec fn wf(&self) -> bool {
        &&& elf_valid(self.buf@)
        &&& self.entry == e_entry(self.buf@)
        &&& self.phoff == e_phoff(self.buf@)
        &&& self.phnum == e_phnum(self.buf@)
    }

    /// Validates `buf` as an ELF64 image without reading outside it.
    pub fn parse(buf: &'a [u8]) -> (r: Result<Elf<'a>, Errno>)
        ensures
            r is Ok <==> elf_valid(buf@),
            r matches Ok(e) ==> e.wf() && e.bytes() == buf@,
            r matches Err(e) ==> e == Errno::MalformedBinary,
    {
        if buf.len() < EHDR_SIZE {
            return Err(Errno::MalformedBinary);
        }
        if buf[0] != 0x7f || buf[1] != 0x45 || buf[2] != 0x4c || buf[3] != 0x46 {
            return Err(Errno::MalformedBinary);
        }
        if buf[4] != ELFCLASS64 || buf[5] != ELFDATA2LSB || read_u16(buf, 18) != EM_X86_64 {
            return Err(Errno::MalformedBinary);
        }
        if read_u16(buf, 54) as usize != PHDR_SIZE {
            return Err(Errno::MalformedBinary);
        }
        let phoff = read_u64(buf, 32);
        let phnum = read_u16(buf, 56) as u64;
        let len = buf.len() as u64;
        assert(phnum <= 0xffff);
        if phoff > len || phnum * 56 > len - phoff {
            return Err(Errno::MalformedBinary);
        }
        let entry = read_u64(buf, 24);
        Ok(Elf { buf, entry, phoff: phoff as usize, phnum: phnum as usize })
    }

    /// The entry address from the header.
    pub fn entry(&self) -> (r: u64)
        requires
            self.wf(),
        ensures
            r == e_entry(self.bytes()),
    {
        self.entry
    }

    /// Number of program headers.
    pub fn phnum(&self) -> (r: usize)
        requires
            self.wf(),
        ensures
            r == e_phnum(self.bytes()),
    {
        self.phnum
    }

    /// The `i`-th program header.
    pub fn program_header(&self, i: usize) -> (r: ProgramHeader)
        requires
            self.wf(),
            i < e_phnum(self.bytes()),
        ensures
            r == phdr_at(self.bytes(), e_phoff(self.bytes()) + i * PHDR_SIZE),
    {
        proof {
            assert(i * PHDR_SIZE + PHDR_SIZE <= self.phnum * PHDR_SIZE) by (nonlinear_arith)
                requires i < self.phnum;
        }
        let len = self.buf.len();
        assert(self.phoff + i * PHDR_SIZE + PHDR_SIZE <= len);
        let o = self.phoff + i * PHDR_SIZE;
        ProgramHeader {
            p_type: read_u32(self.buf, o),
            p_flags: read_u32(self.buf, o + 4),
            p_offset: read_u64(self.buf, o + 8),
            p_vaddr: read_u64(self.buf, o + 16),
            p_paddr: read_u64(self.buf, o + 24),
            p_filesz: read_u64(self.buf, o + 32),
            p_memsz: read_u64(self.buf, o + 40),
            p_align: read_u64(self.buf, o + 48),
        }
    }

    /// The whole program-header table, in order.
    pub fn program_headers(&self) -> (r: Vec<ProgramHeader>)
        requires
            self.wf(),
        ensures
            r@.len() == e_phnum(self.bytes()),
            forall|i: int|
                0 <= i < r@.len() ==> r@[i] == phdr_at(
                    self.bytes(),
                    e_phoff(self.bytes()) + i * PHDR_SIZE,
                ),
    {
        let mut v: Vec<ProgramHeader> = Vec::new();
        let mut i: usize = 0;
        while i < self.phnum
            invariant
                self.wf(),
                i <= self.phnum,
                v@.len() == i,
                forall|k: int|
                    0 <= k < i ==> v@[k] == phdr_at(
                        self.bytes(),
                        e_phoff(self.bytes()) + k * PHDR_SIZE,
                    ),
            decreases self.phnum - i,
        {
            let h = self.program_header(i);
            v.push(h);
            i = i + 1;
        }
        v
    }
}

/// A buffer shorter than the fixed header, or whose program-header table runs
/// past its end, is never accepted.
pub proof fn lemma_short_or_overrunning_rejected(s: Seq<u8>)
    requires
        s.len() < EHDR_SIZE || (s.len() >= EHDR_SIZE && e_phoff(s) + e_phnum(s) * PHDR_SIZE
            > s.len()),
    ensures
        !elf_valid(s),
{
}

} // verus!
