use vstd::prelude::*;
use crate::error::Errno;
use crate::vfs::{InodeId, RootFs};

verus! {

/// Number of descriptors a table can hold.
pub const FD_MAX: usize = 1024;

/// A file descriptor as user code passes it.
#[derive(Clone, Copy, Debug, PartialEq, Eq, Structural)]
pub struct Fd(pub i32);

impl Fd {
    pub open spec fn num(self) -> int {
        self.0 as int
    }

    pub fn new(value: i32) -> (r: Fd)
        ensures
            r.0 == value,
    {
        Fd(value)
    }

    pub fn as_int(&self) -> (r: i32)
        ensures
            r == self.0,
    {
        self.0
    }
}

/// Flags attached to one descriptor binding.
#[derive(Clone, Copy, Debug, PartialEq, Eq, Structural)]
pub struct OpenOptions {
    pub close_on_exec: bool,
    pub append: bool,
}

impl OpenOptions {
    pub fn new(close_on_exec: bool, append: bool) -> (r: OpenOptions)
        ensures
            r.close_on_exec == close_on_exec,
            r.append == append,
    {
        OpenOptions { close_on_exec, append }
    }
}

#[derive(Clone, Copy, Debug, PartialEq, Eq, Structural)]
pub enum AccessMode {
    ReadOnly,
    WriteOnly,
    ReadWrite,
}

/// The kernel-side state of an opened resource.
#[derive(Clone, Copy, Debug, PartialEq, Eq, Structural)]
pub struct OpenedFile {
    pub inode: InodeId,
    pub mode: AccessMode,
    pub pos: usize,
}

/// A descriptor's binding: the opened-file object it shares and its own flags.
#[derive(Clone, Copy, Debug, PartialEq, Eq, Structural)]
pub struct Binding {
    pub file: usize,
    pub options: OpenOptions,
}

/// A per-process descriptor table. Opened-file objects live in `files`, keyed by
/// an id that is never reused; an object stays alive exactly as long as some
/// descriptor is bound to it.
pub struct DescriptorTable {
    slots: Vec<Option<Binding>>,
    files: Vec<Option<OpenedFile>>,
}

impl DescriptorTable {
    /// What descriptor `fd` is bound to.
    pub closed spec fn bound(&self, fd: int) -> Option<Binding> {
        if 0 <= fd < self.slots@.len() {
            self.slots@[fd]
        } else {
            None
        }
    }

    /// The live opened-file object with id `id`.
    pub closed spec fn file(&self, id: int) -> Option<OpenedFile> {
        if 0 <= id < self.files@.len() {
            self.files@[id]
        } else {
            None
        }
    }

    /// The id the next opened-file object receives.
    pub closed spec fn fresh_id(&self) -> int {
        self.files@.len() as int
    }

    pub open spec fn refers(&self, fd: int, id: int) -> bool {
        self.bound(fd) matches Some(b) && b.file as int == id
    }

    /// `fd` is bound and no other descriptor shares its object.
    pub open spec fn last_ref(&self, fd: int) -> bool {
        &&& self.bound(fd) is Some
        &&& forall|j: int| j != fd ==> !#[trigger] self.refers(j, self.bound(fd)->0.file as int)
    }

    /// Every descriptor below `FD_MAX` is bound.
    pub open spec fn full(&self) -> bool {
        forall|fd: int| 0 <= fd < FD_MAX ==> #[trigger] self.bound(fd) is Some
    }

    pub closed spec fn wf(&self) -> bool {
        self.wf_but(-1)
    }

    /// Well-formed, except that object `free` may have no descriptor yet.
    closed spec fn wf_but(&self, free: int) -> bool {
        &&& self.slots@.len() <= FD_MAX
        &&& forall|fd: int| #[trigger]
            self.bound(fd) is Some ==> self.file(self.bound(fd)->0.file as int) is Some
        &&& forall|id: int| #[trigger]
            self.file(id) is Some ==> id == free || exists|fd: int| #[trigger] self.refers(fd, id)
    }

    pub proof fn lemma_wf(&self)
        requires
            self.wf(),
        ensures
            forall|fd: int| #[trigger]
                self.bound(fd) is Some ==> self.file(self.bound(fd)->0.file as int) is Some,
            forall|fd: int| #[trigger] self.bound(fd) is Some ==> 0 <= fd < FD_MAX,
            self.file(self.fresh_id()) is None,
    {
    }

    /// An empty table.
    pub fn new() -> (r: DescriptorTable)
        ensures
            r.wf(),
            forall|fd: int| #[trigger] r.bound(fd) is None,
            forall|id: int| #[trigger] r.file(id) is None,
    {
        DescriptorTable { slots: Vec::new(), files: Vec::new() }
    }

    /// Drops the binding of `fd`; releases its object if nothing else refers to it.
    fn unbind(&mut self, fd: usize) -> (r: Option<OpenedFile>)
        requires
            old(self).wf(),
            old(self).bound(fd as int) is Some,
        ensures
            final(self).wf(),
            close_post(*old(self), *final(self), fd as int, r),
            final(self).fresh_id() == old(self).fresh_id(),
    {
        let b = self.slots[fd].unwrap();
        self.slots[fd] = None;
        let mut shared = false;
        let mut k: usize = 0;
        while k < self.slots.len() && !shared
            invariant
                0 <= k <= self.slots@.len(),
                self.slots@ == old(self).slots@.update(fd as int, None),
                self.files == old(self).files,
                b == old(self).bound(fd as int)->0,
                !shared ==> forall|j: int| 0 <= j < k ==> !#[trigger] self.refers(j, b.file as int),
                shared ==> exists|j: int| #[trigger] self.refers(j, b.file as int),
            decreases self.slots@.len() - k + (if shared { 0int } else { 1int }),
        {
            if let Some(c) = self.slots[k] {
                if c.file == b.file {
                    assert(self.refers(k as int, b.file as int));
                    shared = true;
                }
            }
            if !shared {
                k = k + 1;
            }
        }
        let ghost pre = *old(self);
        assert(forall|j: int| j != fd ==> self.bound(j) == pre.bound(j));
        if shared {
            let ghost w = choose|j: int| #[trigger] self.refers(j, b.file as int);
            assert(pre.refers(w, b.file as int));
            assert(!pre.last_ref(fd as int));
            proof {
                assert forall|j: int| #[trigger]
                    self.bound(j) is Some implies self.file(self.bound(j)->0.file as int) is Some by {
                    assert(pre.bound(j) == self.bound(j));
                }
                assert forall|id: int| #[trigger] self.file(id) is Some implies exists|fd2: int|
                    #[trigger] self.refers(fd2, id) by {
                    if id == b.file {
                        assert(self.refers(w, id));
                    } else {
                        assert(pre.file(id) is Some);
                        let v = choose|fd2: int| #[trigger] pre.refers(fd2, id);
                        assert(self.refers(v, id));
                    }
                }
            }
            None
        } else {
            assert(pre.last_ref(fd as int)) by {
                assert forall|j: int| j != fd implies !#[trigger] pre.refers(j, b.file as int) by {
                    if 0 <= j < self.slots@.len() {
                        assert(!self.refers(j, b.file as int));
                    }
                }
            }
            assert(pre.file(b.file as int) is Some);
            let f = self.files[b.file];
            self.files[b.file] = None;
            assert(self.file(b.file as int) is None);
            proof {
                assert forall|j: int| #[trigger]
                    self.bound(j) is Some implies self.file(self.bound(j)->0.file as int) is Some by {
                    assert(pre.bound(j) == self.bound(j));
                    assert(!pre.refers(j, b.file as int));
                }
            }
            proof {
                assert forall|id: int| #[trigger] self.file(id) is Some implies exists|fd2: int|
                    #[trigger] self.refers(fd2, id) by {
                    assert(id != b.file);
                    assert(pre.file(id) is Some);
                    let v = choose|fd2: int| #[trigger] pre.refers(fd2, id);
                    assert(v != fd);
                    assert(self.refers(v, id));
                }
            }
            f
        }
    }

    /// The binding of `fd`, if any.
    pub fn binding(&self, fd: Fd) -> (r: Option<Binding>)
        ensures
            r == self.bound(fd.0 as int),
    {
        if fd.0 < 0 || fd.0 as usize >= self.slots.len() {
            None
        } else {
            self.slots[fd.0 as usize]
        }
    }

    /// The opened-file object behind `fd`.
    pub fn get(&self, fd: Fd) -> (r: Result<OpenedFile, Errno>)
        requires
            self.wf(),
        ensures
            r is Ok <==> self.bound(fd.0 as int) is Some,
            r matches Ok(f) ==> Some(f) == self.file(self.bound(fd.0 as int)->0.file as int),
            r matches Err(e) ==> e == Errno::BadDescriptor,
    {
        match self.binding(fd) {
            None => Err(Errno::BadDescriptor),
            Some(b) => {
                assert(self.file(b.file as int) is Some);
                Ok(self.files[b.file].unwrap())
            }
        }
    }

    /// The lowest descriptor number that is not bound, if one is below `FD_MAX`.
    fn lowest_free(&self) -> (r: Option<usize>)
        requires
            self.wf(),
        ensures
            r is None <==> self.full(),
            r matches Some(fd) ==> fd < FD_MAX && self.bound(fd as int) is None && forall|k: int|
                0 <= k < fd ==> #[trigger] self.bound(k) is Some,
    {
        let mut i: usize = 0;
        while i < self.slots.len()
            invariant
                self.wf(),
                i <= self.slots@.len(),
                forall|k: int| 0 <= k < i ==> #[trigger] self.bound(k) is Some,
            decreases self.slots@.len() - i,
        {
            if self.slots[i].is_none() {
                return Some(i);
            }
            i = i + 1;
        }
        if self.slots.len() < FD_MAX {
            Some(self.slots.len())
        } else {
            None
        }
    }

    /// Binds the free descriptor `fd` as `b` says.
    fn bind_free(&mut self, fd: usize, b: Binding)
        requires
            old(self).wf_but(b.file as int),
            fd < FD_MAX,
            old(self).bound(fd as int) is None,
            old(self).file(b.file as int) is Some,
        ensures
            final(self).wf(),
            final(self).bound(fd as int) == Some(b),
            forall|j: int| j != fd ==> #[trigger] final(self).bound(j) == old(self).bound(j),
            forall|i: int| #[trigger] final(self).file(i) == old(self).file(i),
            final(self).fresh_id() == old(self).fresh_id(),
    {
        let ghost pre = *old(self);
        while self.slots.len() <= fd
            invariant
                fd < FD_MAX,
                self.slots@.len() <= FD_MAX,
                self.files == pre.files,
                forall|j: int| #[trigger] self.bound(j) == pre.bound(j),
            decreases fd + 1 - self.slots@.len(),
        {
            let ghost prev = *self;
            self.slots.push(None);
            assert forall|j: int| #[trigger] self.bound(j) == pre.bound(j) by {
                assert(prev.bound(j) == pre.bound(j));
                if 0 <= j < prev.slots@.len() {
                    assert(self.slots@[j] == prev.slots@[j]);
                }
            }
        }
        let ghost mid = *self;
        self.slots[fd] = Some(b);
        proof {
            assert forall|j: int| j != fd implies #[trigger] self.bound(j) == old(self).bound(j) by {
                assert(mid.bound(j) == pre.bound(j));
                if 0 <= j < self.slots@.len() {
                    assert(self.slots@[j] == mid.slots@[j]);
                }
            }
            assert forall|j: int| #[trigger]
                self.bound(j) is Some implies self.file(self.bound(j)->0.file as int) is Some by {
                if j != fd {
                    assert(pre.bound(j) == self.bound(j));
                }
            }
            assert forall|id: int| #[trigger] self.file(id) is Some implies exists|fd2: int|
                #[trigger] self.refers(fd2, id) by {
                if id == b.file {
                    assert(self.refers(fd as int, id));
                } else {
                    assert(pre.file(id) is Some);
                    let v = choose|fd2: int| #[trigger] pre.refers(fd2, id);
                    assert(v != fd);
                    assert(self.refers(v, id));
                }
            }
        }
    }

    /// Binds `file` to the lowest unused descriptor.
    pub fn open_file(&mut self, file: OpenedFile, options: OpenOptions) -> (r: Result<Fd, Errno>)
        requires
            old(self).wf(),
        ensures
            final(self).wf(),
            open_post(*old(self), *final(self), file, options, r),
    {
        match self.lowest_free() {
            None => Err(Errno::ResourceExhausted),
            Some(fd) => {
                let ghost pre = *self;
                proof {
                    pre.lemma_wf();
                }
                let id = self.files.len();
                self.files.push(Some(file));
                proof {
                    assert forall|j: int| #[trigger]
                        self.bound(j) is Some implies self.file(self.bound(j)->0.file as int) is Some by {
                        assert(pre.bound(j) == self.bound(j));
                    }
                    assert forall|i: int| #[trigger] self.file(i) is Some implies i == id || exists|fd2: int|
                        #[trigger] self.refers(fd2, i) by {
                        if i != id {
                        assert(pre.file(i) is Some);
                        let v = choose|fd2: int| #[trigger] pre.refers(fd2, i);
                        assert(self.refers(v, i));
                        }
                    }
                }
                self.bind_free(fd, Binding { file: id, options });
                assert(forall|i: int| i != id ==> #[trigger] self.file(i) == pre.file(i));
                Ok(Fd(fd as i32))
            }
        }
    }

    /// Resolves `path` from the root of `fs` and binds the lowest unused
    /// descriptor to a new object for the inode found.
    pub fn open(&mut self, fs: &RootFs, path: &[u8], mode: AccessMode, options: OpenOptions) -> (r:
        Result<Fd, Errno>)
        requires
            old(self).wf(),
            fs.wf(),
        ensures
            final(self).wf(),
            fs.resolve(fs.root(), path@) is None ==> r == Err::<Fd, Errno>(Errno::NotFound)
                && same_table(*old(self), *final(self)),
            fs.resolve(fs.root(), path@) matches Some(i) ==> open_post(
                *old(self),
                *final(self),
                OpenedFile { inode: i, mode, pos: 0 },
                options,
                r,
            ),
    {
        let inode = fs.lookup(path)?;
        self.open_file(OpenedFile { inode, mode, pos: 0 }, options)
    }

    /// Removes the binding of `fd`, returning the object when this was its last
    /// descriptor.
    pub fn close(&mut self, fd: Fd) -> (r: Result<Option<OpenedFile>, Errno>)
        requires
            old(self).wf(),
        ensures
            final(self).wf(),
            old(self).bound(fd.num()) is None ==> r == Err::<Option<OpenedFile>, Errno>(
                Errno::BadDescriptor,
            ) && same_table(*old(self), *final(self)),
            old(self).bound(fd.num()) is Some ==> r is Ok && close_post(
                *old(self),
                *final(self),
                fd.num(),
                r->Ok_0,
            ),
    {
        if self.binding(fd).is_none() {
            return Err(Errno::BadDescriptor);
        }
        let released = self.unbind(fd.0 as usize);
        Ok(released)
    }

    /// Makes `newfd` a second descriptor of the object behind `oldfd`, with its own
    /// `options`; whatever `newfd` was bound to is closed first.
    pub fn dup2(&mut self, oldfd: Fd, newfd: Fd, options: OpenOptions) -> (r: Result<(), Errno>)
        requires
            old(self).wf(),
        ensures
            final(self).wf(),
            dup2_post(*old(self), *final(self), oldfd, newfd, options, r),
    {
        let b = match self.binding(oldfd) {
            Some(b) => b,
            None => {
                return Err(Errno::BadDescriptor);
            },
        };
        if newfd.0 < 0 || newfd.0 as usize >= FD_MAX {
            return Err(Errno::BadDescriptor);
        }
        if oldfd.0 == newfd.0 {
            return Ok(());
        }
        let ghost pre = *self;
        let n = newfd.0 as usize;
        if self.binding(newfd).is_some() {
            let _ = self.unbind(n);
        }
        let ghost mid = *self;
        assert(mid.refers(oldfd.num(), b.file as int));
        self.bind_free(n, Binding { file: b.file, options });
        Ok(())
    }

    /// Binds the lowest unused descriptor to the object behind `oldfd`.
    pub fn dup(&mut self, oldfd: Fd, options: OpenOptions) -> (r: Result<Fd, Errno>)
        requires
            old(self).wf(),
        ensures
            final(self).wf(),
            old(self).bound(oldfd.num()) is None ==> r == Err::<Fd, Errno>(Errno::BadDescriptor)
                && same_table(*old(self), *final(self)),
            old(self).bound(oldfd.num()) is Some && old(self).full() ==> r == Err::<Fd, Errno>(
                Errno::ResourceExhausted,
            ) && same_table(*old(self), *final(self)),
            old(self).bound(oldfd.num()) is Some && !old(self).full() ==> {
                &&& r is Ok
                &&& 0 <= r->Ok_0.num() < FD_MAX
                &&& old(self).bound(r->Ok_0.num()) is None
                &&& forall|k: int| 0 <= k < r->Ok_0.num() ==> #[trigger] old(self).bound(k) is Some
                &&& final(self).bound(r->Ok_0.num()) == Some(
                    Binding { file: old(self).bound(oldfd.num())->0.file, options },
                )
                &&& forall|j: int| j != r->Ok_0.num() ==> #[trigger] final(self).bound(j) == old(
                    self,
                ).bound(j)
                &&& forall|i: int| #[trigger] final(self).file(i) == old(self).file(i)
            },
    {
        let b = match self.binding(oldfd) {
            Some(b) => b,
            None => {
                return Err(Errno::BadDescriptor);
            },
        };
        match self.lowest_free() {
            None => Err(Errno::ResourceExhausted),
            Some(fd) => {
                self.bind_free(fd, Binding { file: b.file, options });
                Ok(Fd(fd as i32))
            },
        }
    }
}

/// `post` is `pre` with `fd` unbound and its object released when it was the
/// last reference; `r` is the released object.
pub open spec fn close_post(
    pre: DescriptorTable,
    post: DescriptorTable,
    fd: int,
    r: Option<OpenedFile>,
) -> bool {
    let id = pre.bound(fd)->0.file as int;
    &&& post.bound(fd) is None
    &&& forall|j: int| j != fd ==> #[trigger] post.bound(j) == pre.bound(j)
    &&& forall|i: int| i != id ==> #[trigger] post.file(i) == pre.file(i)
    &&& if pre.last_ref(fd) {
        r == pre.file(id) && post.file(id) is None
    } else {
        r is None && post.file(id) == pre.file(id)
    }
}

/// `post` binds and holds the same as `pre`.
pub open spec fn same_table(pre: DescriptorTable, post: DescriptorTable) -> bool {
    &&& forall|j: int| #[trigger] post.bound(j) == pre.bound(j)
    &&& forall|i: int| #[trigger] post.file(i) == pre.file(i)
}

/// `open` either finds every descriptor bound, or binds the lowest unbound one
/// to a new object holding `file`.
pub open spec fn open_post(
    pre: DescriptorTable,
    post: DescriptorTable,
    file: OpenedFile,
    options: OpenOptions,
    r: Result<Fd, Errno>,
) -> bool {
    if pre.full() {
        r == Err::<Fd, Errno>(Errno::ResourceExhausted) && same_table(pre, post)
    } else {
        &&& r is Ok
        &&& 0 <= r->Ok_0.num() < FD_MAX
        &&& pre.bound(r->Ok_0.num()) is None
        &&& forall|k: int| 0 <= k < r->Ok_0.num() ==> #[trigger] pre.bound(k) is Some
        &&& pre.file(pre.fresh_id()) is None
        &&& 0 <= pre.fresh_id() <= usize::MAX
        &&& post.bound(r->Ok_0.num()) == Some(
            Binding { file: pre.fresh_id() as usize, options },
        )
        &&& post.file(pre.fresh_id()) == Some(file)
        &&& forall|j: int| j != r->Ok_0.num() ==> #[trigger] post.bound(j) == pre.bound(j)
        &&& forall|i: int| i != pre.fresh_id() ==> #[trigger] post.file(i) == pre.file(i)
    }
}

/// What `dup2(oldfd, newfd, options)` leaves behind.
pub open spec fn dup2_post(
    pre: DescriptorTable,
    post: DescriptorTable,
    oldfd: Fd,
    newfd: Fd,
    options: OpenOptions,
    r: Result<(), Errno>,
) -> bool {
    let n = newfd.num();
    if pre.bound(oldfd.num()) is None || n < 0 || n >= FD_MAX {
        r == Err::<(), Errno>(Errno::BadDescriptor) && same_table(pre, post)
    } else if oldfd == newfd {
        r is Ok && same_table(pre, post)
    } else {
        let target = pre.bound(oldfd.num())->0.file;
        let replaced = pre.bound(n)->0.file as int;
        &&& r is Ok
        &&& post.bound(n) == Some(Binding { file: target, options })
        &&& forall|j: int| j != n ==> #[trigger] post.bound(j) == pre.bound(j)
        &&& if pre.last_ref(n) {
            &&& post.file(replaced) is None
            &&& forall|i: int| i != replaced ==> #[trigger] post.file(i) == pre.file(i)
        } else {
            forall|i: int| #[trigger] post.file(i) == pre.file(i)
        }
    }
}

} // verus!

verus! {

/// Duplicating a bound descriptor onto itself succeeds and changes nothing.
pub proof fn lemma_dup2_onto_itself(
    pre: DescriptorTable,
    post: DescriptorTable,
    fd: Fd,
    options: OpenOptions,
    r: Result<(), Errno>,
)
    requires
        pre.wf(),
        pre.bound(fd.num()) is Some,
        dup2_post(pre, post, fd, fd, options, r),
    ensures
        r is Ok,
        same_table(pre, post),
{
    pre.lemma_wf();
}

/// Duplicating from an unbound descriptor fails with `BadDescriptor` and leaves
/// the table as it was, the target included.
pub proof fn lemma_dup2_unbound_source(
    pre: DescriptorTable,
    post: DescriptorTable,
    oldfd: Fd,
    newfd: Fd,
    options: OpenOptions,
    r: Result<(), Errno>,
)
    requires
        pre.bound(oldfd.num()) is None,
        dup2_post(pre, post, oldfd, newfd, options, r),
    ensures
        r == Err::<(), Errno>(Errno::BadDescriptor),
        same_table(pre, post),
        post.bound(newfd.num()) == pre.bound(newfd.num()),
{
}

/// After opening `a` and duplicating it onto `b`, closing `a` keeps the object
/// reachable through `b`, and closing `b` afterwards releases it; it is released
/// exactly once, by the second close.
pub proof fn lemma_shared_object_released_once(
    t0: DescriptorTable,
    t1: DescriptorTable,
    t2: DescriptorTable,
    t3: DescriptorTable,
    t4: DescriptorTable,
    file: OpenedFile,
    o1: OpenOptions,
    o2: OpenOptions,
    a: Fd,
    b: Fd,
    r2: Result<(), Errno>,
    r3: Option<OpenedFile>,
    r4: Option<OpenedFile>,
)
    requires
        t0.wf(),
        open_post(t0, t1, file, o1, Ok(a)),
        0 <= b.num() < FD_MAX,
        a != b,
        dup2_post(t1, t2, a, b, o2, r2),
        close_post(t2, t3, a.num(), r3),
        close_post(t3, t4, b.num(), r4),
    ensures
        r2 is Ok,
        r3 is None,
        t3.bound(b.num()) matches Some(bb) && t3.file(bb.file as int) == Some(file),
        r4 == Some(file),
        t4.file(t0.fresh_id()) is None,
{
    t0.lemma_wf();
    let id = t0.fresh_id();
    assert(t0.file(id) is None);
    assert(!t0.full());
    assert forall|j: int| j != a.num() implies !#[trigger] t1.refers(j, id) by {
        assert(t1.bound(j) == t0.bound(j));
        if t0.bound(j) is Some {
            assert(t0.file(t0.bound(j)->0.file as int) is Some);
        }
    }
    assert(t1.refers(a.num(), id));
    assert(t2.bound(b.num()) == Some(Binding { file: id as usize, options: o2 }));
    let replaced = t1.bound(b.num())->0.file as int;
    if t1.last_ref(b.num()) {
        assert(replaced != id);
    }
    assert(t2.file(id) == Some(file));
    assert(t2.refers(b.num(), id));
    assert(!t2.last_ref(a.num()));
    assert(t3.bound(b.num()) == t2.bound(b.num()));
    assert forall|j: int| j != b.num() implies !#[trigger] t3.refers(j, id) by {
        if j != a.num() {
            assert(t3.bound(j) == t2.bound(j));
            assert(t2.bound(j) == t1.bound(j));
            assert(!t1.refers(j, id));
        }
    }
    assert(t3.last_ref(b.num()));
}

} // verus!
