use vstd::prelude::*;
use crate::error::Errno;

verus! {

/// An inode: the backend it lives in and its number there.
#[derive(Clone, Copy, Debug, PartialEq, Eq, Structural)]
pub struct InodeId {
    pub fs: usize,
    pub ino: usize,
}

#[derive(Clone, Copy, Debug, PartialEq, Eq, Structural)]
pub enum InodeKind {
    Directory,
    File,
    Device,
}

/// One inode of a backend. Inode 0 is the backend's root directory.
pub struct Node {
    pub name: Vec<u8>,
    pub parent: usize,
    pub kind: InodeKind,
    pub data: Vec<u8>,
}

/// The child of directory `dir` named `name` in `nodes`.
pub open spec fn child_index(nodes: Seq<Node>, dir: int, name: Seq<u8>) -> Option<int> {
    if exists|j: int| 0 < j < nodes.len() && nodes[j].parent == dir && #[trigger] nodes[j].name@ == name {
        Some(choose|j: int| 0 < j < nodes.len() && nodes[j].parent == dir && #[trigger] nodes[j].name@ == name)
    } else {
        None
    }
}

/// An in-memory filesystem backend: inode lookup by parent and name, and
/// creation of entries.
pub struct FsBackend {
    nodes: Vec<Node>,
}

impl FsBackend {
    pub closed spec fn nodes(&self) -> Seq<Node> {
        self.nodes@
    }

    pub open spec fn wf(&self) -> bool {
        &&& self.nodes().len() >= 1
        &&& self.nodes()[0].kind == InodeKind::Directory
        &&& forall|j: int| 0 < j < self.nodes().len() ==> {
            let p = #[trigger] self.nodes()[j].parent as int;
            0 <= p < self.nodes().len() && self.nodes()[p].kind == InodeKind::Directory
        }
        &&& forall|j: int, k: int|
            0 < j < self.nodes().len() && 0 < k < self.nodes().len() && j != k
                && #[trigger] self.nodes()[j].parent == #[trigger] self.nodes()[k].parent
                ==> self.nodes()[j].name@ != self.nodes()[k].name@
    }

    /// A backend holding only its root directory.
    pub fn new() -> (r: FsBackend)
        ensures
            r.wf(),
            r.nodes().len() == 1,
    {
        let mut nodes: Vec<Node> = Vec::new();
        nodes.push(Node { name: Vec::new(), parent: 0, kind: InodeKind::Directory, data: Vec::new() });
        FsBackend { nodes }
    }

    /// Finds the child of `dir` whose name is `path[s..e]`.
    fn find_child(&self, dir: usize, path: &[u8], s: usize, e: usize) -> (r: Option<usize>)
        requires
            self.wf(),
            s <= e <= path@.len(),
        ensures
            r is None <==> child_index(self.nodes(), dir as int, path@.subrange(s as int, e as int))
                is None,
            r matches Some(j) ==> child_index(
                self.nodes(),
                dir as int,
                path@.subrange(s as int, e as int),
            ) == Some(j as int),
    {
        let ghost name = path@.subrange(s as int, e as int);
        let mut j: usize = 1;
        while j < self.nodes.len()
            invariant
                self.wf(),
                1 <= j <= self.nodes@.len(),
                s <= e <= path@.len(),
                name == path@.subrange(s as int, e as int),
                forall|k: int|
                    0 < k < j ==> !(self.nodes@[k].parent == dir && #[trigger] self.nodes@[k].name@ == name),
            decreases self.nodes@.len() - j,
        {
            let node = &self.nodes[j];
            if node.parent == dir && bytes_eq_range(&node.name, path, s, e) {
                proof {
                    let c = choose|k: int| 0 < k < self.nodes@.len() && self.nodes@[k].parent == dir
                        && #[trigger] self.nodes@[k].name@ == name;
                    if c != j {
                        assert(self.nodes()[c].parent == self.nodes()[j as int].parent);
                    }
                }
                return Some(j);
            }
            j = j + 1;
        }
        None
    }

    /// Creates an entry named `name` under directory `parent`, or returns the
    /// one that already has that name.
    pub fn create(&mut self, parent: usize, name: &[u8], kind: InodeKind, data: Vec<u8>) -> (r: Result<usize, Errno>)
        requires
            old(self).wf(),
        ensures
            final(self).wf(),
            !(parent < old(self).nodes().len() && old(self).nodes()[parent as int].kind
                == InodeKind::Directory) ==> r == Err::<usize, Errno>(Errno::NotFound)
                && final(self).nodes() == old(self).nodes(),
            parent < old(self).nodes().len() && old(self).nodes()[parent as int].kind
                == InodeKind::Directory ==> r is Ok && child_index(
                final(self).nodes(),
                parent as int,
                name@,
            ) == Some(r->Ok_0 as int) && final(self).nodes().len() >= old(self).nodes().len()
                && forall|k: int|
                0 <= k < old(self).nodes().len() ==> #[trigger] final(self).nodes()[k] == old(
                    self,
                ).nodes()[k],
    {
        if parent >= self.nodes.len() {
            return Err(Errno::NotFound);
        }
        match self.nodes[parent].kind {
            InodeKind::Directory => {},
            _ => {
                return Err(Errno::NotFound);
            },
        }
        let n = name.len();
        proof {
            assert(name@.subrange(0, n as int) == name@);
        }
        match self.find_child(parent, name, 0, n) {
            Some(j) => Ok(j),
            None => {
                let ghost pre = self.nodes@;
                let idx = self.nodes.len();
                let mut owned: Vec<u8> = Vec::new();
                let mut i: usize = 0;
                while i < n
                    invariant
                        n == name@.len(),
                        i <= n,
                        owned@ == name@.subrange(0, i as int),
                    decreases n - i,
                {
                    owned.push(name[i]);
                    i = i + 1;
                }
                assert(owned@ == name@);
                self.nodes.push(Node { name: owned, parent, kind, data });
                assert(self.nodes@[idx as int].name@ == name@);
                assert(self.nodes@[idx as int].parent == parent);
                assert forall|k: int| 0 <= k < pre.len() implies #[trigger] self.nodes@[k] == pre[k] by {}
                Ok(idx)
            },
        }
    }

    pub fn node_count(&self) -> (r: usize)
        ensures
            r == self.nodes().len(),
    {
        self.nodes.len()
    }
}

/// A backend attached at a directory inode of another backend.
#[derive(Clone, Copy, Debug, PartialEq, Eq, Structural)]
pub struct MountPoint {
    pub at: InodeId,
    pub fs: usize,
}

/// The path separator `/`.
pub open spec fn slash_byte() -> u8 {
    0x2f
}

/// The root filesystem: backend 0 is the root backend, every other backend is
/// attached at exactly one mount point.
pub struct RootFs {
    backends: Vec<FsBackend>,
    mounts: Vec<MountPoint>,
}

impl RootFs {
    pub closed spec fn backends(&self) -> Seq<FsBackend> {
        self.backends@
    }

    pub closed spec fn mounts(&self) -> Seq<MountPoint> {
        self.mounts@
    }

    pub open spec fn valid_inode(&self, i: InodeId) -> bool {
        &&& i.fs < self.backends().len()
        &&& i.ino < self.backends()[i.fs as int].nodes().len()
    }

    pub open spec fn kind(&self, i: InodeId) -> InodeKind {
        self.backends()[i.fs as int].nodes()[i.ino as int].kind
    }

    /// The contents of inode `i`.
    pub open spec fn contents(&self, i: InodeId) -> Seq<u8> {
        self.backends()[i.fs as int].nodes()[i.ino as int].data@
    }

    pub open spec fn is_dir(&self, i: InodeId) -> bool {
        self.valid_inode(i) && self.kind(i) == InodeKind::Directory
    }

    /// The backend mounted at `i`, if `i` is a mount point.
    pub open spec fn mounted_at(&self, i: InodeId) -> Option<int> {
        if exists|k: int| 0 <= k < self.mounts().len() && #[trigger] self.mounts()[k].at == i {
            Some(
                self.mounts()[choose|k: int|
                    0 <= k < self.mounts().len() && #[trigger] self.mounts()[k].at == i].fs as int,
            )
        } else {
            None
        }
    }

    /// `i` with a mount point replaced by the mounted backend's root.
    pub open spec fn enter(&self, i: InodeId) -> InodeId {
        match self.mounted_at(i) {
            Some(f) => InodeId { fs: f as usize, ino: 0 },
            None => i,
        }
    }

    /// One path component from `cur`; an empty component stays at `cur`.
    pub open spec fn step(&self, cur: InodeId, name: Seq<u8>) -> Option<InodeId> {
        if name.len() == 0 {
            Some(cur)
        } else {
            let d = self.enter(cur);
            match child_index(self.backends()[d.fs as int].nodes(), d.ino as int, name) {
                Some(j) => Some(InodeId { fs: d.fs, ino: j as usize }),
                None => None,
            }
        }
    }

    /// Resolution of `p` from `cur`, where `p[s..i]` is the component being read.
    pub open spec fn walk(&self, cur: InodeId, p: Seq<u8>, s: int, i: int) -> Option<InodeId>
        decreases p.len() - i,
    {
        if i >= p.len() {
            match self.step(cur, p.subrange(s, p.len() as int)) {
                Some(c) => Some(self.enter(c)),
                None => None,
            }
        } else if p[i] == slash_byte() {
            match self.step(cur, p.subrange(s, i)) {
                Some(c) => self.walk(c, p, i + 1, i + 1),
                None => None,
            }
        } else {
            self.walk(cur, p, s, i + 1)
        }
    }

    /// The inode that path `p` names, starting from `start`.
    pub open spec fn resolve(&self, start: InodeId, p: Seq<u8>) -> Option<InodeId> {
        self.walk(start, p, 0, 0)
    }

    pub open spec fn root(&self) -> InodeId {
        InodeId { fs: 0, ino: 0 }
    }

    pub open spec fn wf(&self) -> bool {
        &&& self.backends().len() >= 1
        &&& forall|f: int| 0 <= f < self.backends().len() ==> #[trigger] self.backends()[f].wf()
        &&& forall|k: int| 0 <= k < self.mounts().len() ==> {
            let m = #[trigger] self.mounts()[k];
            &&& self.is_dir(m.at)
            &&& 0 < m.fs < self.backends().len()
        }
        &&& forall|k: int, l: int|
            0 <= k < self.mounts().len() && 0 <= l < self.mounts().len() && k != l
                ==> #[trigger] self.mounts()[k].at != #[trigger] self.mounts()[l].at
    }

    /// A root filesystem whose root backend is `root`.
    pub fn new(root: FsBackend) -> (r: RootFs)
        requires
            root.wf(),
        ensures
            r.wf(),
            r.backends() == seq![root],
            r.mounts().len() == 0,
    {
        let mut backends: Vec<FsBackend> = Vec::new();
        backends.push(root);
        RootFs { backends, mounts: Vec::new() }
    }

    /// The root directory.
    pub fn root_dir(&self) -> (r: InodeId)
        ensures
            r == self.root(),
    {
        InodeId { fs: 0, ino: 0 }
    }

    fn find_mount(&self, i: InodeId) -> (r: Option<usize>)
        requires
            self.wf(),
        ensures
            r is None <==> self.mounted_at(i) is None,
            r matches Some(f) ==> self.mounted_at(i) == Some(f as int),
    {
        let mut k: usize = 0;
        while k < self.mounts.len()
            invariant
                self.wf(),
                k <= self.mounts@.len(),
                forall|l: int| 0 <= l < k ==> #[trigger] self.mounts@[l].at != i,
            decreases self.mounts@.len() - k,
        {
            if self.mounts[k].at == i {
                proof {
                    let c = choose|l: int| 0 <= l < self.mounts().len() && #[trigger] self.mounts()[l].at == i;
                    if c != k {
                        assert(self.mounts()[c].at != self.mounts()[k as int].at);
                    }
                }
                return Some(self.mounts[k].fs);
            }
            k = k + 1;
        }
        None
    }

    fn enter_exec(&self, i: InodeId) -> (r: InodeId)
        requires
            self.wf(),
        ensures
            r == self.enter(i),
    {
        match self.find_mount(i) {
            Some(f) => InodeId { fs: f, ino: 0 },
            None => i,
        }
    }

    fn step_exec(&self, cur: InodeId, p: &[u8], s: usize, e: usize) -> (r: Option<InodeId>)
        requires
            self.wf(),
            self.valid_inode(cur),
            s <= e <= p@.len(),
        ensures
            r == self.step(cur, p@.subrange(s as int, e as int)),
            r matches Some(c) ==> self.valid_inode(c),
    {
        if s == e {
            return Some(cur);
        }
        let d = self.enter_exec(cur);
        proof {
            if self.mounted_at(cur) is Some {
                let k = choose|k: int| 0 <= k < self.mounts().len() && #[trigger] self.mounts()[k].at == cur;
                assert(0 < self.mounts()[k].fs < self.backends().len());
            }
            assert(self.backends()[d.fs as int].wf());
        }
        match self.backends[d.fs].find_child(d.ino, p, s, e) {
            Some(j) => Some(InodeId { fs: d.fs, ino: j }),
            None => None,
        }
    }

    /// Resolves `path` from `start`.
    pub fn lookup_inode(&self, start: InodeId, path: &[u8]) -> (r: Result<InodeId, Errno>)
        requires
            self.wf(),
            self.valid_inode(start),
        ensures
            r is Ok <==> self.resolve(start, path@) is Some,
            r matches Ok(i) ==> self.resolve(start, path@) == Some(i) && self.valid_inode(i),
            r matches Err(e) ==> e == Errno::NotFound,
    {
        let mut cur = start;
        let mut s: usize = 0;
        let mut i: usize = 0;
        let n = path.len();
        while i < n
            invariant
                self.wf(),
                n == path@.len(),
                s <= i <= n,
                self.valid_inode(cur),
                self.walk(cur, path@, s as int, i as int) == self.resolve(start, path@),
            decreases n - i,
        {
            if path[i] == 0x2f {
                match self.step_exec(cur, path, s, i) {
                    Some(c) => {
                        cur = c;
                        s = i + 1;
                    },
                    None => {
                        return Err(Errno::NotFound);
                    },
                }
            }
            i = i + 1;
        }
        match self.step_exec(cur, path, s, n) {
            Some(c) => {
                let r = self.enter_exec(c);
                proof {
                    if self.mounted_at(c) is Some {
                        let k = choose|k: int| 0 <= k < self.mounts().len() && #[trigger] self.mounts()[k].at == c;
                        assert(0 < self.mounts()[k].fs < self.backends().len());
                        assert(self.backends()[r.fs as int].wf());
                    }
                }
                Ok(r)
            },
            None => Err(Errno::NotFound),
        }
    }
    /// `dir` is already occupied: a mount point, or the root of a mounted backend.
    pub open spec fn occupied(&self, dir: InodeId) -> bool {
        self.mounted_at(dir) is Some || (dir.fs != 0 && dir.ino == 0)
    }

    /// Attaches `fs` at directory `dir`.
    pub fn mount(&mut self, dir: InodeId, fs: FsBackend) -> (r: Result<(), Errno>)
        requires
            old(self).wf(),
            fs.wf(),
        ensures
            final(self).wf(),
            mount_post(*old(self), *final(self), dir, fs, r),
    {
        if dir.fs >= self.backends.len() || dir.ino >= self.backends[dir.fs].node_count() {
            return Err(Errno::NotFound);
        }
        match self.backends[dir.fs].nodes[dir.ino].kind {
            InodeKind::Directory => {},
            _ => {
                return Err(Errno::NotFound);
            },
        }
        if self.find_mount(dir).is_some() || (dir.fs != 0 && dir.ino == 0) {
            return Err(Errno::AlreadyMounted);
        }
        let ghost pre = *self;
        let id = self.backends.len();
        self.backends.push(fs);
        self.mounts.push(MountPoint { at: dir, fs: id });
        proof {
            let k = pre.mounts().len() as int;
            assert(self.mounts()[k].at == dir);
            assert forall|l: int| 0 <= l < self.mounts().len() && #[trigger] self.mounts()[l].at == dir implies l == k by {
                if l != k {
                    assert(pre.mounts()[l].at == dir);
                }
            }
            assert forall|f: int| 0 <= f < self.backends().len() implies #[trigger] self.backends()[f].wf() by {
                if f < pre.backends().len() {
                    assert(pre.backends()[f].wf());
                }
            }
            assert forall|j: int| 0 <= j < self.mounts().len() implies {
                let m = #[trigger] self.mounts()[j];
                &&& self.is_dir(m.at)
                &&& 0 < m.fs < self.backends().len()
            } by {
                if j < k {
                    assert(pre.mounts()[j] == self.mounts()[j]);
                    assert(pre.is_dir(pre.mounts()[j].at));
                    assert(self.backends()[pre.mounts()[j].at.fs as int] == pre.backends()[pre.mounts()[j].at.fs as int]);
                }
            }
        }
        Ok(())
    }

    /// Resolves an absolute `path` from the root.
    pub fn lookup(&self, path: &[u8]) -> (r: Result<InodeId, Errno>)
        requires
            self.wf(),
        ensures
            r is Ok <==> self.resolve(self.root(), path@) is Some,
            r matches Ok(i) ==> self.resolve(self.root(), path@) == Some(i) && self.valid_inode(i),
            r matches Err(e) ==> e == Errno::NotFound,
    {
        assert(self.backends()[0].wf());
        self.lookup_inode(InodeId { fs: 0, ino: 0 }, path)
    }

    /// The kind of a valid inode.
    pub fn kind_of(&self, i: InodeId) -> (r: InodeKind)
        requires
            self.valid_inode(i),
        ensures
            r == self.kind(i),
    {
        self.backends[i.fs].nodes[i.ino].kind
    }

    /// Resolves `path` from the root to a directory.
    pub fn lookup_dir(&self, path: &[u8]) -> (r: Result<InodeId, Errno>)
        requires
            self.wf(),
        ensures
            r is Ok <==> (self.resolve(self.root(), path@) matches Some(i) && self.kind(i)
                == InodeKind::Directory),
            r matches Ok(i) ==> self.resolve(self.root(), path@) == Some(i) && self.is_dir(i),
            r matches Err(e) ==> e == Errno::NotFound,
    {
        let i = self.lookup(path)?;
        match self.kind_of(i) {
            InodeKind::Directory => Ok(i),
            _ => Err(Errno::NotFound),
        }
    }

    /// Resolves `path` from the root to a regular file.
    pub fn lookup_file(&self, path: &[u8]) -> (r: Result<InodeId, Errno>)
        requires
            self.wf(),
        ensures
            r is Ok <==> (self.resolve(self.root(), path@) matches Some(i) && self.kind(i)
                == InodeKind::File),
            r matches Ok(i) ==> self.resolve(self.root(), path@) == Some(i) && self.valid_inode(i)
                && self.kind(i) == InodeKind::File,
            r matches Err(e) ==> e == Errno::NotFound,
    {
        let i = self.lookup(path)?;
        match self.kind_of(i) {
            InodeKind::File => Ok(i),
            _ => Err(Errno::NotFound),
        }
    }

    /// The contents of a valid inode.
    pub fn data(&self, i: InodeId) -> (r: &Vec<u8>)
        requires
            self.valid_inode(i),
        ensures
            r@ == self.contents(i),
    {
        &self.backends[i.fs].nodes[i.ino].data
    }
}

/// What `mount(dir, fs)` leaves behind.
pub open spec fn mount_post(
    pre: RootFs,
    post: RootFs,
    dir: InodeId,
    fs: FsBackend,
    r: Result<(), Errno>,
) -> bool {
    if !pre.is_dir(dir) {
        r == Err::<(), Errno>(Errno::NotFound) && post == pre
    } else if pre.occupied(dir) {
        r == Err::<(), Errno>(Errno::AlreadyMounted) && post == pre
    } else {
        &&& r is Ok
        &&& post.backends() == pre.backends().push(fs)
        &&& post.mounts() == pre.mounts().push(
            MountPoint { at: dir, fs: pre.backends().len() as usize },
        )
        &&& post.mounted_at(dir) == Some(pre.backends().len() as int)
    }
}

/// Mounting onto a mount point fails with `AlreadyMounted`, and the backend
/// already there stays where it was: every path resolves as before.
pub proof fn lemma_mount_onto_mount_point(
    pre: RootFs,
    post: RootFs,
    dir: InodeId,
    fs: FsBackend,
    r: Result<(), Errno>,
)
    requires
        pre.is_dir(dir),
        pre.mounted_at(dir) is Some,
        mount_post(pre, post, dir, fs, r),
    ensures
        r == Err::<(), Errno>(Errno::AlreadyMounted),
        post.mounted_at(dir) == pre.mounted_at(dir),
        forall|start: InodeId, p: Seq<u8>| #[trigger] post.resolve(start, p) == pre.resolve(start, p),
{
}

/// Walking over bytes that are not slashes only extends the current component.
pub(crate) proof fn lemma_walk_skip(fs: RootFs, cur: InodeId, p: Seq<u8>, s: int, i: int, j: int)
    requires
        0 <= s <= i <= j <= p.len(),
        forall|k: int| i <= k < j ==> p[k] != slash_byte(),
    ensures
        fs.walk(cur, p, s, i) == fs.walk(cur, p, s, j),
    decreases j - i,
{
    if i < j {
        lemma_walk_skip(fs, cur, p, s, i + 1, j);
    }
}

/// Compares `a` with `b[s..e]`.
fn bytes_eq_range(a: &Vec<u8>, b: &[u8], s: usize, e: usize) -> (r: bool)
    requires
        s <= e <= b@.len(),
    ensures
        r == (a@ == b@.subrange(s as int, e as int)),
{
    if a.len() != e - s {
        assert(a@.len() != b@.subrange(s as int, e as int).len());
        return false;
    }
    let mut i: usize = 0;
    while i < a.len()
        invariant
            a@.len() == e - s,
            s <= e <= b@.len(),
            i <= a@.len(),
            forall|k: int| 0 <= k < i ==> a@[k] == b@[s + k],
        decreases a@.len() - i,
    {
        if a[i] != b[s + i] {
            assert(a@[i as int] != b@.subrange(s as int, e as int)[i as int]);
            return false;
        }
        i = i + 1;
    }
    assert(a@ =~= b@.subrange(s as int, e as int));
    true
}

} // verus!
