use vstd::prelude::*;

verus! {

/// A file-system path held as its components, each as raw bytes.
///
/// Two paths are the same when their components are, which is how paths
/// compare in the standard library: `a//b` and `a/b` hold the same two
/// components. An absolute path starts with the root component `/`.
#[derive(Clone, Debug, PartialEq, Eq)]
pub struct FsPath {
    pub parts: Vec<Vec<u8>>,
}

impl View for FsPath {
    type V = Seq<Seq<u8>>;

    open spec fn view(&self) -> Seq<Seq<u8>> {
        self.parts@.map_values(|p: Vec<u8>| p@)
    }
}

/// The root component of an absolute path.
pub open spec fn root_part() -> Seq<u8> {
    seq![47u8]
}

/// Whether `p` is an absolute path: its first component is the root.
pub open spec fn is_absolute(p: Seq<Seq<u8>>) -> bool {
    p.len() > 0 && p[0] == root_part()
}

/// Whether `base` is a leading run of the components of `p`.
pub open spec fn is_prefix_of(base: Seq<Seq<u8>>, p: Seq<Seq<u8>>) -> bool {
    base.len() <= p.len() && p.subrange(0, base.len() as int) == base
}

/// Copies a byte string.
fn copy_bytes(b: &Vec<u8>) -> (r: Vec<u8>)
    ensures
        r@ == b@,
{
    let r = b.clone();
    assert(r@ =~= b@);
    r
}

/// Whether two byte strings are equal.
pub(crate) fn bytes_equal(a: &Vec<u8>, b: &Vec<u8>) -> (r: bool)
    ensures
        r == (a@ == b@),
{
    if a.len() != b.len() {
        return false;
    }
    let mut i: usize = 0;
    while i < a.len()
        invariant
            a@.len() == b@.len(),
            i <= a@.len(),
            a@.subrange(0, i as int) == b@.subrange(0, i as int),
        decreases a@.len() - i,
    {
        if a[i] != b[i] {
            assert(a@[i as int] != b@[i as int]);
            return false;
        }
        assert(a@.subrange(0, i + 1) =~= a@.subrange(0, i as int).push(a@[i as int]));
        assert(b@.subrange(0, i + 1) =~= b@.subrange(0, i as int).push(b@[i as int]));
        i = i + 1;
    }
    assert(a@ =~= a@.subrange(0, i as int));
    assert(b@ =~= b@.subrange(0, i as int));
    true
}

impl FsPath {
    /// Whether this path is absolute: its first component is the root.
    pub fn is_absolute(&self) -> (r: bool)
        ensures
            r == is_absolute(self@),
    {
        if self.parts.len() == 0 {
            return false;
        }
        let root: Vec<u8> = vec![47u8];
        assert(root@ == root_part());
        bytes_equal(&self.parts[0], &root)
    }

    /// A copy of this path.
    pub fn copy(&self) -> (r: FsPath)
        ensures
            r@ == self@,
    {
        let mut parts: Vec<Vec<u8>> = Vec::new();
        let mut i: usize = 0;
        while i < self.parts.len()
            invariant
                i <= self.parts@.len(),
                parts@.len() == i,
                forall|j: int| 0 <= j < i ==> #[trigger] parts@[j]@ == self.parts@[j]@,
            decreases self.parts@.len() - i,
        {
            parts.push(copy_bytes(&self.parts[i]));
            i = i + 1;
        }
        let r = FsPath { parts };
        assert(r@ =~= self@);
        r
    }

    /// Whether the two paths have the same components.
    pub fn same_as(&self, other: &FsPath) -> (r: bool)
        ensures
            r == (self@ == other@),
    {
        if self.parts.len() != other.parts.len() {
            assert(self@.len() != other@.len());
            return false;
        }
        let mut i: usize = 0;
        while i < self.parts.len()
            invariant
                self.parts@.len() == other.parts@.len(),
                i <= self.parts@.len(),
                forall|j: int| 0 <= j < i ==> #[trigger] self@[j] == other@[j],
            decreases self.parts@.len() - i,
        {
            if !bytes_equal(&self.parts[i], &other.parts[i]) {
                assert(self@[i as int] != other@[i as int]);
                return false;
            }
            i = i + 1;
        }
        assert(self@ =~= other@);
        true
    }

    /// Whether `base` is a leading run of this path's components.
    pub fn starts_with(&self, base: &FsPath) -> (r: bool)
        ensures
            r == is_prefix_of(base@, self@),
    {
        if base.parts.len() > self.parts.len() {
            return false;
        }
        let mut i: usize = 0;
        while i < base.parts.len()
            invariant
                base.parts@.len() <= self.parts@.len(),
                i <= base.parts@.len(),
                forall|j: int| 0 <= j < i ==> #[trigger] self@[j] == base@[j],
            decreases base.parts@.len() - i,
        {
            if !bytes_equal(&self.parts[i], &base.parts[i]) {
                assert(self@.subrange(0, base@.len() as int)[i as int] != base@[i as int]);
                return false;
            }
            i = i + 1;
        }
        assert(self@.subrange(0, base@.len() as int) =~= base@);
        true
    }

    /// What follows `base` in this path.
    pub fn strip_prefix(&self, base: &FsPath) -> (r: FsPath)
        requires
            is_prefix_of(base@, self@),
        ensures
            r@ == self@.skip(base@.len() as int),
    {
        let mut parts: Vec<Vec<u8>> = Vec::new();
        let mut i: usize = base.parts.len();
        let n = base.parts.len();
        while i < self.parts.len()
            invariant
                n == base@.len(),
                n <= i <= self.parts@.len(),
                parts@.len() == i - n,
                forall|j: int| 0 <= j < i - n ==> #[trigger] parts@[j]@ == self.parts@[j + n]@,
            decreases self.parts@.len() - i,
        {
            parts.push(copy_bytes(&self.parts[i]));
            i = i + 1;
        }
        let r = FsPath { parts };
        assert(r@ =~= self@.skip(base@.len() as int));
        r
    }

    /// This path followed by the components of `rel`.
    pub fn join(&self, rel: &FsPath) -> (r: FsPath)
        ensures
            r@ == self@ + rel@,
    {
        let mut r = self.copy();
        let mut i: usize = 0;
        while i < rel.parts.len()
            invariant
                i <= rel.parts@.len(),
                r@ == self@ + rel@.subrange(0, i as int),
            decreases rel.parts@.len() - i,
        {
            let ghost before = r@;
            r.parts.push(copy_bytes(&rel.parts[i]));
            assert(r@ =~= before.push(rel@[i as int]));
            assert(rel@.subrange(0, i + 1) =~= rel@.subrange(0, i as int).push(rel@[i as int]));
            assert(self@ + rel@.subrange(0, i + 1) =~= (self@ + rel@.subrange(0, i as int)).push(
                rel@[i as int],
            ));
            i = i + 1;
        }
        assert(rel@.subrange(0, i as int) =~= rel@);
        r
    }

    /// This path without its last component.
    pub fn parent(&self) -> (r: FsPath)
        requires
            self@.len() > 0,
        ensures
            r@ == self@.drop_last(),
    {
        let mut parts: Vec<Vec<u8>> = Vec::new();
        let mut i: usize = 0;
        let n = self.parts.len() - 1;
        while i < n
            invariant
                n == self.parts@.len() - 1,
                i <= n,
                parts@.len() == i,
                forall|j: int| 0 <= j < i ==> #[trigger] parts@[j]@ == self.parts@[j]@,
            decreases n - i,
        {
            parts.push(copy_bytes(&self.parts[i]));
            i = i + 1;
        }
        let r = FsPath { parts };
        assert(r@ =~= self@.drop_last());
        r
    }
}

} // verus!
