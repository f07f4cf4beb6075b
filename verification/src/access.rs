//! Which files a read may open: only those inside the workspace root, and
//! never through a symbolic link.
//!
//! Paths are compared as sequences of components, each component given by its
//! raw bytes; a path is inside the root when the root's components are a
//! prefix of its own, so `/work` contains `/work/a` but not `/workshop`.

use vstd::prelude::*;

verus! {

/// Why a path may not be read.
#[derive(PartialEq, Eq, Structural, Debug, Clone, Copy)]
pub enum AccessDenial {
    /// The path lies outside the workspace root.
    OutsideWorkspace,
    /// The path is a symbolic link.
    SymbolicLink,
}

impl AccessDenial {
    /// The text that explains the refusal.
    pub fn message(&self) -> (m: &'static str)
        ensures
            m@ == denial_text(*self),
    {
        match self {
            AccessDenial::OutsideWorkspace => "Access to paths outside the workspace is not allowed",
            AccessDenial::SymbolicLink => "Access to symbolic links is not allowed",
        }
    }
}

/// The text that explains a refusal.
pub open spec fn denial_text(d: AccessDenial) -> Seq<char> {
    match d {
        AccessDenial::OutsideWorkspace => "Access to paths outside the workspace is not allowed"@,
        AccessDenial::SymbolicLink => "Access to symbolic links is not allowed"@,
    }
}

/// Whether `path` starts with all the components of `root`.
pub open spec fn starts_with_components(path: Seq<Seq<u8>>, root: Seq<Seq<u8>>) -> bool {
    root.len() <= path.len() && path.take(root.len() as int) == root
}

/// The workspace root itself lies inside the workspace.
pub proof fn lemma_root_inside(root: Seq<Seq<u8>>)
    ensures
        starts_with_components(root, root),
{
    assert(root.take(root.len() as int) =~= root);
}

/// Whatever lies below a path inside the workspace is inside it too.
pub proof fn lemma_inside_extends(root: Seq<Seq<u8>>, path: Seq<Seq<u8>>, below: Seq<Seq<u8>>)
    requires
        starts_with_components(path, root),
    ensures
        starts_with_components(path + below, root),
{
    assert((path + below).take(root.len() as int) =~= path.take(root.len() as int));
}

/// The workspace that reads are confined to, held as the components of its
/// canonical path.
#[derive(Debug, Clone)]
pub struct FilePermissions {
    canonical_root: Vec<Vec<u8>>,
}

impl View for FilePermissions {
    type V = Seq<Seq<u8>>;

    closed spec fn view(&self) -> Seq<Seq<u8>> {
        self.canonical_root.deep_view()
    }
}

/// Whether two byte strings are equal.
fn same_bytes(a: &Vec<u8>, b: &Vec<u8>) -> (same: bool)
    ensures
        same == (a@ == b@),
{
    if a.len() != b.len() {
        return false;
    }
    let n = a.len();
    for i in 0..n
        invariant
            n == a@.len(),
            n == b@.len(),
            forall|j: int| 0 <= j < i ==> a@[j] == b@[j],
    {
        if a[i] != b[i] {
            return false;
        }
    }
    assert(a@ =~= b@);
    true
}

impl FilePermissions {
    /// Confines reads to the directory whose canonical path has these components.
    pub fn with_root(canonical_root: Vec<Vec<u8>>) -> (p: Self)
        ensures
            p@ == canonical_root.deep_view(),
    {
        FilePermissions { canonical_root }
    }

    /// The components of the workspace root.
    pub fn root_components(&self) -> (root: &Vec<Vec<u8>>)
        ensures
            root.deep_view() == self@,
    {
        &self.canonical_root
    }

    /// Checks that the canonical path with components `candidate` lies inside
    /// the workspace (the root itself included).
    pub fn validate_location(&self, candidate: &Vec<Vec<u8>>) -> (r: Result<(), AccessDenial>)
        ensures
            r is Ok <==> starts_with_components(candidate.deep_view(), self@),
            r is Err ==> r == Err::<(), AccessDenial>(AccessDenial::OutsideWorkspace),
    {
        let root = &self.canonical_root;
        let ghost rv = root.deep_view();
        let ghost cv = candidate.deep_view();
        if root.len() > candidate.len() {
            return Err(AccessDenial::OutsideWorkspace);
        }
        let n = root.len();
        for i in 0..n
            invariant
                n == root.len(),
                n <= candidate.len(),
                rv == root.deep_view(),
                cv == candidate.deep_view(),
                rv == self@,
                forall|j: int| 0 <= j < i ==> cv[j] == rv[j],
        {
            proof {
                assert(rv[i as int] =~= root@[i as int]@);
                assert(cv[i as int] =~= candidate@[i as int]@);
            }
            if !same_bytes(&root[i], &candidate[i]) {
                assert(cv.take(n as int)[i as int] != rv[i as int]);
                return Err(AccessDenial::OutsideWorkspace);
            }
        }
        assert(cv.take(n as int) =~= rv);
        Ok(())
    }

    /// Checks that what the path names is not itself a symbolic link.
    pub fn validate_kind(is_symlink: bool) -> (r: Result<(), AccessDenial>)
        ensures
            is_symlink ==> r == Err::<(), AccessDenial>(AccessDenial::SymbolicLink),
            !is_symlink ==> r is Ok,
    {
        if is_symlink {
            Err(AccessDenial::SymbolicLink)
        } else {
            Ok(())
        }
    }
}

} // verus!
