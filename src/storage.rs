//! Storage locations for the produced artifacts: a local directory, or a
//! mounted network share.
use vstd::prelude::*;
use crate::export::strip_slashes;
use crate::text::{chars_of, extend_chars, string_of};

verus! {

/// A storage failure.
#[derive(Clone, Debug)]
pub enum StorageError {
    Io(String),
    S3(String),
    Config(String),
}

/// Files under a root directory, served below a base URL.
pub struct LocalStorage {
    root: String,
    base_url: String,
}

/// `path` below `root`, as joining file-system paths gives it: an absolute
/// `path` stands alone.
pub open spec fn joined(root: Seq<char>, path: Seq<char>) -> Seq<char> {
    if path.len() > 0 && path[0] == '/' {
        path
    } else if root.len() == 0 || root.last() == '/' {
        root + path
    } else {
        root + seq!['/'] + path
    }
}

impl LocalStorage {
    pub fn new(root: String, base_url: String) -> (r: LocalStorage)
        ensures
            r.root() == root@,
            r.base_url() == base_url@,
    {
        LocalStorage { root, base_url }
    }

    pub closed spec fn root(&self) -> Seq<char> {
        self.root@
    }

    pub closed spec fn base_url(&self) -> Seq<char> {
        self.base_url@
    }

    /// Where `path` lies in the storage.
    pub fn full_path(&self, path: &str) -> (r: String)
        ensures
            r@ == joined(self.root(), path@),
    {
        let p = chars_of(path);
        if p.len() > 0 && p[0] == '/' {
            return string_of(&p);
        }
        let mut v = chars_of(self.root.as_str());
        if !(v.len() == 0 || v[v.len() - 1] == '/') {
            v.push('/');
        }
        extend_chars(&mut v, &p);
        string_of(&v)
    }

    /// The URL that serves `path`: the base URL without its trailing
    /// slashes, a slash, then the path.
    pub fn public_url(&self, path: &str) -> (r: String)
        ensures
            r@ == strip_slashes(self.base_url()) + seq!['/'] + path@,
    {
        let mut v = chars_of(self.base_url.as_str());
        while v.len() > 0 && v[v.len() - 1] == '/'
            invariant
                strip_slashes(v@) == strip_slashes(self.base_url()),
            decreases v.len(),
        {
            v.pop();
        }
        v.push('/');
        extend_chars(&mut v, &chars_of(path));
        string_of(&v)
    }

    /// The backend's name, `local`.
    pub fn backend_name(&self) -> (r: &'static str)
        ensures
            r@ == "local"@,
    {
        "local"
    }
}

/// Files on a mounted network share.
pub struct NfsStorage {
    inner: LocalStorage,
    mount_point: String,
}

impl NfsStorage {
    /// Storage on the share mounted at `mount_point`; `mount_is_dir` says
    /// whether that path exists as a directory.
    pub fn new(mount_point: String, base_url: String, mount_is_dir: bool) -> (r: Result<
        NfsStorage,
        StorageError,
    >)
        ensures
            mount_is_dir <==> r is Ok,
            r is Ok ==> r->Ok_0.mount() == mount_point@ && r->Ok_0.inner().root()
                == mount_point@ && r->Ok_0.inner().base_url() == base_url@,
            r is Err ==> r->Err_0 is Config && r->Err_0->Config_0@
                == "NFS mount point does not exist or is not a directory: "@ + mount_point@,
    {
        if !mount_is_dir {
            let mut m = chars_of("NFS mount point does not exist or is not a directory: ");
            extend_chars(&mut m, &chars_of(mount_point.as_str()));
            return Err(StorageError::Config(string_of(&m)));
        }
        let inner = LocalStorage::new(mount_point.clone(), base_url);
        Ok(NfsStorage { inner, mount_point })
    }

    pub closed spec fn mount(&self) -> Seq<char> {
        self.mount_point@
    }

    pub closed spec fn inner(&self) -> LocalStorage {
        self.inner
    }

    /// The URL that serves `path`, as the share's local storage gives it.
    pub fn public_url(&self, path: &str) -> (r: String)
        ensures
            r@ == strip_slashes(self.inner().base_url()) + seq!['/'] + path@,
    {
        self.inner.public_url(path)
    }

    /// The backend's name, `nfs`.
    pub fn backend_name(&self) -> (r: &'static str)
        ensures
            r@ == "nfs"@,
    {
        "nfs"
    }

    /// The directory the share is mounted at.
    pub fn mount_point(&self) -> (r: &String)
        ensures
            r@ == self.mount(),
    {
        &self.mount_point
    }
}

} // verus!
