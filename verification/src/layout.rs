//! Layout descriptors: for one folder, the expected data files — one per
//! configured type, each named `<type>.on` under the folder's directory.
//! Derivation is pure and order-preserving with the configured type list,
//! independent of what currently exists on disk.

use vstd::prelude::*;
use crate::text::dot_join;
use crate::text::dotted;
use crate::text::joined;
use crate::text::path_join;
use crate::text::views_of;
use vstd::string::StringExecFns;

verus! {

/// One expected data file: its type name, fixed extension, computed file
/// name and full path.
#[derive(Debug)]
pub struct File {
    pub ext: String,
    pub name: String,
    pub full_name: String,
    pub path: String,
}

impl Clone for File {
    fn clone(&self) -> (r: Self)
        ensures
            r == *self,
    {
        File {
            ext: self.ext.clone(),
            name: self.name.clone(),
            full_name: self.full_name.clone(),
            path: self.path.clone(),
        }
    }
}

/// A file entry is fully derived from its directory and type name: the
/// name is the type, the extension is fixed, and the path is
/// `<dir>/<type>.on`.
pub open spec fn file_wf(f: File, dir: Seq<char>, name: Seq<char>) -> bool {
    &&& f.name@ == name
    &&& f.ext@ == "on"@
    &&& f.full_name@ == dotted(name, "on"@)
    &&& f.path@ == joined(dir, dotted(name, "on"@))
}

impl File {
    /// An empty entry, to be filled by `setup`.
    pub fn new() -> (r: Self)
        ensures
            r.ext@ == Seq::<char>::empty(),
            r.name@ == Seq::<char>::empty(),
            r.full_name@ == Seq::<char>::empty(),
            r.path@ == Seq::<char>::empty(),
    {
        File {
            ext: String::new(),
            name: String::new(),
            full_name: String::new(),
            path: String::new(),
        }
    }

    /// Derives the entry for type `name` under the carrier's directory.
    pub fn setup(self, name: &String, carrier: &Carrier) -> (r: Self)
        ensures
            file_wf(r, carrier.dir@, name@),
    {
        let ext = String::from_str("on");
        let full_name = dot_join(name.as_str(), "on");
        let path = path_join(carrier.dir.as_str(), full_name.as_str());
        File { ext, name: name.clone(), full_name, path }
    }
}

/// The expected layout for one folder: its directory under the store's
/// root, and one file entry per configured type, in configuration order.
pub struct Carrier {
    pub dir: String,
    pub folder: String,
    pub paths: Vec<File>,
}

/// A carrier is fully derived from the store root, its folder name and
/// the configured type list.
pub open spec fn carrier_wf(c: Carrier, root: Seq<char>, folder: Seq<char>, types: Seq<
    Seq<char>,
>) -> bool {
    &&& c.folder@ == folder
    &&& c.dir@ == joined(root, folder)
    &&& c.paths@.len() == types.len()
    &&& forall|j: int| 0 <= j < types.len() ==> file_wf(#[trigger] c.paths@[j], c.dir@, types[j])
}

impl Carrier {
    /// An empty carrier, to be filled by `setup`.
    pub fn new() -> (r: Self)
        ensures
            r.dir@ == Seq::<char>::empty(),
            r.folder@ == Seq::<char>::empty(),
            r.paths@.len() == 0,
    {
        Carrier { dir: String::new(), folder: String::new(), paths: Vec::new() }
    }

    /// One file entry per configured type, in order.
    pub fn get_data_paths(&self, types: &Vec<String>) -> (r: Vec<File>)
        ensures
            r@.len() == types@.len(),
            forall|j: int| 0 <= j < types@.len() ==> file_wf(#[trigger] r@[j], self.dir@, types@[j]@),
    {
        let mut acc: Vec<File> = Vec::new();
        let mut j: usize = 0;
        while j < types.len()
            invariant
                j <= types@.len(),
                acc@.len() == j,
                forall|k: int| 0 <= k < j ==> file_wf(#[trigger] acc@[k], self.dir@, types@[k]@),
            decreases types@.len() - j,
        {
            let entry = File::new().setup(&types[j], self);
            acc.push(entry);
            j = j + 1;
        }
        acc
    }

    /// Derives the full layout entry for `folder` under `root`, with one
    /// file per configured type.
    pub fn setup(self, root: &String, types: &Vec<String>, folder: &String) -> (r: Self)
        ensures
            carrier_wf(r, root@, folder@, views_of(types@)),
    {
        let dir = path_join(root.as_str(), folder.as_str());
        let shell = Carrier { dir, folder: folder.clone(), paths: Vec::new() };
        let paths = shell.get_data_paths(types);
        let r = Carrier { dir: shell.dir, folder: shell.folder, paths };
        proof {
            assert(forall|j: int| 0 <= j < types@.len() ==> views_of(types@)[j] == types@[j]@);
        }
        r
    }
}

} // verus!
