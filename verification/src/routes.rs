//! A simpler route table: exact file mappings, and directory mappings
//! that apply only to a path's direct parent, rejoining the file name
//! under the mapped directory.

use crate::path::{
    file_name_of, find_key, list_written, parent_of, spec_file_name, spec_join, spec_parent,
    PathMatch,
};
use vstd::prelude::*;
use vstd::slice::slice_to_vec;

verus! {

/// Exact-file and parent-directory route mappings.
#[derive(Debug)]
pub struct Routes {
    pub dirs: Vec<(Vec<u8>, Vec<u8>)>,
    pub files: Vec<(Vec<u8>, Vec<u8>)>,
}

impl Routes {
    /// What a lookup returns: the exact mapping for the path, else the
    /// mapping of its direct parent with the file name joined on, else
    /// nothing.
    pub open spec fn spec_get(&self, path: Seq<u8>) -> Option<Seq<u8>> {
        let i = find_key(self.files@, path);
        if i >= 0 && i < self.files@.len() {
            Some(self.files@[i].1@)
        } else {
            match spec_parent(path) {
                None => None,
                Some(d) => {
                    let j = find_key(self.dirs@, d);
                    if j >= 0 && j < self.dirs@.len() {
                        Some(spec_join(self.dirs@[j].1@, spec_file_name(path)))
                    } else {
                        None
                    }
                },
            }
        }
    }

    pub fn new() -> (r: Routes)
        ensures
            r.dirs@ == Seq::<(Vec<u8>, Vec<u8>)>::empty(),
            r.files@ == Seq::<(Vec<u8>, Vec<u8>)>::empty(),
    {
        Routes { dirs: Vec::new(), files: Vec::new() }
    }

    /// Add a mapping; where it lands follows the caller's word on
    /// whether the destination is a directory, since the source path
    /// need not exist on disk.
    pub fn add(&mut self, from: Vec<u8>, to: Vec<u8>, to_is_dir: bool)
        ensures
            to_is_dir ==> final(self).files@ == old(self).files@ && list_written(
                old(self).dirs@,
                final(self).dirs@,
                from@,
                to,
            ),
            !to_is_dir ==> final(self).dirs@ == old(self).dirs@ && list_written(
                old(self).files@,
                final(self).files@,
                from@,
                to,
            ),
    {
        if to_is_dir {
            PathMatch::<Vec<u8>>::list_put(&mut self.dirs, from, to);
        } else {
            PathMatch::<Vec<u8>>::list_put(&mut self.files, from, to);
        }
    }

    /// Look a path up, the exact file entry first, then its direct
    /// parent among the directory entries.
    pub fn get(&self, path: &[u8]) -> (r: Option<Vec<u8>>)
        ensures
            r is Some <==> self.spec_get(path@) is Some,
            r is Some ==> r->0@ == self.spec_get(path@)->0,
    {
        match PathMatch::<Vec<u8>>::list_find(&self.files, path) {
            Some(i) => {
                return Some(slice_to_vec(self.files[i].1.as_slice()));
            },
            None => {},
        }
        match parent_of(path) {
            None => None,
            Some(d) => {
                match PathMatch::<Vec<u8>>::list_find(&self.dirs, d.as_slice()) {
                    Some(j) => {
                        let name = file_name_of(path);
                        Some(crate::path::join(self.dirs[j].1.as_slice(), name.as_slice()))
                    },
                    None => None,
                }
            },
        }
    }
}

} // verus!
