//! Feed sources and the registry that holds them.

use vstd::prelude::*;
use crate::error::Error;

verus! {

/// The kind of media a source yields.
#[derive(Debug, Clone, Copy, PartialEq, Eq, Structural)]
pub enum SourceType {
    Video,
    Audio,
}

/// A feed to watch: its address and the kind of media found there.
#[derive(Debug)]
pub struct Source {
    pub url: String,
    pub kind: SourceType,
}

impl Clone for Source {
    fn clone(&self) -> (copy: Self)
        ensures
            copy == *self,
    {
        Source { url: self.url.clone(), kind: self.kind }
    }
}

/// The list of sources as it was last loaded or set, the file it is kept
/// in, and a flag that is raised whenever the list is replaced.
pub struct Sources {
    path: String,
    sources: Vec<Source>,
    changed: bool,
}

impl Sources {
    /// The file the list is kept in.
    pub closed spec fn path_of(&self) -> Seq<char> {
        self.path@
    }

    /// The sources, in the order of the file.
    pub closed spec fn list(&self) -> Seq<Source> {
        self.sources@
    }

    /// Whether the list was replaced since the flag was last read.
    pub closed spec fn is_changed(&self) -> bool {
        self.changed
    }

    /// Starts the registry from what was read at `path`. A list that could
    /// not be read yields no registry.
    pub fn load(path: String, loaded: Result<Vec<Source>, Error>) -> (registry: Result<
        Sources,
        Error,
    >)
        ensures
            loaded matches Ok(list) ==> (registry matches Ok(r) && r.list() == list@ && r.path_of()
                == path@ && !r.is_changed()),
            loaded matches Err(e) ==> registry matches Err(f) && f == e,
    {
        match loaded {
            Ok(sources) => Ok(Sources { path, sources, changed: false }),
            Err(e) => Err(e),
        }
    }

    /// Takes over what was read again from the file. A list that could not
    /// be read changes nothing: the earlier list stays, and so does the flag.
    pub fn reload(&mut self, loaded: Result<Vec<Source>, Error>) -> (done: Result<(), Error>)
        ensures
            final(self).path_of() == old(self).path_of(),
            loaded matches Ok(list) ==> {
                &&& done is Ok
                &&& final(self).list() == list@
                &&& final(self).is_changed()
            },
            loaded matches Err(e) ==> {
                &&& done matches Err(f) && f == e
                &&& final(self).list() == old(self).list()
                &&& final(self).is_changed() == old(self).is_changed()
            },
    {
        match loaded {
            Ok(sources) => {
                self.sources = sources;
                self.changed = true;
                Ok(())
            },
            Err(e) => Err(e),
        }
    }

    /// A copy of the current list.
    pub fn get(&self) -> (list: Vec<Source>)
        ensures
            list@ == self.list(),
    {
        let mut list: Vec<Source> = Vec::new();
        let mut i: usize = 0;
        while i < self.sources.len()
            invariant
                i <= self.sources.len(),
                list@ == self.sources@.take(i as int),
            decreases self.sources.len() - i,
        {
            list.push(self.sources[i].clone());
            i += 1;
        }
        list
    }

    /// Replaces the list by `sources`, if it could be written to the file;
    /// `saved` tells whether it could. A list that was written takes the
    /// place of the earlier one and raises the flag. A list that could not
    /// be written changes nothing: the earlier list stays, and so does the
    /// flag.
    pub fn set(&mut self, sources: Vec<Source>, saved: Result<(), Error>) -> (done: Result<
        (),
        Error,
    >)
        ensures
            final(self).path_of() == old(self).path_of(),
            saved is Ok ==> {
                &&& done is Ok
                &&& final(self).list() == sources@
                &&& final(self).is_changed()
            },
            saved matches Err(e) ==> {
                &&& done matches Err(f) && f == e
                &&& final(self).list() == old(self).list()
                &&& final(self).is_changed() == old(self).is_changed()
            },
    {
        match saved {
            Ok(()) => {
                self.sources = sources;
                self.changed = true;
                Ok(())
            },
            Err(e) => Err(e),
        }
    }

    /// Reads the flag and lowers it: a change is reported once.
    pub fn changed(&mut self) -> (was_changed: bool)
        ensures
            was_changed == old(self).is_changed(),
            !final(self).is_changed(),
            final(self).list() == old(self).list(),
            final(self).path_of() == old(self).path_of(),
    {
        if self.changed {
            self.changed = false;
            return true;
        }
        false
    }

    /// The file the list is kept in.
    pub fn path(&self) -> (path: &String)
        ensures
            path@ == self.path_of(),
    {
        &self.path
    }
}

} // verus!
