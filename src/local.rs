use vstd::prelude::*;

verus! {

/// A local file as the user selected or produced it: its path, its display name and its
/// size in bytes when the reference was made (a snapshot, not checked again).
#[derive(Debug, Clone, PartialEq, Eq)]
pub struct FileDetail {
    pub path: String,
    pub name: String,
    pub size: u64,
}

impl FileDetail {
    /// The reference that stands for "no file": empty path and name, size zero.
    pub fn default() -> (r: Self)
        ensures
            r.path@ == Seq::<char>::empty(),
            r.name@ == Seq::<char>::empty(),
            r.size == 0,
    {
        FileDetail { path: String::new(), name: String::new(), size: 0 }
    }
}

} // verus!
