//! Modification times as plain values.

use vstd::prelude::*;

verus! {

/// A point in time: seconds and nanoseconds since the Unix epoch.
#[derive(Debug, Clone, Copy, PartialEq, Eq, Structural)]
pub struct FileTime {
    pub secs: u64,
    pub nanos: u32,
}

impl FileTime {
    /// The Unix epoch, which stands for a time that could not be read.
    pub open spec fn epoch() -> FileTime {
        FileTime { secs: 0, nanos: 0 }
    }

    pub fn unix_epoch() -> (r: FileTime)
        ensures
            r == FileTime::epoch(),
    {
        FileTime { secs: 0, nanos: 0 }
    }
}

/// The time that was read, or the epoch when reading failed.
pub open spec fn time_or_epoch(t: Option<FileTime>) -> FileTime {
    match t {
        Some(x) => x,
        None => FileTime::epoch(),
    }
}

/// The modification time to go by when a file's metadata may not be readable.
pub fn get_modtime(read: Option<FileTime>) -> (r: FileTime)
    ensures
        r == time_or_epoch(read),
{
    match read {
        Some(t) => t,
        None => FileTime::unix_epoch(),
    }
}

/// The modification times a rendered page depends on: the document's, the
/// templates' and that of the folder the document lies in.
#[derive(Debug, Clone, Copy, PartialEq, Eq, Structural)]
pub struct Modtimes {
    pub md_modtime: FileTime,
    pub hb_modtime: FileTime,
    pub folder_modtime: FileTime,
}

impl Modtimes {
    /// Gathers the three times; a time that could not be read counts as the
    /// epoch.
    pub fn new(md_modtime: Option<FileTime>, hb_modtime: FileTime, folder_modtime: Option<FileTime>) -> (r:
        Self)
        ensures
            r.md_modtime == time_or_epoch(md_modtime),
            r.hb_modtime == hb_modtime,
            r.folder_modtime == time_or_epoch(folder_modtime),
    {
        Modtimes {
            md_modtime: get_modtime(md_modtime),
            hb_modtime,
            folder_modtime: get_modtime(folder_modtime),
        }
    }
}

} // verus!
