//! Classification of raw filesystem notifications into the events that the
//! library consumes.

use vstd::prelude::*;
use vstd::string::StringExecFns;

verus! {

/// What kind of change a raw notification reports.
#[derive(Debug, Clone, Copy, PartialEq, Eq, Structural)]
pub enum RawEventKind {
    Create,
    Modify,
    Remove,
    /// Anything else: an access, a change of some unknown kind.
    Other,
}

/// A change under the watched folder.
#[derive(Debug)]
pub enum FileEvent {
    Created(String),
    Modified(String),
    Removed(String),
}

/// The mathematical view of a [`FileEvent`].
pub enum FileEventView {
    Created(Seq<char>),
    Modified(Seq<char>),
    Removed(Seq<char>),
}

impl FileEventView {
    /// The path that the event concerns.
    pub open spec fn path(self) -> Seq<char> {
        match self {
            FileEventView::Created(p) => p,
            FileEventView::Modified(p) => p,
            FileEventView::Removed(p) => p,
        }
    }
}

impl View for FileEvent {
    type V = FileEventView;

    open spec fn view(&self) -> FileEventView {
        match *self {
            FileEvent::Created(p) => FileEventView::Created(p@),
            FileEvent::Modified(p) => FileEventView::Modified(p@),
            FileEvent::Removed(p) => FileEventView::Removed(p@),
        }
    }
}

impl Clone for FileEvent {
    fn clone(&self) -> (r: Self)
        ensures
            r@ == self@,
    {
        match self {
            FileEvent::Created(p) => FileEvent::Created(p.clone()),
            FileEvent::Modified(p) => FileEvent::Modified(p.clone()),
            FileEvent::Removed(p) => FileEvent::Removed(p.clone()),
        }
    }
}

/// A path named by a raw notification, and whether a file is there at the
/// moment the notification is processed.
#[derive(Debug)]
pub struct ObservedPath {
    pub path: String,
    pub exists: bool,
}

/// The mathematical view of a [`ObservedPath`].
pub struct ObservedPathView {
    pub path: Seq<char>,
    pub exists: bool,
}

impl View for ObservedPath {
    type V = ObservedPathView;

    open spec fn view(&self) -> ObservedPathView {
        ObservedPathView { path: self.path@, exists: self.exists }
    }
}

/// The views of a sequence of observed paths, in order.
pub open spec fn observed_views(paths: Seq<ObservedPath>) -> Seq<ObservedPathView> {
    Seq::new(paths.len(), |i: int| paths[i]@)
}

/// The views of a sequence of events, in order.
pub open spec fn event_views(events: Seq<FileEvent>) -> Seq<FileEventView> {
    Seq::new(events.len(), |i: int| events[i]@)
}

/// The event that a raw notification stands for. A creation of a file that
/// is gone again is no event; a modification of a file that is gone is a
/// removal; a removal is always a removal; other notifications are no
/// events.
pub open spec fn classified(kind: RawEventKind, path: Seq<char>, exists: bool) -> Option<
    FileEventView,
> {
    match kind {
        RawEventKind::Create => if exists {
            Some(FileEventView::Created(path))
        } else {
            None
        },
        RawEventKind::Modify => if exists {
            Some(FileEventView::Modified(path))
        } else {
            Some(FileEventView::Removed(path))
        },
        RawEventKind::Remove => Some(FileEventView::Removed(path)),
        RawEventKind::Other => None,
    }
}

/// The events that a raw notification of several paths stands for: those of
/// its paths, in the order of the paths.
pub open spec fn classified_all(kind: RawEventKind, paths: Seq<ObservedPathView>) -> Seq<
    FileEventView,
>
    decreases paths.len(),
{
    if paths.len() == 0 {
        Seq::empty()
    } else {
        let earlier = classified_all(kind, paths.drop_last());
        match classified(kind, paths.last().path, paths.last().exists) {
            Some(event) => earlier.push(event),
            None => earlier,
        }
    }
}

impl FileEvent {
    /// The path that the event concerns.
    pub fn path(&self) -> (r: &String)
        ensures
            r@ == self@.path(),
    {
        match self {
            FileEvent::Created(p) => p,
            FileEvent::Modified(p) => p,
            FileEvent::Removed(p) => p,
        }
    }

    /// Classifies one raw notification about one path. `exists` says whether
    /// a file is at the path now.
    pub fn from_raw(kind: RawEventKind, path: &str, exists: bool) -> (r: Option<FileEvent>)
        ensures
            match r {
                Some(event) => classified(kind, path@, exists) == Some(event@),
                None => classified(kind, path@, exists) is None,
            },
    {
        match kind {
            RawEventKind::Create => {
                if exists {
                    Some(FileEvent::Created(String::from_str(path)))
                } else {
                    None
                }
            },
            RawEventKind::Modify => {
                if exists {
                    Some(FileEvent::Modified(String::from_str(path)))
                } else {
                    Some(FileEvent::Removed(String::from_str(path)))
                }
            },
            RawEventKind::Remove => Some(FileEvent::Removed(String::from_str(path))),
            RawEventKind::Other => None,
        }
    }

    /// Classifies one raw notification about several paths, keeping the
    /// order of the paths.
    pub fn from_raw_paths(kind: RawEventKind, paths: &Vec<ObservedPath>) -> (r: Vec<FileEvent>)
        ensures
            event_views(r@) == classified_all(kind, observed_views(paths@)),
    {
        let ghost all = observed_views(paths@);
        let mut out: Vec<FileEvent> = Vec::new();
        let mut i: usize = 0;
        while i < paths.len()
            invariant
                i <= paths.len(),
                all == observed_views(paths@),
                event_views(out@) == classified_all(kind, all.take(i as int)),
            decreases paths.len() - i,
        {
            assert(all.take(i + 1).drop_last() == all.take(i as int));
            assert(all.take(i + 1).last() == paths@[i as int]@);
            let ghost earlier = event_views(out@);
            match FileEvent::from_raw(kind, paths[i].path.as_str(), paths[i].exists) {
                Some(event) => {
                    out.push(event);
                    assert(event_views(out@) =~= earlier.push(event@));
                },
                None => {},
            }
            i += 1;
        }
        assert(all.take(paths.len() as int) == all);
        out
    }
}

/// A modification of a file that is gone by the time it is processed counts
/// as a removal, never as a modification; a creation of such a file counts
/// for nothing; a removal always counts.
pub proof fn lemma_gone_file_is_removed(path: Seq<char>, exists: bool)
    ensures
        classified(RawEventKind::Modify, path, false) == Some(FileEventView::Removed(path)),
        classified(RawEventKind::Create, path, false) is None,
        classified(RawEventKind::Remove, path, exists) == Some(FileEventView::Removed(path)),
{
}

} // verus!
