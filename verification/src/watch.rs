//! File events: what a watcher reports, and which files it is worth reading.

use vstd::prelude::*;
use vstd::string::StringExecFns;
use crate::extract::{detect_language, language_of};
use crate::changes::pick;
use crate::text::same_text;

verus! {

/// What happened to a file.
#[derive(Debug)]
pub enum FileEventType {
    Created,
    Modified,
    Deleted,
    Renamed { from: String, to: String },
}

/// The mathematical value of a [`FileEventType`].
pub enum FileEventKind {
    Created,
    Modified,
    Deleted,
    Renamed { from: Seq<char>, to: Seq<char> },
}

impl View for FileEventType {
    type V = FileEventKind;

    open spec fn view(&self) -> FileEventKind {
        match self {
            FileEventType::Created => FileEventKind::Created,
            FileEventType::Modified => FileEventKind::Modified,
            FileEventType::Deleted => FileEventKind::Deleted,
            FileEventType::Renamed { from, to } => FileEventKind::Renamed { from: from@, to: to@ },
        }
    }
}

/// One event of one file.
#[derive(Debug)]
pub struct FileEvent {
    pub path: String,
    pub event_type: FileEventType,
}

/// The mathematical value of a [`FileEvent`].
pub struct FileEventView {
    pub path: Seq<char>,
    pub event_type: FileEventKind,
}

impl View for FileEvent {
    type V = FileEventView;

    open spec fn view(&self) -> FileEventView {
        FileEventView { path: self.path@, event_type: self.event_type@ }
    }
}

/// The values of a list of file events.
pub open spec fn file_event_views(s: Seq<FileEvent>) -> Seq<FileEventView> {
    Seq::new(s.len(), |i: int| s[i]@)
}

/// The kinds of raw events that a watcher reports.
#[derive(Debug, Clone, Copy, PartialEq, Eq, Structural)]
pub enum WatchEventKind {
    Any,
    Access,
    Create,
    Modify,
    Remove,
    Other,
}

/// A raw event of a watcher: its kind and the paths it concerns.
#[derive(Debug)]
pub struct WatchEvent {
    pub kind: WatchEventKind,
    pub paths: Vec<String>,
}

/// The values of a list of paths.
pub open spec fn path_views(s: Seq<String>) -> Seq<Seq<char>> {
    Seq::new(s.len(), |i: int| s[i]@)
}

/// One event of the given kind for every path.
pub open spec fn event_per_path(paths: Seq<Seq<char>>, kind: FileEventKind) -> Seq<FileEventView> {
    Seq::new(paths.len(), |i: int| FileEventView { path: paths[i], event_type: kind })
}

/// The file events that a raw event stands for. Reads are of no interest.
/// An event of another kind with exactly two paths is a rename from the
/// first to the second; any event that cannot be told apart counts as a
/// modification of each of its paths.
pub open spec fn file_events_of(kind: WatchEventKind, paths: Seq<Seq<char>>) -> Seq<FileEventView> {
    match kind {
        WatchEventKind::Create => event_per_path(paths, FileEventKind::Created),
        WatchEventKind::Modify => event_per_path(paths, FileEventKind::Modified),
        WatchEventKind::Remove => event_per_path(paths, FileEventKind::Deleted),
        WatchEventKind::Access => Seq::empty(),
        WatchEventKind::Any => event_per_path(paths, FileEventKind::Modified),
        WatchEventKind::Other => if paths.len() == 2 {
            seq![
                FileEventView {
                    path: paths[1],
                    event_type: FileEventKind::Renamed { from: paths[0], to: paths[1] },
                },
            ]
        } else {
            event_per_path(paths, FileEventKind::Modified)
        },
    }
}

/// What a raw event of this kind does to each of its paths, where it is no
/// rename.
pub open spec fn plain_kind(kind: WatchEventKind) -> FileEventKind {
    match kind {
        WatchEventKind::Create => FileEventKind::Created,
        WatchEventKind::Remove => FileEventKind::Deleted,
        _ => FileEventKind::Modified,
    }
}

fn plain_event_type(kind: WatchEventKind) -> (out: FileEventType)
    ensures
        out@ == plain_kind(kind),
{
    match kind {
        WatchEventKind::Create => FileEventType::Created,
        WatchEventKind::Remove => FileEventType::Deleted,
        _ => FileEventType::Modified,
    }
}

/// Turns a raw event of a watcher into file events.
pub fn convert_notify_event(event: WatchEvent) -> (out: Vec<FileEvent>)
    ensures
        file_event_views(out@) == file_events_of(event.kind, path_views(event.paths@)),
{
    let mut out: Vec<FileEvent> = Vec::new();
    let ghost paths = path_views(event.paths@);
    match event.kind {
        WatchEventKind::Access => {
            assert(file_event_views(out@) =~= Seq::empty());
            out
        },
        WatchEventKind::Other if event.paths.len() == 2 => {
            let renamed = FileEvent {
                path: event.paths[1].clone(),
                event_type: FileEventType::Renamed {
                    from: event.paths[0].clone(),
                    to: event.paths[1].clone(),
                },
            };
            out.push(renamed);
            assert(file_event_views(out@) =~= seq![renamed@]);
            assert(paths[0] == event.paths[0]@ && paths[1] == event.paths[1]@);
            out
        },
        kind => {
            let ghost target = plain_kind(kind);
            let mut i: usize = 0;
            while i < event.paths.len()
                invariant
                    i <= event.paths.len(),
                    out.len() == i,
                    paths == path_views(event.paths@),
                    target == plain_kind(kind),
                    forall|k: int|
                        0 <= k < i ==> (#[trigger] out[k])@ == (FileEventView {
                            path: paths[k],
                            event_type: target,
                        }),
                decreases event.paths.len() - i,
            {
                out.push(
                    FileEvent { path: event.paths[i].clone(), event_type: plain_event_type(kind) },
                );
                i += 1;
            }
            assert(file_event_views(out@) =~= event_per_path(paths, target));
            out
        },
    }
}

/// The file that has to be read again after an event: the created or
/// modified file, or the new name of a renamed one, where its language is
/// known. A deleted file is not read.
pub open spec fn path_to_read(event: FileEventView) -> Option<Seq<char>> {
    match event.event_type {
        FileEventKind::Created | FileEventKind::Modified => if language_of(event.path) is Some {
            Some(event.path)
        } else {
            None
        },
        FileEventKind::Deleted => None,
        FileEventKind::Renamed { to, .. } => if language_of(to) is Some {
            Some(to)
        } else {
            None
        },
    }
}

/// Whether the language of a file is known from its path.
pub fn should_parse_file(path: &str) -> (out: bool)
    ensures
        out == (language_of(path@) is Some),
{
    detect_language(path).is_some()
}

impl FileEvent {
    /// The file that has to be read again after this event.
    pub fn file_to_read(&self) -> (out: Option<&str>)
        ensures
            match out {
                Some(path) => path_to_read(self@) == Some(path@),
                None => path_to_read(self@) is None,
            },
    {
        match &self.event_type {
            FileEventType::Created | FileEventType::Modified => {
                if should_parse_file(self.path.as_str()) {
                    Some(self.path.as_str())
                } else {
                    None
                }
            },
            FileEventType::Deleted => None,
            FileEventType::Renamed { to, .. } => {
                if should_parse_file(to.as_str()) {
                    Some(to.as_str())
                } else {
                    None
                }
            },
        }
    }
}

/// Whether a directory of this name is left out when a project is walked:
/// dependencies, build output and the tool's own data.
pub open spec fn skipped_directory(name: Seq<char>) -> bool {
    name == "node_modules"@ || name == ".git"@ || name == ".pinpath"@ || name == "target"@ || name
        == "dist"@ || name == "build"@
}

/// Whether a directory of this name is left out when a project is walked.
pub fn is_skipped_directory(name: &str) -> (out: bool)
    ensures
        out == skipped_directory(name@),
{
    same_text(name, "node_modules") || same_text(name, ".git") || same_text(name, ".pinpath")
        || same_text(name, "target") || same_text(name, "dist") || same_text(name, "build")
}

/// Whether an entry of a walk is visited: every file, and every directory
/// that is not left out.
pub fn should_visit(name: &str, is_directory: bool) -> (out: bool)
    ensures
        out == !(is_directory && skipped_directory(name@)),
{
    !(is_directory && is_skipped_directory(name))
}

/// One active watch: its handle and the directory it watches.
#[derive(Debug)]
pub struct Watch {
    pub id: String,
    pub path: String,
}

/// The mathematical value of a [`Watch`].
pub struct WatchView {
    pub id: Seq<char>,
    pub path: Seq<char>,
}

impl View for Watch {
    type V = WatchView;

    open spec fn view(&self) -> WatchView {
        WatchView { id: self.id@, path: self.path@ }
    }
}

/// The values of a list of watches.
pub open spec fn watch_views(s: Seq<Watch>) -> Seq<WatchView> {
    Seq::new(s.len(), |i: int| s[i]@)
}

/// The handle under which a directory is watched.
pub open spec fn watch_id(path: Seq<char>) -> Seq<char> {
    "watch:"@ + path
}

/// Whether the list holds a watch with the handle `id`.
pub open spec fn is_watched(watches: Seq<WatchView>, id: Seq<char>) -> bool {
    exists|i: int| 0 <= i < watches.len() && (#[trigger] watches[i]).id == id
}

/// The watches with another handle than `id`, in order.
pub open spec fn without_watch(watches: Seq<WatchView>, id: Seq<char>) -> Seq<WatchView> {
    pick(watches, |i: int| watches[i].id != id, watches.len() as int)
}

/// The active watches of a process. Whoever owns the registry owns the
/// watches; there is no other record of them.
#[derive(Debug)]
pub struct WatcherRegistry {
    watches: Vec<Watch>,
}

impl View for WatcherRegistry {
    type V = Seq<WatchView>;

    closed spec fn view(&self) -> Seq<WatchView> {
        watch_views(self.watches@)
    }
}

impl WatcherRegistry {
    /// A registry without watches.
    pub fn new() -> (out: WatcherRegistry)
        ensures
            out@ == Seq::<WatchView>::empty(),
    {
        let out = WatcherRegistry { watches: Vec::new() };
        assert(out@ =~= Seq::<WatchView>::empty());
        out
    }

    /// The active watches, oldest first.
    pub fn watches(&self) -> (out: &Vec<Watch>)
        ensures
            watch_views(out@) == self@,
    {
        &self.watches
    }

    /// Whether a watch with this handle is active.
    pub fn is_watching(&self, id: &str) -> (out: bool)
        ensures
            out == is_watched(self@, id@),
    {
        let mut i: usize = 0;
        while i < self.watches.len()
            invariant
                i <= self.watches.len(),
                forall|k: int| 0 <= k < i ==> (#[trigger] self@[k]).id != id@,
            decreases self.watches.len() - i,
        {
            assert(self@[i as int] == self.watches[i as int]@);
            if same_text(self.watches[i].id.as_str(), id) {
                return true;
            }
            i += 1;
        }
        false
    }

    /// Ends the watch with the handle `id` and tells whether there was one.
    pub fn stop_watching(&mut self, id: &str) -> (out: bool)
        ensures
            out == is_watched(old(self)@, id@),
            final(self)@ == without_watch(old(self)@, id@),
    {
        let ghost before = self@;
        let ghost others = |i: int| before[i].id != id@;
        let mut kept: Vec<Watch> = Vec::new();
        let mut found = false;
        let mut i: usize = 0;
        assert(watch_views(kept@) =~= pick(before, others, 0));
        while i < self.watches.len()
            invariant
                i <= self.watches.len(),
                self@ == before,
                others == |i: int| before[i].id != id@,
                watch_views(kept@) == pick(before, others, i as int),
                found == exists|k: int| 0 <= k < i && (#[trigger] before[k]).id == id@,
            decreases self.watches.len() - i,
        {
            let ghost so_far = watch_views(kept@);
            assert(before[i as int] == self.watches[i as int]@);
            if same_text(self.watches[i].id.as_str(), id) {
                found = true;
            } else {
                let watch = Watch {
                    id: self.watches[i].id.clone(),
                    path: self.watches[i].path.clone(),
                };
                kept.push(watch);
                assert(watch_views(kept@) =~= so_far.push(before[i as int]));
            }
            i += 1;
        }
        self.watches = kept;
        found
    }

    /// Starts to watch the directory `path` and returns the handle of the
    /// watch. A watch that was active for the directory is replaced.
    pub fn start_watching(&mut self, path: &str) -> (out: String)
        ensures
            out@ == watch_id(path@),
            final(self)@ == without_watch(old(self)@, watch_id(path@)).push(
                WatchView { id: watch_id(path@), path: path@ },
            ),
    {
        let mut id = String::from_str("watch:");
        id.append(path);
        self.stop_watching(id.as_str());
        let ghost kept = self@;
        let watch = Watch { id: id.clone(), path: path.to_owned() };
        self.watches.push(watch);
        assert(self@ =~= kept.push(watch@));
        id
    }
}

} // verus!
