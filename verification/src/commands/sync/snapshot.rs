//! The local snapshot: the save files that lie under a game's declared paths.
//!
//! The walk over the file system is driven from outside. The walk names a path
//! to look at; the caller looks and tells the walk what is there; the walk
//! records it and names the next path. The walk keeps an explicit stack of the
//! paths still to look at, so its depth does not depend on the depth of the
//! tree.

use vstd::prelude::*;
use vstd::string::*;
use crate::commands::sync::{
    local_key, ResolvedSaveFile, ResolvedSaveFileView, ResolvedSaveFiles, SyncError,
};
use crate::commands::sync::transfer::entry_views;
use crate::games::definition::GameDefinition;
use crate::games::manifest::GameSaveFileMetadata;
use crate::games::paths::{
    normal_path, option_text, resolution, rewrite_path, PathErrorKind,
};
use crate::utils::paths::{relative_join, relative_joined, relative_to_path};
use crate::utils::string_map::StringMap;

verus! {

/// What the caller found at a path.
#[derive(Debug)]
pub enum LocalEntry {
    /// Nothing is there.
    Missing,
    /// A file, with its metadata.
    File { metadata: GameSaveFileMetadata },
    /// A directory, with the names of the entries directly inside it.
    Directory { children: Vec<String> },
    /// Something that is neither a file nor a directory.
    Other,
}

/// What an observation says.
pub enum LocalEntryView {
    Missing,
    File { metadata: GameSaveFileMetadata },
    Directory { children: Seq<Seq<char>> },
    Other,
}

impl View for LocalEntry {
    type V = LocalEntryView;

    open spec fn view(&self) -> LocalEntryView {
        match self {
            LocalEntry::Missing => LocalEntryView::Missing,
            LocalEntry::File { metadata } => LocalEntryView::File { metadata: *metadata },
            LocalEntry::Directory { children } => LocalEntryView::Directory {
                children: Seq::new(children.len() as nat, |i: int| children@[i]@),
            },
            LocalEntry::Other => LocalEntryView::Other,
        }
    }
}

/// A path still to look at: the local path and the path relative to the
/// resolved declared path it was reached from.
pub struct PendingPath {
    path: String,
    file: String,
}

/// What a pending path says.
pub struct PendingView {
    pub path: Seq<char>,
    pub file: Seq<char>,
}

impl View for PendingPath {
    type V = PendingView;

    closed spec fn view(&self) -> PendingView {
        PendingView { path: self.path@, file: self.file@ }
    }
}

/// A walk over the declared paths of a game.
pub struct LocalWalk {
    declared: Vec<String>,
    home: Option<String>,
    started: usize,
    current: String,
    root: String,
    pending: Vec<PendingPath>,
    probing: Option<PendingPath>,
    files: ResolvedSaveFiles,
}

/// The state of a walk.
pub struct WalkView {
    /// The declared paths of the game.
    pub declared: Seq<Seq<char>>,
    /// The home directory, if one is known.
    pub home: Option<Seq<char>>,
    /// How many declared paths the walk has begun.
    pub started: nat,
    /// The declared path the walk is in.
    pub current: Seq<char>,
    /// The resolved form of that declared path.
    pub root: Seq<char>,
    /// The stack of paths still to look at; the last is next.
    pub pending: Seq<PendingView>,
    /// The path the caller was asked to look at, until the caller has answered.
    pub probing: Option<PendingView>,
    /// The local paths of the files recorded so far, in the order of recording.
    pub keys: Seq<Seq<char>>,
    /// The files recorded so far, each at the place of its local path.
    pub entries: Seq<ResolvedSaveFileView>,
}

/// The pending paths for the entries of a directory that was reached as `file`
/// under `root`.
pub open spec fn children_of(root: Seq<char>, file: Seq<char>, names: Seq<Seq<char>>) -> Seq<
    PendingView,
> {
    Seq::new(
        names.len(),
        |i: int|
            PendingView {
                path: local_key(root, relative_joined(file, names[i])),
                file: relative_joined(file, names[i]),
            },
    )
}

/// The state after the caller has told what is at the path it was asked to look
/// at, or the path at which something unsupported was found. A missing path
/// adds nothing; a file is recorded; the entries of a directory are put on the
/// stack.
pub open spec fn absorbed(s: WalkView, observed: LocalEntryView) -> Result<WalkView, Seq<char>> {
    match s.probing {
        None => Ok(s),
        Some(p) => match observed {
            LocalEntryView::Missing => Ok(WalkView { probing: None, ..s }),
            LocalEntryView::Other => Err(p.path),
            LocalEntryView::File { metadata } => Ok(
                WalkView {
                    probing: None,
                    keys: s.keys.push(p.path),
                    entries: s.entries.push(
                        ResolvedSaveFileView { path: s.current, file: p.file, metadata: metadata },
                    ),
                    ..s
                },
            ),
            LocalEntryView::Directory { children } => Ok(
                WalkView {
                    probing: None,
                    pending: s.pending + children_of(s.root, p.file, children),
                    ..s
                },
            ),
        },
    }
}

/// What choosing the next path to look at gives.
pub enum Selection {
    /// The caller is to look at the path of `state.probing`.
    Probe { state: WalkView },
    /// The walk is finished.
    Finished { state: WalkView },
    /// A declared path could not be resolved.
    Unresolved { path: Seq<char>, kind: PathErrorKind },
}

/// The next path to look at. Paths on the stack that are already recorded are
/// skipped. When the stack is empty the next declared path is resolved and
/// becomes the only path on the stack. The walk is finished when the stack is
/// empty and no declared path is left.
pub open spec fn selected(s: WalkView) -> Selection
    decreases s.declared.len() - s.started, s.pending.len(),
{
    if s.pending.len() > 0 {
        let p = s.pending.last();
        let rest = WalkView { pending: s.pending.drop_last(), ..s };
        if s.keys.contains(p.path) {
            selected(rest)
        } else {
            Selection::Probe { state: WalkView { probing: Some(p), ..rest } }
        }
    } else if s.started < s.declared.len() {
        let declared = s.declared[s.started as int];
        match resolution(declared, s.home) {
            Err(kind) => Selection::Unresolved { path: declared, kind: kind },
            Ok(root) => selected(
                WalkView {
                    started: s.started + 1,
                    current: declared,
                    root: root,
                    pending: seq![
                        PendingView { path: local_key(root, Seq::<char>::empty()), file: Seq::<char>::empty() },
                    ],
                    ..s
                },
            ),
        }
    } else {
        Selection::Finished { state: s }
    }
}

/// Whether every file of a collection lies where its declared path and its
/// relative path say: its declared path resolves, and its local path is the
/// local path of its relative path under the resolved declared path.
pub open spec fn located(
    keys: Seq<Seq<char>>,
    entries: Seq<ResolvedSaveFileView>,
    home: Option<Seq<char>>,
) -> bool {
    &&& keys.len() == entries.len()
    &&& forall|i: int|
        0 <= i < keys.len() ==> resolution((#[trigger] entries[i]).path, home) is Ok && keys[i]
            == local_key(resolution(entries[i].path, home)->Ok_0, entries[i].file)
}

impl View for LocalWalk {
    type V = WalkView;

    closed spec fn view(&self) -> WalkView {
        WalkView {
            declared: Seq::new(self.declared.len() as nat, |i: int| self.declared@[i]@),
            home: match self.home {
                Some(h) => Some(h@),
                None => None,
            },
            started: self.started as nat,
            current: self.current@,
            root: self.root@,
            pending: Seq::new(self.pending.len() as nat, |i: int| self.pending@[i]@),
            probing: match self.probing {
                Some(p) => Some(p@),
                None => None,
            },
            keys: self.files.order(),
            entries: entry_views(self.files),
        }
    }
}

impl LocalWalk {
    /// What holds of every walk: the recorded files are distinct and lie where
    /// their declared and relative paths say, and so does every path still to
    /// look at.
    pub closed spec fn wf(&self) -> bool {
        let s = self@;
        &&& self.files.wf()
        &&& s.started <= s.declared.len()
        &&& located(s.keys, s.entries, s.home)
        &&& (s.pending.len() > 0 || s.probing is Some) ==> resolution(s.current, s.home) == Ok::<
            Seq<char>,
            PathErrorKind,
        >(s.root)
        &&& forall|i: int|
            0 <= i < s.pending.len() ==> (#[trigger] s.pending[i]).path == local_key(
                s.root,
                s.pending[i].file,
            )
        &&& s.probing matches Some(p) ==> p.path == local_key(s.root, p.file) && !s.keys.contains(
            p.path,
        )
    }

    /// What a well-formed walk guarantees of its state.
    pub proof fn lemma_wf(&self)
        requires
            self.wf(),
        ensures
            self@.started <= self@.declared.len(),
            self@.keys.no_duplicates(),
            located(self@.keys, self@.entries, self@.home),
    {
        self.files.lemma_wf();
    }

    /// A walk over the declared paths of `definition` that has not begun.
    pub fn new(definition: &GameDefinition, home: Option<&str>) -> (walk: LocalWalk)
        ensures
            walk.wf(),
            walk@ == (WalkView {
                declared: definition@.paths,
                home: option_text(home),
                started: 0,
                current: Seq::<char>::empty(),
                root: Seq::<char>::empty(),
                pending: Seq::<PendingView>::empty(),
                probing: None,
                keys: Seq::<Seq<char>>::empty(),
                entries: Seq::<ResolvedSaveFileView>::empty(),
            }),
    {
        let mut declared: Vec<String> = Vec::new();
        let mut i: usize = 0;
        while i < definition.paths.len()
            invariant
                i <= definition.paths.len(),
                declared.len() == i,
                forall|j: int| 0 <= j < i ==> declared@[j]@ == definition.paths@[j]@,
            decreases definition.paths.len() - i,
        {
            declared.push(definition.paths[i].path.clone());
            i += 1;
        }
        let home_text: Option<String> = match home {
            Some(h) => Some(String::from_str(h)),
            None => None,
        };
        let walk = LocalWalk {
            declared,
            home: home_text,
            started: 0,
            current: String::new(),
            root: String::new(),
            pending: Vec::new(),
            probing: None,
            files: StringMap::new(),
        };
        assert(walk@.declared =~= definition@.paths);
        assert(walk@.pending =~= Seq::<PendingView>::empty());
        assert(walk@.entries =~= Seq::<ResolvedSaveFileView>::empty());
        walk
    }

    /// Takes the caller's observation of the path it was last asked to look at
    /// and names the next path to look at, or `None` when the walk is
    /// finished. The first call, and a call while nothing was asked, pass
    /// `None`; an observation that nothing asked for is disregarded, and a
    /// path that was asked about and not answered counts as missing.
    ///
    /// Fails when the observation is neither a file nor a directory, and when
    /// the next declared path cannot be resolved.
    pub fn advance(&mut self, observed: Option<LocalEntry>) -> (r: Result<Option<String>, SyncError>)
        requires
            old(self).wf(),
        ensures
            final(self).wf(),
            match absorbed(old(self)@, observation(observed)) {
                Err(path) => r matches Err(SyncError::UnsupportedEntry { path: p }) && p@ == path
                    && final(self)@ == old(self)@,
                Ok(taken) => match selected(taken) {
                    Selection::Probe { state } => r matches Ok(Some(p)) && state.probing matches Some(
                        q,
                    ) && p@ == q.path && final(self)@ == state,
                    Selection::Finished { state } => r matches Ok(None) && final(self)@ == state,
                    Selection::Unresolved { path, kind } => r matches Err(SyncError::Path(e))
                        && e.path@ == path && e.kind == kind,
                },
            },
    {
        let ghost outcome = absorbed(old(self)@, observation(observed));
        let probing = self.probing.take();
        match probing {
            None => {},
            Some(p) => {
                let entry = match observed {
                    Some(entry) => entry,
                    None => LocalEntry::Missing,
                };
                match entry {
                    LocalEntry::Missing => {},
                    LocalEntry::Other => {
                        let path = p.path.clone();
                        self.probing = Some(p);
                        return Err(SyncError::UnsupportedEntry { path });
                    },
                    LocalEntry::File { metadata } => {
                        let ghost before = *self;
                        proof {
                            self.files.lemma_wf();
                        }
                        self.files.insert(
                            p.path,
                            ResolvedSaveFile { path: self.current.clone(), file: p.file, metadata },
                        );
                        proof {
                            assert(self@.entries =~= before@.entries.push(
                                ResolvedSaveFileView {
                                    path: before@.current,
                                    file: p@.file,
                                    metadata: metadata,
                                },
                            ));
                        }
                    },
                    LocalEntry::Directory { children } => {
                        let ghost before = *self;
                        let ghost names = Seq::new(children.len() as nat, |i: int| children@[i]@);
                        let mut i: usize = 0;
                        while i < children.len()
                            invariant
                                i <= children.len(),
                                names == Seq::new(children.len() as nat, |i: int| children@[i]@),
                                self.declared == before.declared,
                                self.home == before.home,
                                self.started == before.started,
                                self.current == before.current,
                                self.root == before.root,
                                self.probing == before.probing,
                                self.files == before.files,
                                self@.pending == before@.pending + children_of(
                                    before@.root,
                                    p@.file,
                                    names,
                                ).subrange(0, i as int),
                            decreases children.len() - i,
                        {
                            let file = relative_join(p.file.as_str(), children[i].as_str());
                            let located = relative_to_path(file.as_str(), self.root.as_str());
                            let path = normal_path(located.as_str());
                            let ghost pending_before = self@.pending;
                            let item = PendingPath { path, file };
                            assert(item@ == children_of(before@.root, p@.file, names)[i as int]);
                            self.pending.push(item);
                            assert(self@.pending =~= pending_before.push(item@));
                            i += 1;
                        }
                        assert(children_of(before@.root, p@.file, names).subrange(
                            0,
                            children.len() as int,
                        ) =~= children_of(before@.root, p@.file, names));
                    },
                }
            },
        }
        let ghost taken = self@;
        assert(outcome == Ok::<WalkView, Seq<char>>(taken));
        loop
            invariant
                outcome == absorbed(old(self)@, observation(observed)),
                outcome == Ok::<WalkView, Seq<char>>(taken),
                self.wf(),
                self.probing is None,
                selected(self@) == selected(taken),
            decreases self@.declared.len() - self@.started, self@.pending.len(),
        {
            let ghost s = self@;
            match self.pending.pop() {
                Some(p) => {
                    assert(self@.pending =~= s.pending.drop_last());
                    assert(p@ == s.pending.last());
                    let recorded = self.files.contains_key(p.path.as_str());
                    proof {
                        self.files.lemma_wf();
                    }
                    if !recorded {
                        let path = p.path.clone();
                        self.probing = Some(p);
                        proof {
                            let rest = WalkView { pending: s.pending.drop_last(), ..s };
                            assert(!s.keys.contains(p@.path));
                            assert(self@ == WalkView { probing: Some(p@), ..rest });
                            assert(selected(s) == Selection::Probe { state: self@ });
                            assert(self.wf());
                        }
                        return Ok(Some(path));
                    } else {
                        proof {
                            let rest = WalkView { pending: s.pending.drop_last(), ..s };
                            assert(s.keys.contains(p@.path));
                            assert(self@ == rest);
                            assert(selected(s) == selected(rest));
                        }
                    }
                },
                None => {
                    assert(s.pending.len() == 0);
                    if self.started < self.declared.len() {
                        let declared = self.declared[self.started].clone();
                        let home: Option<&str> = match &self.home {
                            Some(h) => Some(h.as_str()),
                            None => None,
                        };
                        let root = match rewrite_path(declared.as_str(), home) {
                            Ok(root) => root,
                            Err(e) => {
                                proof {
                                    assert(s.declared[s.started as int] == declared@);
                                    assert(option_text(home) == s.home);
                                    assert(selected(s) == Selection::Unresolved {
                                        path: declared@,
                                        kind: e.kind,
                                    });
                                }
                                return Err(SyncError::Path(e));
                            },
                        };
                        let empty = String::new();
                        let located = relative_to_path(empty.as_str(), root.as_str());
                        let path = normal_path(located.as_str());
                        self.started = self.started + 1;
                        self.current = declared;
                        self.root = root;
                        let item = PendingPath { path, file: empty };
                        self.pending.push(item);
                        proof {
                            assert(self@.pending =~= seq![item@]);
                            assert(s.declared[s.started as int] == declared@);
                            assert(option_text(home) == s.home);
                            assert(resolution(declared@, s.home) == Ok::<Seq<char>, PathErrorKind>(
                                root@,
                            ));
                            assert(item@ == PendingView {
                                path: local_key(root@, Seq::<char>::empty()),
                                file: Seq::<char>::empty(),
                            });
                            assert(self@ == WalkView {
                                started: s.started + 1,
                                current: declared@,
                                root: root@,
                                pending: seq![item@],
                                ..s
                            });
                            assert(selected(s) == selected(self@));
                            assert(self.wf());
                        }
                    } else {
                        proof {
                            assert(self@ == s);
                            assert(selected(s) == Selection::Finished { state: s });
                        }
                        return Ok(None);
                    }
                },
            }
        }
    }

    /// The files recorded so far. When the walk is finished these are the
    /// local files of the game.
    pub fn finish(self) -> (files: ResolvedSaveFiles)
        requires
            self.wf(),
        ensures
            files.wf(),
            files.order() == self@.keys,
            entry_views(files) == self@.entries,
            located(files.order(), entry_views(files), self@.home),
    {
        self.files
    }
}

/// What an optional observation says; none counts as missing.
pub open spec fn observation(observed: Option<LocalEntry>) -> LocalEntryView {
    match observed {
        Some(entry) => entry@,
        None => LocalEntryView::Missing,
    }
}

} // verus!
