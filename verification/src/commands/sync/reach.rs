//! What a walk finds. Where the caller tells the walk, of every path it is
//! asked to look at, what a given file system holds there, a walk that
//! finishes has recorded exactly the files that can be reached from the
//! declared paths through the directories of that file system, each with the
//! metadata the file system gives it.

use vstd::prelude::*;
use crate::commands::sync::{local_key, ResolvedSaveFileView};
use crate::commands::sync::snapshot::{
    absorbed, children_of, selected, LocalEntryView, PendingView, Selection, WalkView,
};
use crate::games::paths::{resolution, PathErrorKind};
use crate::utils::paths::relative_joined;

verus! {

/// A file system as the walk sees it: what is at each local path. A path that
/// is not held counts as missing.
pub type FileSystem = Map<Seq<char>, LocalEntryView>;

/// What the file system holds at a path.
pub open spec fn found(fs: FileSystem, path: Seq<char>) -> LocalEntryView {
    if fs.contains_key(path) {
        fs[path]
    } else {
        LocalEntryView::Missing
    }
}

/// What a caller that looks into the file system tells the walk.
pub open spec fn answer(s: WalkView, fs: FileSystem) -> LocalEntryView {
    match s.probing {
        Some(p) => found(fs, p.path),
        None => LocalEntryView::Missing,
    }
}

/// How a walk ends.
pub enum WalkEnd {
    /// The walk is finished, in this state.
    Finished { state: WalkView },
    /// Something unsupported was found at the path.
    Unsupported { path: Seq<char> },
    /// A declared path could not be resolved.
    Unresolved { path: Seq<char>, kind: PathErrorKind },
}

/// The end of the walk that goes on from `s` with a caller that looks into
/// `fs`, if the walk ends within `fuel` further looks.
pub open spec fn walked(s: WalkView, fs: FileSystem, fuel: nat) -> Option<WalkEnd>
    decreases fuel,
{
    match absorbed(s, answer(s, fs)) {
        Err(path) => Some(WalkEnd::Unsupported { path: path }),
        Ok(taken) => match selected(taken) {
            Selection::Finished { state } => Some(WalkEnd::Finished { state: state }),
            Selection::Unresolved { path, kind } => Some(
                WalkEnd::Unresolved { path: path, kind: kind },
            ),
            Selection::Probe { state } => if fuel == 0 {
                None
            } else {
                walked(state, fs, (fuel - 1) as nat)
            },
        },
    }
}

/// Whether `child` is the relative path of an entry of the directory that the
/// file system holds at the relative path `parent` under `root`.
pub open spec fn is_child(fs: FileSystem, root: Seq<char>, parent: Seq<char>, child: Seq<char>) -> bool {
    match found(fs, local_key(root, parent)) {
        LocalEntryView::Directory { children } => exists|n: int|
            0 <= n < children.len() && child == relative_joined(parent, #[trigger] children[n]),
        _ => false,
    }
}

/// Whether the relative paths lead from `root` itself down through
/// directories, each the relative path of an entry of the one before.
pub open spec fn is_chain(fs: FileSystem, root: Seq<char>, chain: Seq<Seq<char>>) -> bool {
    &&& chain.len() >= 1
    &&& chain[0] == Seq::<char>::empty()
    &&& forall|i: int|
        0 <= i < chain.len() - 1 ==> is_child(fs, root, #[trigger] chain[i], chain[i + 1])
}

/// Whether the file system holds a file at the relative path `file` under
/// `root` that can be reached from `root` through its directories.
pub open spec fn is_file_under(fs: FileSystem, root: Seq<char>, file: Seq<char>) -> bool {
    &&& found(fs, local_key(root, file)) is File
    &&& exists|chain: Seq<Seq<char>>| #[trigger] is_chain(fs, root, chain) && chain.last() == file
}

/// Whether every recorded file is a file of the file system, with the
/// metadata the file system gives it.
pub open spec fn sound(
    keys: Seq<Seq<char>>,
    entries: Seq<ResolvedSaveFileView>,
    fs: FileSystem,
) -> bool {
    &&& keys.len() == entries.len()
    &&& forall|i: int|
        0 <= i < keys.len() ==> found(fs, #[trigger] keys[i]) == (LocalEntryView::File {
            metadata: entries[i].metadata,
        })
}

/// Whether every file that can be reached from `root` is recorded.
pub open spec fn complete_for(keys: Seq<Seq<char>>, fs: FileSystem, root: Seq<char>) -> bool {
    forall|file: Seq<char>| #[trigger]
        is_file_under(fs, root, file) ==> keys.contains(local_key(root, file))
}

/// Whether every declared path resolves and every file that can be reached
/// from one of them is recorded.
pub open spec fn complete(
    keys: Seq<Seq<char>>,
    fs: FileSystem,
    declared: Seq<Seq<char>>,
    home: Option<Seq<char>>,
) -> bool {
    forall|c: int|
        0 <= c < declared.len() ==> resolution(#[trigger] declared[c], home) is Ok && complete_for(
            keys,
            fs,
            resolution(declared[c], home)->Ok_0,
        )
}

/// Whether the walk still has the relative path before it: on its stack, or as
/// the path it asked about.
pub open spec fn waits(s: WalkView, file: Seq<char>) -> bool {
    ||| exists|j: int| 0 <= j < s.pending.len() && (#[trigger] s.pending[j]).file == file
    ||| s.probing matches Some(p) && p.file == file
}

/// Whether the walk has dealt with the end of a chain or will come to it: a
/// relative path of the chain is still before the walk, or the chain does not
/// end at a file, or that file is recorded.
pub open spec fn covered(s: WalkView, fs: FileSystem, chain: Seq<Seq<char>>) -> bool {
    ||| exists|i: int| 0 <= i < chain.len() && waits(s, #[trigger] chain[i])
    ||| !(found(fs, local_key(s.root, chain.last())) is File)
    ||| s.keys.contains(local_key(s.root, chain.last()))
}

/// What holds of a walk at every moment, with a caller that looks into `fs`.
pub open spec fn on_course(s: WalkView, fs: FileSystem) -> bool {
    &&& sound(s.keys, s.entries, fs)
    &&& s.started <= s.declared.len()
    &&& forall|c: int|
        0 <= c < s.started ==> resolution(#[trigger] s.declared[c], s.home) is Ok
    &&& forall|c: int|
        0 <= c < s.started - 1 ==> complete_for(
            s.keys,
            fs,
            resolution(#[trigger] s.declared[c], s.home)->Ok_0,
        )
    &&& s.started > 0 ==> resolution(s.declared[s.started - 1], s.home) == Ok::<
        Seq<char>,
        PathErrorKind,
    >(s.root)
    &&& s.started > 0 ==> forall|chain: Seq<Seq<char>>| #[trigger]
        is_chain(fs, s.root, chain) ==> covered(s, fs, chain)
    &&& s.started == 0 ==> s.pending.len() == 0 && s.probing is None
    &&& forall|j: int|
        0 <= j < s.pending.len() ==> (#[trigger] s.pending[j]).path == local_key(
            s.root,
            s.pending[j].file,
        )
    &&& s.probing matches Some(p) ==> p.path == local_key(s.root, p.file)
}

/// Where a chain is covered only by a relative path at which the file system
/// holds no directory, the chain ends there.
proof fn lemma_chain_stops(fs: FileSystem, root: Seq<char>, chain: Seq<Seq<char>>, i: int)
    requires
        is_chain(fs, root, chain),
        0 <= i < chain.len(),
        !(found(fs, local_key(root, chain[i])) is Directory),
    ensures
        i == chain.len() - 1,
{
    if i < chain.len() - 1 {
        assert(is_child(fs, root, chain[i], chain[i + 1]));
    }
}

/// Taking the caller's answer keeps the walk on course.
pub proof fn lemma_absorbed_on_course(s: WalkView, fs: FileSystem)
    requires
        on_course(s, fs),
    ensures
        absorbed(s, answer(s, fs)) matches Ok(t) ==> on_course(t, fs) && t.probing is None,
{
    match s.probing {
        None => {},
        Some(p) => {
            let seen = found(fs, p.path);
            match absorbed(s, seen) {
                Err(_) => {},
                Ok(t) => {
                    assert(t.root == s.root && t.started == s.started && t.declared == s.declared
                        && t.home == s.home);
                    // What was recorded stays recorded.
                    assert forall|k: Seq<char>| s.keys.contains(k) implies t.keys.contains(k) by {
                        let i = s.keys.index_of(k);
                        assert(t.keys[i] == k);
                    }
                    assert(sound(t.keys, t.entries, fs)) by {
                        assert forall|i: int| 0 <= i < t.keys.len() implies found(
                            fs,
                            #[trigger] t.keys[i],
                        ) == (LocalEntryView::File { metadata: t.entries[i].metadata }) by {
                            if i < s.keys.len() {
                                assert(t.keys[i] == s.keys[i]);
                                assert(t.entries[i] == s.entries[i]);
                            }
                        }
                    }
                    assert forall|c: int| 0 <= c < t.started - 1 implies complete_for(
                        t.keys,
                        fs,
                        resolution(#[trigger] t.declared[c], t.home)->Ok_0,
                    ) by {
                        let root = resolution(s.declared[c], s.home)->Ok_0;
                        assert(complete_for(s.keys, fs, root));
                        assert forall|file: Seq<char>| #[trigger]
                            is_file_under(fs, root, file) implies t.keys.contains(
                            local_key(root, file),
                        ) by {
                            assert(s.keys.contains(local_key(root, file)));
                        }
                    }
                    assert forall|j: int| 0 <= j < t.pending.len() implies (
                    #[trigger] t.pending[j]).path == local_key(t.root, t.pending[j].file) by {
                        if j < s.pending.len() {
                            assert(t.pending[j] == s.pending[j]);
                        }
                    }
                    assert forall|chain: Seq<Seq<char>>| #[trigger]
                        is_chain(fs, t.root, chain) implies covered(t, fs, chain) by {
                        assert(covered(s, fs, chain));
                        let end = local_key(s.root, chain.last());
                        if s.keys.contains(end) {
                            assert(t.keys.contains(end));
                        } else if !(found(fs, end) is File) {
                        } else {
                            let i = choose|i: int|
                                0 <= i < chain.len() && waits(s, #[trigger] chain[i]);
                            if exists|j: int|
                                0 <= j < s.pending.len() && (#[trigger] s.pending[j]).file
                                    == chain[i] {
                                let j = choose|j: int|
                                    0 <= j < s.pending.len() && (#[trigger] s.pending[j]).file
                                        == chain[i];
                                assert(t.pending[j] == s.pending[j]);
                                assert(waits(t, chain[i]));
                            } else {
                                // The chain was covered by the path that was asked about.
                                assert(p.file == chain[i]);
                                assert(local_key(s.root, chain[i]) == p.path);
                                match seen {
                                    LocalEntryView::Directory { children } => {
                                        if i == chain.len() - 1 {
                                            assert(false);
                                        } else {
                                            assert(is_child(fs, s.root, chain[i], chain[i + 1]));
                                            let n = choose|n: int|
                                                0 <= n < children.len() && chain[i + 1]
                                                    == relative_joined(
                                                    chain[i],
                                                    #[trigger] children[n],
                                                );
                                            let added = children_of(s.root, p.file, children);
                                            assert(t.pending == s.pending + added);
                                            assert(t.pending[s.pending.len() + n] == added[n]);
                                            assert(added[n].file == chain[i + 1]);
                                            assert(waits(t, chain[i + 1]));
                                        }
                                    },
                                    _ => {
                                        lemma_chain_stops(fs, s.root, chain, i);
                                        assert(chain.last() == chain[i]);
                                        match seen {
                                            LocalEntryView::File { metadata } => {
                                                assert(t.keys[s.keys.len() as int] == p.path);
                                                assert(t.keys.contains(end));
                                            },
                                            _ => {},
                                        }
                                    },
                                }
                            }
                        }
                    }
                },
            }
        },
    }
}

/// Choosing the next path keeps the walk on course, and when nothing is left
/// to choose every file that can be reached from a declared path is recorded.
pub proof fn lemma_selected_on_course(t: WalkView, fs: FileSystem)
    requires
        on_course(t, fs),
        t.probing is None,
    ensures
        match selected(t) {
            Selection::Probe { state } => on_course(state, fs) && state.declared == t.declared
                && state.home == t.home,
            Selection::Finished { state } => sound(state.keys, state.entries, fs) && complete(
                state.keys,
                fs,
                t.declared,
                t.home,
            ),
            Selection::Unresolved { .. } => true,
        },
    decreases t.declared.len() - t.started, t.pending.len(),
{
    if t.pending.len() > 0 {
        let p = t.pending.last();
        let rest = WalkView { pending: t.pending.drop_last(), ..t };
        assert(p == t.pending[t.pending.len() - 1]);
        assert forall|j: int| 0 <= j < rest.pending.len() implies (#[trigger] rest.pending[j]).path
            == local_key(rest.root, rest.pending[j].file) by {
            assert(rest.pending[j] == t.pending[j]);
        }
        if t.keys.contains(p.path) {
            let r = t.keys.index_of(p.path);
            assert(found(fs, t.keys[r]) is File);
            assert forall|chain: Seq<Seq<char>>| #[trigger]
                is_chain(fs, rest.root, chain) implies covered(rest, fs, chain) by {
                assert(covered(t, fs, chain));
                let end = local_key(t.root, chain.last());
                if !t.keys.contains(end) && found(fs, end) is File {
                    let i = choose|i: int| 0 <= i < chain.len() && waits(t, #[trigger] chain[i]);
                    let j = choose|j: int|
                        0 <= j < t.pending.len() && (#[trigger] t.pending[j]).file == chain[i];
                    if j < t.pending.len() - 1 {
                        assert(rest.pending[j] == t.pending[j]);
                        assert(waits(rest, chain[i]));
                    } else {
                        assert(local_key(t.root, chain[i]) == p.path);
                        lemma_chain_stops(fs, t.root, chain, i);
                        assert(false);
                    }
                }
            }
            assert(on_course(rest, fs));
            lemma_selected_on_course(rest, fs);
        } else {
            let state = WalkView { probing: Some(p), ..rest };
            assert forall|chain: Seq<Seq<char>>| #[trigger]
                is_chain(fs, state.root, chain) implies covered(state, fs, chain) by {
                assert(covered(t, fs, chain));
                let end = local_key(t.root, chain.last());
                if !t.keys.contains(end) && found(fs, end) is File {
                    let i = choose|i: int| 0 <= i < chain.len() && waits(t, #[trigger] chain[i]);
                    let j = choose|j: int|
                        0 <= j < t.pending.len() && (#[trigger] t.pending[j]).file == chain[i];
                    if j < t.pending.len() - 1 {
                        assert(state.pending[j] == t.pending[j]);
                    }
                    assert(waits(state, chain[i]));
                }
            }
            assert forall|j: int| 0 <= j < state.pending.len() implies (
            #[trigger] state.pending[j]).path == local_key(state.root, state.pending[j].file) by {
                assert(state.pending[j] == t.pending[j]);
            }
            assert(on_course(state, fs));
        }
    } else {
        // Nothing waits, so the declared path the walk was in is complete.
        if t.started > 0 {
            let root = t.root;
            assert forall|file: Seq<char>| #[trigger] is_file_under(fs, root, file) implies t.keys.contains(
                local_key(root, file),
            ) by {
                let chain = choose|chain: Seq<Seq<char>>| #[trigger]
                    is_chain(fs, root, chain) && chain.last() == file;
                assert(covered(t, fs, chain));
            }
            assert(complete_for(t.keys, fs, root));
        }
        if t.started < t.declared.len() {
            let declared = t.declared[t.started as int];
            match resolution(declared, t.home) {
                Err(_) => {},
                Ok(root) => {
                    let item = PendingView {
                        path: local_key(root, Seq::<char>::empty()),
                        file: Seq::<char>::empty(),
                    };
                    let next = WalkView {
                        started: t.started + 1,
                        current: declared,
                        root: root,
                        pending: seq![item],
                        ..t
                    };
                    assert forall|chain: Seq<Seq<char>>| #[trigger]
                        is_chain(fs, next.root, chain) implies covered(next, fs, chain) by {
                        assert(next.pending[0].file == chain[0]);
                        assert(waits(next, chain[0]));
                    }
                    assert forall|c: int| 0 <= c < next.started - 1 implies complete_for(
                        next.keys,
                        fs,
                        resolution(#[trigger] next.declared[c], next.home)->Ok_0,
                    ) by {
                        if c == t.started - 1 {
                            assert(resolution(t.declared[c], t.home)->Ok_0 == t.root);
                        }
                    }
                    assert(on_course(next, fs));
                    lemma_selected_on_course(next, fs);
                },
            }
        } else {
            assert forall|c: int| 0 <= c < t.declared.len() implies resolution(
                #[trigger] t.declared[c],
                t.home,
            ) is Ok && complete_for(t.keys, fs, resolution(t.declared[c], t.home)->Ok_0) by {
                if c == t.started - 1 {
                    assert(resolution(t.declared[c], t.home)->Ok_0 == t.root);
                }
            }
        }
    }
}

/// A walk that is on course stays on course to its end.
pub proof fn lemma_walked_on_course(s: WalkView, fs: FileSystem, fuel: nat)
    requires
        on_course(s, fs),
    ensures
        walked(s, fs, fuel) matches Some(WalkEnd::Finished { state }) ==> sound(
            state.keys,
            state.entries,
            fs,
        ) && complete(state.keys, fs, s.declared, s.home),
    decreases fuel,
{
    lemma_absorbed_on_course(s, fs);
    match absorbed(s, answer(s, fs)) {
        Err(_) => {},
        Ok(taken) => {
            assert(taken.declared == s.declared && taken.home == s.home);
            lemma_selected_on_course(taken, fs);
            match selected(taken) {
                Selection::Probe { state } => {
                    if fuel > 0 {
                        lemma_walked_on_course(state, fs, (fuel - 1) as nat);
                    }
                },
                _ => {},
            }
        },
    }
}

/// A walk finds the files under the declared paths. Where a walk over the
/// declared paths starts afresh, the caller tells it of every path what the
/// file system holds there, and the walk finishes, then every recorded file is
/// a file of the file system with the metadata the file system gives it, every
/// declared path resolves, and every file that can be reached from a declared
/// path through the directories of the file system is recorded.
pub proof fn lemma_walk_finds_the_files(
    declared: Seq<Seq<char>>,
    home: Option<Seq<char>>,
    fs: FileSystem,
    fuel: nat,
)
    ensures
        walked(
            WalkView {
                declared: declared,
                home: home,
                started: 0,
                current: Seq::<char>::empty(),
                root: Seq::<char>::empty(),
                pending: Seq::<PendingView>::empty(),
                probing: None,
                keys: Seq::<Seq<char>>::empty(),
                entries: Seq::<ResolvedSaveFileView>::empty(),
            },
            fs,
            fuel,
        ) matches Some(WalkEnd::Finished { state }) ==> sound(state.keys, state.entries, fs)
            && complete(state.keys, fs, declared, home),
{
    let start = WalkView {
        declared: declared,
        home: home,
        started: 0,
        current: Seq::<char>::empty(),
        root: Seq::<char>::empty(),
        pending: Seq::<PendingView>::empty(),
        probing: None,
        keys: Seq::<Seq<char>>::empty(),
        entries: Seq::<ResolvedSaveFileView>::empty(),
    };
    assert(on_course(start, fs));
    lemma_walked_on_course(start, fs, fuel);
}

} // verus!
