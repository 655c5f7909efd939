//! What the operator is shown, and may answer, when the saves of a game cannot
//! be reconciled without a choice.

use vstd::prelude::*;
use vstd::string::*;
use crate::commands::sync::{ConflictReason, ResolvedSaveFileView, ResolvedSaveFiles, SyncDirection};
use crate::commands::sync::transfer::entry_views;
use crate::games::manifest::Timestamp;
use crate::utils::time::{
    current_local_offset, display_offset, render_time, rendered_time, shown_offset,
};

verus! {

/// One answer the operator may give: the direction it stands for and the text
/// it is shown as.
#[derive(Debug)]
pub struct ConflictChoice {
    pub sync_direction: SyncDirection,
    pub label: String,
}

/// What a choice says.
pub struct ConflictChoiceView {
    pub sync_direction: SyncDirection,
    pub label: Seq<char>,
}

impl View for ConflictChoice {
    type V = ConflictChoiceView;

    open spec fn view(&self) -> ConflictChoiceView {
        ConflictChoiceView { sync_direction: self.sync_direction, label: self.label@ }
    }
}

/// The question put to the operator: a message and the answers to choose from.
#[derive(Debug)]
pub struct ConflictPrompt {
    pub message: String,
    pub choices: Vec<ConflictChoice>,
}

/// What a prompt says.
pub struct ConflictPromptView {
    pub message: Seq<char>,
    pub choices: Seq<ConflictChoiceView>,
}

impl View for ConflictPrompt {
    type V = ConflictPromptView;

    open spec fn view(&self) -> ConflictPromptView {
        ConflictPromptView {
            message: self.message@,
            choices: Seq::new(self.choices.len() as nat, |i: int| self.choices@[i]@),
        }
    }
}

/// Whether `latest` is the modification time of one of the files and none was
/// modified later.
pub open spec fn is_latest(entries: Seq<ResolvedSaveFileView>, latest: i128) -> bool {
    &&& exists|i: int| 0 <= i < entries.len() && (#[trigger] entries[i]).metadata.modified == latest
    &&& forall|i: int| 0 <= i < entries.len() ==> (#[trigger] entries[i]).metadata.modified <= latest
}

/// The text in brackets after a label: the word and the time, or nothing where
/// there is no time to show.
pub open spec fn time_note(word: Seq<char>, time: Option<Seq<char>>) -> Seq<char> {
    match time {
        Some(text) => " ("@ + word + " "@ + text + ")"@,
        None => Seq::<char>::empty(),
    }
}

/// The time to show for an optional moment at an offset.
pub open spec fn rendered_option(moment: Option<i128>, offset: i32) -> Option<Seq<char>> {
    match moment {
        Some(unix_nanos) => rendered_time(unix_nanos, offset),
        None => None,
    }
}

/// The prompt for a conflict, with the times shown at `offset`: the operator
/// may do nothing, keep the local saves, which were last modified at
/// `local_last_mod`, or keep the repository's saves, which were committed at
/// `repository_synced`.
pub open spec fn prompt_at(
    message: Seq<char>,
    local_last_mod: Option<i128>,
    repository_synced: Timestamp,
    offset: i32,
) -> ConflictPromptView {
    ConflictPromptView {
        message: message,
        choices: seq![
            ConflictChoiceView { sync_direction: SyncDirection::DoNothing, label: "Do nothing"@ },
            ConflictChoiceView {
                sync_direction: SyncDirection::ToRepository,
                label: "Keep local device save"@ + time_note(
                    "modified"@,
                    rendered_option(local_last_mod, offset),
                ),
            },
            ConflictChoiceView {
                sync_direction: SyncDirection::FromRepository,
                label: "Keep repository save"@ + time_note(
                    "synced"@,
                    rendered_time(repository_synced.unix_nanos, offset),
                ),
            },
        ],
    }
}

/// The message of a conflict: what happened to the game, and when it was last
/// synced where that is known.
pub open spec fn message_for(game: Seq<char>, reason: ConflictReason, synced: Option<Timestamp>) -> Seq<
    char,
> {
    match reason {
        ConflictReason::NeverSynced => game + " has not been synced to this device"@,
        ConflictReason::BothChanged => game + " has changed here and in the repository"@
            + time_note(
            "last synced at"@,
            match synced {
                Some(t) => rendered_time(t.unix_nanos, t.offset_seconds),
                None => None,
            },
        ),
    }
}

/// The latest modification time among the files, if there is any file.
pub open spec fn latest_of(entries: Seq<ResolvedSaveFileView>) -> Option<i128>
    decreases entries.len(),
{
    if entries.len() == 0 {
        None
    } else {
        match latest_of(entries.drop_last()) {
            Some(latest) if latest >= entries.last().metadata.modified => Some(latest),
            _ => Some(entries.last().metadata.modified),
        }
    }
}

/// The latest modification time is the time of one of the files, and no file
/// was modified later.
pub proof fn lemma_latest_of(entries: Seq<ResolvedSaveFileView>)
    ensures
        match latest_of(entries) {
            Some(latest) => is_latest(entries, latest),
            None => entries.len() == 0,
        },
    decreases entries.len(),
{
    if entries.len() > 0 {
        let before = entries.drop_last();
        lemma_latest_of(before);
        let latest = latest_of(entries)->Some_0;
        match latest_of(before) {
            Some(earlier) => {
                let w = choose|w: int|
                    0 <= w < before.len() && (#[trigger] before[w]).metadata.modified == earlier;
                assert(entries[w] == before[w]);
                assert forall|i: int| 0 <= i < entries.len() implies (#[trigger] entries[i]).metadata.modified
                    <= latest by {
                    if i < before.len() {
                        assert(entries[i] == before[i]);
                    }
                }
                if earlier >= entries.last().metadata.modified {
                    assert(entries[w].metadata.modified == latest);
                } else {
                    assert(entries[entries.len() - 1].metadata.modified == latest);
                }
            },
            None => {
                assert(entries[entries.len() - 1].metadata.modified == latest);
            },
        }
    }
}

/// The latest modification time among the files, if there is any file.
pub fn latest_modification(files: &ResolvedSaveFiles) -> (r: Option<i128>)
    ensures
        r == latest_of(entry_views(*files)),
{
    let n = files.len();
    let ghost entries = entry_views(*files);
    let mut latest: Option<i128> = None;
    let mut i: usize = 0;
    assert(entries.subrange(0, 0) =~= Seq::<ResolvedSaveFileView>::empty());
    while i < n
        invariant
            i <= n,
            n == entries.len(),
            n == files.order().len(),
            entries == entry_views(*files),
            files.wf(),
            latest == latest_of(entries.subrange(0, i as int)),
        decreases n - i,
    {
        let modified = files.value(i).metadata.modified;
        let ghost after = entries.subrange(0, i + 1);
        assert(after.drop_last() =~= entries.subrange(0, i as int));
        assert(after.last().metadata.modified == modified);
        latest = match latest {
            Some(earlier) => if earlier >= modified {
                Some(earlier)
            } else {
                Some(modified)
            },
            None => Some(modified),
        };
        i += 1;
    }
    assert(entries.subrange(0, n as int) =~= entries);
    latest
}

fn with_time_note(label: &str, word: &str, time: Option<String>) -> (r: String)
    ensures
        r@ == label@ + time_note(word@, option_string(time)),
{
    let mut text = String::from_str(label);
    match time {
        Some(t) => {
            text.append(" (");
            text.append(word);
            text.append(" ");
            text.append(t.as_str());
            text.append(")");
            assert(text@ =~= label@ + (" ("@ + word@ + " "@ + t@ + ")"@));
        },
        None => {
            assert(text@ =~= label@ + Seq::<char>::empty());
        },
    }
    text
}

/// The text of an optional string.
pub open spec fn option_string(s: Option<String>) -> Option<Seq<char>> {
    match s {
        Some(x) => Some(x@),
        None => None,
    }
}

/// The message of a conflict.
pub fn conflict_message(game: &str, reason: ConflictReason, synced: Option<Timestamp>) -> (r: String)
    ensures
        r@ == message_for(game@, reason, synced),
{
    match reason {
        ConflictReason::NeverSynced => {
            let mut text = String::from_str(game);
            text.append(" has not been synced to this device");
            text
        },
        ConflictReason::BothChanged => {
            let mut head = String::from_str(game);
            head.append(" has changed here and in the repository");
            let time = match synced {
                Some(t) => render_time(t.unix_nanos, t.offset_seconds),
                None => None,
            };
            let text = with_time_note(head.as_str(), "last synced at", time);
            text
        },
    }
}

/// The prompt for a conflict, with the times shown at `offset`.
pub fn conflict_prompt_at(
    message: &str,
    local_last_mod: Option<i128>,
    repository_synced: Timestamp,
    offset: i32,
) -> (r: ConflictPrompt)
    ensures
        r@ == prompt_at(message@, local_last_mod, repository_synced, offset),
{
    let local_time = match local_last_mod {
        Some(unix_nanos) => render_time(unix_nanos, offset),
        None => None,
    };
    let repository_time = render_time(repository_synced.unix_nanos, offset);
    let mut choices: Vec<ConflictChoice> = Vec::new();
    choices.push(
        ConflictChoice {
            sync_direction: SyncDirection::DoNothing,
            label: String::from_str("Do nothing"),
        },
    );
    choices.push(
        ConflictChoice {
            sync_direction: SyncDirection::ToRepository,
            label: with_time_note("Keep local device save", "modified", local_time),
        },
    );
    choices.push(
        ConflictChoice {
            sync_direction: SyncDirection::FromRepository,
            label: with_time_note("Keep repository save", "synced", repository_time),
        },
    );
    let r = ConflictPrompt { message: String::from_str(message), choices };
    assert(r@.choices =~= prompt_at(message@, local_last_mod, repository_synced, offset).choices);
    r
}

/// The prompt for a conflict, with the times shown at the local offset, or at
/// the offset stored with the repository's time where the local offset cannot
/// be determined.
pub fn conflict_prompt(message: &str, local_last_mod: Option<i128>, repository_synced: Timestamp) -> (r:
    ConflictPrompt)
    ensures
        exists|local: Option<i32>|
            r@ == prompt_at(
                message@,
                local_last_mod,
                repository_synced,
                #[trigger] shown_offset(local, repository_synced.offset_seconds),
            ),
{
    let local = current_local_offset();
    let offset = display_offset(local, repository_synced.offset_seconds);
    conflict_prompt_at(message, local_last_mod, repository_synced, offset)
}

impl ConflictPrompt {
    /// The direction that the answer at place `index` stands for, if there is
    /// such an answer.
    pub fn direction(&self, index: usize) -> (r: Option<SyncDirection>)
        ensures
            r == (if index < self@.choices.len() {
                Some(self@.choices[index as int].sync_direction)
            } else {
                None
            }),
    {
        if index < self.choices.len() {
            Some(self.choices[index].sync_direction)
        } else {
            None
        }
    }
}

} // verus!
