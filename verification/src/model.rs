//! A run played through on a tree of files that exists in contracts only: a
//! map from the path of each file to its text. Every request is carried out
//! on the map, and every write succeeds.

use crate::manifest::manifest_entries;
use crate::sync::{
    next_manifest, start_spec, step_spec, Phase, ReplyView, RequestView, SyncView,
};
use crate::template::{created_line, descriptor_path, Descriptor};
use vstd::prelude::*;

verus! {

/// The files of a tree: the text of each by its path. A path is taken by its
/// letters, so two spellings of a path are two files here.
pub type Files = Map<Seq<char>, Seq<char>>;

/// How a run ended, and the files it left.
pub struct Outcome {
    pub files: Files,
    /// The request that ended the run: `Finished` or `Failed`.
    pub end: RequestView,
}

/// The files after `request` was carried out on `files`, and the reply to it.
pub open spec fn answer(files: Files, request: RequestView) -> (Files, ReplyView) {
    match request {
        RequestView::Read { path } => (
            files,
            ReplyView::Text(
                if files.dom().contains(path) {
                    Some(files[path])
                } else {
                    None
                },
            ),
        ),
        RequestView::Probe { path } => (files, ReplyView::Found(files.dom().contains(path))),
        RequestView::Write { path, content } => (
            files.insert(path, content),
            ReplyView::Written(true),
        ),
        _ => (files, ReplyView::Written(true)),
    }
}

/// A number that falls from each phase of the work on one entity to the next,
/// and from there to the writing of the log.
pub open spec fn phase_rank(phase: Phase) -> nat {
    match phase {
        Phase::Root => 7,
        Phase::Manifest => 7,
        Phase::Probing(Descriptor::Marker) => 6,
        Phase::Creating(Descriptor::Marker) => 5,
        Phase::Probing(Descriptor::Metadata) => 4,
        Phase::Creating(Descriptor::Metadata) => 3,
        Phase::Dir => 2,
        Phase::Log => 1,
        Phase::Halted => 0,
    }
}

/// What is left of a run in the state `s` with `request` open, as five
/// numbers that are compared from the left.
pub open spec fn weight(s: SyncView, request: RequestView) -> (nat, nat, nat, nat, nat) {
    (
        if s.phase == Phase::Root && !request.is_final() {
            1
        } else {
            0
        },
        s.entries.len(),
        if s.phase == Phase::Manifest && !request.is_final() {
            1
        } else {
            0
        },
        s.sub_entries.len(),
        if request.is_final() {
            0
        } else {
            1 + phase_rank(s.phase)
        },
    )
}

/// Whether `a` comes before `b` when both are compared from the left.
pub open spec fn lighter(a: (nat, nat, nat, nat, nat), b: (nat, nat, nat, nat, nat)) -> bool {
    ||| a.0 < b.0
    ||| a.0 == b.0 && a.1 < b.1
    ||| a.0 == b.0 && a.1 == b.1 && a.2 < b.2
    ||| a.0 == b.0 && a.1 == b.1 && a.2 == b.2 && a.3 < b.3
    ||| a.0 == b.0 && a.1 == b.1 && a.2 == b.2 && a.3 == b.3 && a.4 < b.4
}

/// Taking up the next manifest either leaves fewer entries of the root
/// manifest and asks to read, or leaves none and asks for the log's directory.
/// Nothing else of the state changes but the log and the count.
pub proof fn lemma_next_manifest_shape(s: SyncView)
    ensures
        ({
            let (t, request) = next_manifest(s);
            &&& t.base == s.base
            &&& t.sub_entries == s.sub_entries
            &&& t.entity == s.entity
            &&& {
                ||| t.phase == Phase::Dir && t.entries.len() == 0 && request is MakeDir
                ||| t.phase == Phase::Manifest && t.entries.len() < s.entries.len()
                    && request is Read
            }
        }),
    decreases s.entries.len(),
{
    if s.entries.len() > 0 {
        lemma_next_manifest_shape(SyncView { entries: s.entries.skip(1), ..s });
    }
}

/// Every step leaves less of the run.
pub proof fn lemma_step_lighter(s: SyncView, request: RequestView, reply: ReplyView)
    requires
        !request.is_final(),
    ensures
        lighter(weight(step_spec(s, reply).0, step_spec(s, reply).1), weight(s, request)),
{
    match (s.phase, reply) {
        (Phase::Root, ReplyView::Text(Some(text))) => {
            lemma_next_manifest_shape(SyncView { entries: manifest_entries(text), ..s });
        },
        (Phase::Manifest, ReplyView::Text(Some(text))) => {
            lemma_next_manifest_shape(SyncView { sub_entries: manifest_entries(text), ..s });
        },
        (Phase::Manifest, ReplyView::Text(None)) => {
            lemma_next_manifest_shape(SyncView { sub_entries: Seq::empty(), ..s });
        },
        (Phase::Probing(kind), ReplyView::Found(true)) => {
            lemma_next_manifest_shape(s);
        },
        (Phase::Creating(kind), ReplyView::Written(true)) => {
            lemma_next_manifest_shape(
                SyncView {
                    log: s.log + created_line(s.category, kind, descriptor_path(kind, s.entity)),
                    ..s
                },
            );
        },
        _ => {},
    }
}

/// The run from the state `s` with `request` open, on `files`: every request
/// is carried out on the files and answered, until one ends the run.
pub open spec fn run(s: SyncView, request: RequestView, files: Files) -> Outcome
    decreases
        weight(s, request).0,
        weight(s, request).1,
        weight(s, request).2,
        weight(s, request).3,
        weight(s, request).4,
    via run_decreases
{
    if request.is_final() {
        Outcome { files, end: request }
    } else {
        let (after, reply) = answer(files, request);
        let (t, next) = step_spec(s, reply);
        run(t, next, after)
    }
}

#[via_fn]
proof fn run_decreases(s: SyncView, request: RequestView, files: Files) {
    if !request.is_final() {
        lemma_step_lighter(s, request, answer(files, request).1);
    }
}

/// A whole run on the tree under `root`.
pub open spec fn run_on(files: Files, root: Seq<char>) -> Outcome {
    run(start_spec(root).0, start_spec(root).1, files)
}

} // verus!
