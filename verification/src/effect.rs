//! What a run does to a tree of files, said outright: entity by entity and
//! manifest by manifest, without the machine. The machine's runs are proved
//! to do exactly this.

use crate::entity::{resolve, EntityView, ResolveError};
use crate::manifest::manifest_entries;
use crate::model::{run, run_on, Files, Outcome};
use crate::paths::joined;
use crate::sync::{
    after_descriptor, base_dir, cache_dir, log_file, next_entity, next_manifest, root_manifest,
    start_spec, Failure, Phase, RequestView, SyncView,
};
use crate::template::{
    category_of, created_line, descriptor_path, log_header, template, Category, Descriptor,
};
use vstd::prelude::*;

verus! {

/// The files and the log after the descriptor `kind` of `entity` was seen to:
/// where it exists nothing changes; where it is missing it is written from
/// its template, and the log gets a line on it.
pub open spec fn ensure_descriptor(
    files: Files,
    log: Seq<char>,
    category: Category,
    kind: Descriptor,
    entity: EntityView,
) -> (Files, Seq<char>) {
    let path = descriptor_path(kind, entity);
    if files.dom().contains(path) {
        (files, log)
    } else {
        (
            files.insert(path, template(category, kind, entity.name)),
            log + created_line(category, kind, path),
        )
    }
}

/// The files and the log after both descriptors of `entity` were seen to:
/// first the marker, then the metadata.
pub open spec fn scaffold(files: Files, log: Seq<char>, category: Category, entity: EntityView) -> (
    Files,
    Seq<char>,
) {
    let (f, l) = ensure_descriptor(files, log, category, Descriptor::Marker, entity);
    ensure_descriptor(f, l, category, Descriptor::Metadata, entity)
}

/// How far the work on the entries of manifests has come.
pub struct Progress {
    pub files: Files,
    pub log: Seq<char>,
    /// How many manifests have been taken up.
    pub processed: nat,
    /// The entry that named no entity and stopped the work, if one did.
    pub stopped: Option<ResolveError>,
}

/// The entries `entries` of the manifest at `manifest` are gone through in
/// their order, and each one's entity is scaffolded. The first entry that
/// names no entity stops the work; what was written before it stays.
pub open spec fn scaffold_entries(
    files: Files,
    log: Seq<char>,
    processed: nat,
    category: Category,
    manifest: Seq<char>,
    entries: Seq<Seq<char>>,
) -> Progress
    decreases entries.len(),
{
    if entries.len() == 0 {
        Progress { files, log, processed, stopped: None }
    } else {
        match resolve(manifest, entries[0]) {
            Err(e) => Progress { files, log, processed, stopped: Some(e) },
            Ok(entity) => {
                let (f, l) = scaffold(files, log, category, entity);
                scaffold_entries(f, l, processed, category, manifest, entries.skip(1))
            },
        }
    }
}

/// The entries of the manifest at `path`; none where it cannot be read.
pub open spec fn entries_at(files: Files, path: Seq<char>) -> Seq<Seq<char>> {
    if files.dom().contains(path) {
        manifest_entries(files[path])
    } else {
        Seq::empty()
    }
}

/// The entries `entries` of the root manifest are gone through in their
/// order. One that ends in neither suffix is passed over. For any other, the
/// log gets the header of its kind, the manifest is counted, and the entries
/// of the manifest, as the files hold it at that moment, are scaffolded.
pub open spec fn sync_manifests(
    files: Files,
    log: Seq<char>,
    processed: nat,
    base: Seq<char>,
    entries: Seq<Seq<char>>,
) -> Progress
    decreases entries.len(),
{
    if entries.len() == 0 {
        Progress { files, log, processed, stopped: None }
    } else {
        match category_of(entries[0]) {
            None => sync_manifests(files, log, processed, base, entries.skip(1)),
            Some(category) => {
                let manifest = joined(base, entries[0]);
                let p = scaffold_entries(
                    files,
                    log + log_header(category),
                    processed + 1,
                    category,
                    manifest,
                    entries_at(files, manifest),
                );
                if p.stopped is Some {
                    p
                } else {
                    sync_manifests(p.files, p.log, p.processed, base, entries.skip(1))
                }
            },
        }
    }
}

/// How a run ends once the manifests are gone through: where the work was
/// stopped the run has failed and no log is written; else the log is written,
/// in place of any that was there.
pub open spec fn conclude(p: Progress, base: Seq<char>) -> Outcome {
    match p.stopped {
        Some(e) => Outcome {
            files: p.files,
            end: RequestView::Failed { failure: Failure::Unresolved(e) },
        },
        None => Outcome {
            files: p.files.insert(log_file(base), p.log),
            end: RequestView::Finished { processed: p.processed, log_path: log_file(base) },
        },
    }
}

/// What a run on the tree under `root` does. Where the root manifest cannot
/// be read the run fails and nothing is written.
pub open spec fn sync(files: Files, root: Seq<char>) -> Outcome {
    let base = base_dir(root);
    let path = root_manifest(base);
    if files.dom().contains(path) {
        conclude(
            sync_manifests(files, Seq::empty(), 0, base, manifest_entries(files[path])),
            base,
        )
    } else {
        Outcome { files, end: RequestView::Failed { failure: Failure::RootUnreadable } }
    }
}

/// What comes next does not depend on the phase that the state was in.
proof fn lemma_phase_forgotten(s: SyncView, phase: Phase, kind: Descriptor)
    ensures
        next_manifest(SyncView { phase, ..s }) == next_manifest(s),
        next_entity(SyncView { phase, ..s }) == next_entity(s),
        after_descriptor(SyncView { phase, ..s }, kind) == after_descriptor(s, kind),
    decreases s.entries.len(),
{
    if s.entries.len() > 0 {
        lemma_phase_forgotten(SyncView { entries: s.entries.skip(1), ..s }, phase, kind);
    }
}

/// From the request for the log's directory on, the machine writes the log
/// and ends.
proof fn lemma_run_conclude(s: SyncView, files: Files)
    requires
        s.phase == Phase::Dir,
    ensures
        run(s, RequestView::MakeDir { path: cache_dir(s.base) }, files) == conclude(
            Progress { files, log: s.log, processed: s.processed, stopped: None },
            s.base,
        ),
{
    reveal_with_fuel(run, 4);
}

/// The machine, seeing to one descriptor, does what `ensure_descriptor` says,
/// and then goes on.
proof fn lemma_run_descriptor(s: SyncView, kind: Descriptor, files: Files)
    requires
        s.phase == Phase::Probing(kind),
    ensures
        ({
            let (f, l) = ensure_descriptor(files, s.log, s.category, kind, s.entity);
            let (t, request) = after_descriptor(SyncView { log: l, ..s }, kind);
            run(s, RequestView::Probe { path: descriptor_path(kind, s.entity) }, files) == run(
                t,
                request,
                f,
            )
        }),
{
    reveal_with_fuel(run, 3);
    let path = descriptor_path(kind, s.entity);
    if files.dom().contains(path) {
        assert(SyncView { log: s.log, ..s } == s);
    } else {
        let c = SyncView { phase: Phase::Creating(kind), ..s };
        let l = s.log + created_line(s.category, kind, path);
        lemma_phase_forgotten(SyncView { log: l, ..s }, Phase::Creating(kind), kind);
    }
}

/// The machine, taking up the entries of a manifest one by one, does what
/// `scaffold_entries` says, and then goes on with the root manifest.
proof fn lemma_run_entries(s: SyncView, files: Files)
    ensures
        ({
            let (t, request) = next_entity(s);
            let p = scaffold_entries(
                files,
                s.log,
                s.processed,
                s.category,
                s.manifest,
                s.sub_entries,
            );
            run(t, request, files) == if p.stopped is Some {
                conclude(p, s.base)
            } else {
                conclude(sync_manifests(p.files, p.log, p.processed, s.base, s.entries), s.base)
            }
        }),
    decreases s.entries.len(), 1int, s.sub_entries.len(),
{
    if s.sub_entries.len() == 0 {
        lemma_run_manifests(s, files);
    } else {
        match resolve(s.manifest, s.sub_entries[0]) {
            Err(e) => {},
            Ok(entity) => {
                let t = SyncView {
                    phase: Phase::Probing(Descriptor::Marker),
                    sub_entries: s.sub_entries.skip(1),
                    entity,
                    ..s
                };
                lemma_run_descriptor(t, Descriptor::Marker, files);
                let (f1, l1) = ensure_descriptor(
                    files,
                    s.log,
                    s.category,
                    Descriptor::Marker,
                    entity,
                );
                let t2 = SyncView { phase: Phase::Probing(Descriptor::Metadata), log: l1, ..t };
                lemma_run_descriptor(t2, Descriptor::Metadata, f1);
                let (f2, l2) = ensure_descriptor(
                    f1,
                    l1,
                    s.category,
                    Descriptor::Metadata,
                    entity,
                );
                let u = SyncView { log: l2, ..t2 };
                lemma_run_entries(u, f2);
            },
        }
    }
}

/// The machine, taking up the entries of the root manifest one by one, does
/// what `sync_manifests` says, and then writes the log.
proof fn lemma_run_manifests(s: SyncView, files: Files)
    ensures
        ({
            let (t, request) = next_manifest(s);
            run(t, request, files) == conclude(
                sync_manifests(files, s.log, s.processed, s.base, s.entries),
                s.base,
            )
        }),
    decreases s.entries.len(), 0int, 0nat,
{
    if s.entries.len() == 0 {
        lemma_run_conclude(SyncView { phase: Phase::Dir, ..s }, files);
    } else {
        let rest = s.entries.skip(1);
        match category_of(s.entries[0]) {
            None => {
                lemma_run_manifests(SyncView { entries: rest, ..s }, files);
            },
            Some(category) => {
                let manifest = joined(s.base, s.entries[0]);
                let t = SyncView {
                    phase: Phase::Manifest,
                    entries: rest,
                    category,
                    manifest,
                    log: s.log + log_header(category),
                    processed: s.processed + 1,
                    ..s
                };
                let u = SyncView { sub_entries: entries_at(files, manifest), ..t };
                lemma_run_entries(u, files);
                assert(run(t, RequestView::Read { path: manifest }, files) == run(
                    next_entity(u).0,
                    next_entity(u).1,
                    files,
                ));
            },
        }
    }
}

/// A run of the machine on a tree does to it what `sync` says, and ends as
/// `sync` says.
pub proof fn lemma_run_is_sync(files: Files, root: Seq<char>)
    ensures
        run_on(files, root) == sync(files, root),
{
    let (s, request) = start_spec(root);
    let path = root_manifest(base_dir(root));
    if files.dom().contains(path) {
        let t = SyncView { entries: manifest_entries(files[path]), ..s };
        lemma_run_manifests(t, files);
        assert(run(s, request, files) == run(next_manifest(t).0, next_manifest(t).1, files));
    } else {
        reveal_with_fuel(run, 2);
    }
}

} // verus!
