//! What holds of every run, whatever the tree.

use crate::effect::{
    entries_at, lemma_run_is_sync, scaffold, scaffold_entries, sync_manifests, Progress,
};
use crate::entity::{resolve, EntityView, ResolveError};
use crate::manifest::manifest_entries;
use crate::model::{run_on, Files, Outcome};
use crate::paths::joined;
use crate::sync::{base_dir, log_file, root_manifest, Failure, RequestView};
use crate::template::{
    category_of, descriptor_path, log_header, template, Category, Descriptor,
};
use crate::text::has_suffix;
use vstd::prelude::*;

verus! {

/// Whether every file of `before` is in `after`, with the text it had.
pub open spec fn kept(before: Files, after: Files) -> bool {
    forall|p: Seq<char>| #[trigger]
        before.dom().contains(p) ==> after.dom().contains(p) && after[p] == before[p]
}

/// The text of the file at `path`, if there is one.
pub open spec fn text_at(files: Files, path: Seq<char>) -> Option<Seq<char>> {
    if files.dom().contains(path) {
        Some(files[path])
    } else {
        None
    }
}

/// How many of `entries` name a manifest of agents or of tools.
pub open spec fn taken_up(entries: Seq<Seq<char>>) -> nat
    decreases entries.len(),
{
    if entries.len() == 0 {
        0
    } else if category_of(entries[0]) is Some {
        1 + taken_up(entries.skip(1))
    } else {
        taken_up(entries.skip(1))
    }
}

/// The headers that the manifests named by `entries` open the log with, one
/// after the other.
pub open spec fn headers(entries: Seq<Seq<char>>) -> Seq<char>
    decreases entries.len(),
{
    if entries.len() == 0 {
        Seq::empty()
    } else {
        match category_of(entries[0]) {
            Some(category) => log_header(category) + headers(entries.skip(1)),
            None => headers(entries.skip(1)),
        }
    }
}

/// Scaffolding an entity leaves it with both descriptors. A marker that was
/// missing holds the marker template of the entity's kind; so does the
/// metadata with its own template, where it was missing and is another file
/// than the marker. What the log gains is one line for each file written.
pub proof fn lemma_scaffold_creates(
    files: Files,
    log: Seq<char>,
    category: Category,
    entity: EntityView,
)
    ensures
        ({
            let (f, l) = scaffold(files, log, category, entity);
            let marker = descriptor_path(Descriptor::Marker, entity);
            let metadata = descriptor_path(Descriptor::Metadata, entity);
            &&& f.dom().contains(marker)
            &&& f.dom().contains(metadata)
            &&& !files.dom().contains(marker) ==> f[marker] == template(
                category,
                Descriptor::Marker,
                entity.name,
            )
            &&& !files.dom().contains(metadata) && metadata != marker ==> f[metadata] == template(
                category,
                Descriptor::Metadata,
                entity.name,
            )
            &&& files.dom().contains(marker) && files.dom().contains(metadata) ==> f == files && l
                == log
        }),
{
}

/// Scaffolding an entity changes no file that exists.
pub proof fn lemma_scaffold_keeps(
    files: Files,
    log: Seq<char>,
    category: Category,
    entity: EntityView,
)
    ensures
        kept(files, scaffold(files, log, category, entity).0),
{
}

/// Going through the entries of a manifest changes no file that exists, and
/// leaves the count as it was.
pub proof fn lemma_entries_keep(
    files: Files,
    log: Seq<char>,
    processed: nat,
    category: Category,
    manifest: Seq<char>,
    entries: Seq<Seq<char>>,
)
    ensures
        kept(files, scaffold_entries(files, log, processed, category, manifest, entries).files),
        scaffold_entries(files, log, processed, category, manifest, entries).processed
            == processed,
    decreases entries.len(),
{
    if entries.len() > 0 {
        match resolve(manifest, entries[0]) {
            Err(_) => {},
            Ok(entity) => {
                let (f, l) = scaffold(files, log, category, entity);
                lemma_scaffold_keeps(files, log, category, entity);
                lemma_entries_keep(f, l, processed, category, manifest, entries.skip(1));
            },
        }
    }
}

/// Going through the entries of the root manifest changes no file that
/// exists. Where the work was not stopped, every entry that names a manifest
/// of agents or of tools was counted once, and no other.
pub proof fn lemma_manifests_keep(
    files: Files,
    log: Seq<char>,
    processed: nat,
    base: Seq<char>,
    entries: Seq<Seq<char>>,
)
    ensures
        kept(files, sync_manifests(files, log, processed, base, entries).files),
        sync_manifests(files, log, processed, base, entries).stopped is None ==> sync_manifests(
            files,
            log,
            processed,
            base,
            entries,
        ).processed == processed + taken_up(entries),
    decreases entries.len(),
{
    if entries.len() > 0 {
        let rest = entries.skip(1);
        match category_of(entries[0]) {
            None => {
                lemma_manifests_keep(files, log, processed, base, rest);
            },
            Some(category) => {
                let manifest = joined(base, entries[0]);
                let p = scaffold_entries(
                    files,
                    log + log_header(category),
                    processed + 1,
                    category,
                    manifest,
                    entries_at(files, manifest),
                );
                lemma_entries_keep(
                    files,
                    log + log_header(category),
                    processed + 1,
                    category,
                    manifest,
                    entries_at(files, manifest),
                );
                if p.stopped is None {
                    lemma_manifests_keep(p.files, p.log, p.processed, base, rest);
                }
            },
        }
    }
}

/// Whether `text` is the template of the descriptor `kind` of `entity`, taken
/// as an entity of the kind `category`, and `path` the path of that descriptor.
pub open spec fn written_as(
    path: Seq<char>,
    text: Seq<char>,
    category: Category,
    kind: Descriptor,
    entity: EntityView,
) -> bool {
    path == descriptor_path(kind, entity) && text == template(category, kind, entity.name)
}

/// Whether a file with `text` at `path` is a descriptor fresh from its
/// template.
pub open spec fn fresh_descriptor(path: Seq<char>, text: Seq<char>) -> bool {
    exists|category: Category, kind: Descriptor, entity: EntityView| #[trigger]
        written_as(path, text, category, kind, entity)
}

/// Whether every file of `after` that `before` lacks is a descriptor fresh
/// from its template.
pub open spec fn only_descriptors_added(before: Files, after: Files) -> bool {
    forall|p: Seq<char>| #[trigger]
        after.dom().contains(p) && !before.dom().contains(p) ==> fresh_descriptor(p, after[p])
}

/// Going through the entries of a manifest adds nothing but descriptors
/// fresh from their templates.
proof fn lemma_entries_add_descriptors(
    files: Files,
    log: Seq<char>,
    processed: nat,
    category: Category,
    manifest: Seq<char>,
    entries: Seq<Seq<char>>,
)
    ensures
        only_descriptors_added(
            files,
            scaffold_entries(files, log, processed, category, manifest, entries).files,
        ),
    decreases entries.len(),
{
    if entries.len() > 0 {
        match resolve(manifest, entries[0]) {
            Err(_) => {},
            Ok(entity) => {
                let (f, l) = scaffold(files, log, category, entity);
                let rest = entries.skip(1);
                let after = scaffold_entries(f, l, processed, category, manifest, rest).files;
                lemma_entries_add_descriptors(f, l, processed, category, manifest, rest);
                lemma_entries_keep(f, l, processed, category, manifest, rest);
                assert forall|p: Seq<char>| #[trigger]
                    after.dom().contains(p) && !files.dom().contains(p) implies fresh_descriptor(
                    p,
                    after[p],
                ) by {
                    if f.dom().contains(p) {
                        let marker = descriptor_path(Descriptor::Marker, entity);
                        if p == marker {
                            assert(written_as(p, after[p], category, Descriptor::Marker, entity));
                        } else {
                            assert(written_as(
                                p,
                                after[p],
                                category,
                                Descriptor::Metadata,
                                entity,
                            ));
                        }
                    }
                }
            },
        }
    }
}

/// Going through the entries of the root manifest adds nothing but
/// descriptors fresh from their templates.
proof fn lemma_manifests_add_descriptors(
    files: Files,
    log: Seq<char>,
    processed: nat,
    base: Seq<char>,
    entries: Seq<Seq<char>>,
)
    ensures
        only_descriptors_added(files, sync_manifests(files, log, processed, base, entries).files),
    decreases entries.len(),
{
    if entries.len() > 0 {
        let rest = entries.skip(1);
        match category_of(entries[0]) {
            None => {
                lemma_manifests_add_descriptors(files, log, processed, base, rest);
            },
            Some(category) => {
                let manifest = joined(base, entries[0]);
                let subs = entries_at(files, manifest);
                let l = log + log_header(category);
                let p = scaffold_entries(files, l, processed + 1, category, manifest, subs);
                lemma_entries_add_descriptors(files, l, processed + 1, category, manifest, subs);
                if p.stopped is None {
                    let after = sync_manifests(p.files, p.log, p.processed, base, rest).files;
                    lemma_manifests_add_descriptors(p.files, p.log, p.processed, base, rest);
                    lemma_manifests_keep(p.files, p.log, p.processed, base, rest);
                    assert forall|q: Seq<char>| #[trigger]
                        after.dom().contains(q) && !files.dom().contains(q) implies fresh_descriptor(
                        q,
                        after[q],
                    ) by {
                        if p.files.dom().contains(q) {
                            assert(after[q] == p.files[q]);
                        }
                    }
                }
            },
        }
    }
}

/// A run adds no file but descriptors and the log: whatever else is in the
/// tree after a run and was not there before is a descriptor of some entity,
/// and holds the template for it.
pub proof fn lemma_only_descriptors_added(files: Files, root: Seq<char>, path: Seq<char>)
    requires
        run_on(files, root).files.dom().contains(path),
        !files.dom().contains(path),
        path != log_file(base_dir(root)),
    ensures
        fresh_descriptor(path, run_on(files, root).files[path]),
{
    lemma_run_is_sync(files, root);
    let base = base_dir(root);
    let at = root_manifest(base);
    if files.dom().contains(at) {
        lemma_manifests_add_descriptors(files, Seq::empty(), 0, base, manifest_entries(files[at]));
    }
}

/// No run overwrites a file: whatever was in the tree before a run is there
/// after it, with the text it had. The one exception is the log, which every
/// run that reaches its end writes anew.
pub proof fn lemma_no_overwrite(files: Files, root: Seq<char>, path: Seq<char>)
    requires
        files.dom().contains(path),
        path != log_file(base_dir(root)),
    ensures
        run_on(files, root).files.dom().contains(path),
        run_on(files, root).files[path] == files[path],
{
    lemma_run_is_sync(files, root);
    let base = base_dir(root);
    let at = root_manifest(base);
    if files.dom().contains(at) {
        lemma_manifests_keep(files, Seq::empty(), 0, base, manifest_entries(files[at]));
    }
}

/// A run fails for want of the root manifest exactly where the tree has none,
/// and then leaves the tree as it was.
pub proof fn lemma_unreadable_root(files: Files, root: Seq<char>)
    ensures
        !files.dom().contains(root_manifest(base_dir(root))) <==> run_on(files, root).end
            == (RequestView::Failed { failure: Failure::RootUnreadable }),
        !files.dom().contains(root_manifest(base_dir(root))) ==> run_on(files, root).files
            == files,
{
    lemma_run_is_sync(files, root);
}

/// The count that a run reports is the number of entries of the root
/// manifest that name a manifest of agents or of tools: each counts once,
/// whatever it lists and whether or not it can be read. The log that the run
/// leaves in the tree is the one it has gathered.
pub proof fn lemma_count(files: Files, root: Seq<char>)
    requires
        files.dom().contains(root_manifest(base_dir(root))),
        run_on(files, root).end is Finished,
    ensures
        run_on(files, root).end->Finished_processed == taken_up(
            manifest_entries(files[root_manifest(base_dir(root))]),
        ),
        run_on(files, root).end->Finished_log_path == log_file(base_dir(root)),
        run_on(files, root).files.dom().contains(log_file(base_dir(root))),
{
    lemma_run_is_sync(files, root);
    let base = base_dir(root);
    lemma_manifests_keep(
        files,
        Seq::empty(),
        0,
        base,
        manifest_entries(files[root_manifest(base)]),
    );
}

/// An entry of the root manifest that ends in neither suffix is passed over:
/// the work goes as if it were not there.
pub proof fn lemma_other_entry_ignored(
    files: Files,
    log: Seq<char>,
    processed: nat,
    base: Seq<char>,
    entry: Seq<char>,
    rest: Seq<Seq<char>>,
)
    requires
        !has_suffix(entry, "agent.marks"@),
        !has_suffix(entry, "tool.marks"@),
    ensures
        sync_manifests(files, log, processed, base, seq![entry] + rest) == sync_manifests(
            files,
            log,
            processed,
            base,
            rest,
        ),
{
    assert((seq![entry] + rest).skip(1) =~= rest);
}

/// An entry ends in at most one of the two suffixes, so the kind of a
/// manifest is that of the suffix its entry ends in.
pub proof fn lemma_category_by_suffix(entry: Seq<char>)
    ensures
        category_of(entry) == Some(Category::Agent) <==> has_suffix(entry, "agent.marks"@),
        category_of(entry) == Some(Category::Tool) <==> has_suffix(entry, "tool.marks"@),
        category_of(entry) is None <==> !has_suffix(entry, "agent.marks"@) && !has_suffix(
            entry,
            "tool.marks"@,
        ),
{
    reveal_strlit("agent.marks");
    reveal_strlit("tool.marks");
    let agent = "agent.marks"@;
    let tool = "tool.marks"@;
    if has_suffix(entry, agent) && has_suffix(entry, tool) {
        let n = entry.len() as int;
        assert(entry.skip(n - 11)[1] == agent[1]);
        assert(entry.skip(n - 10)[0] == tool[0]);
    }
}

/// An entry of the root manifest that ends in one of the two suffixes is
/// taken for a manifest of that kind: the log gets that kind's header, the
/// manifest is counted, and its entities are scaffolded from that kind's
/// templates. Only where none of its entries stopped the work are the entries
/// after it taken up.
pub proof fn lemma_entry_routed(
    files: Files,
    log: Seq<char>,
    processed: nat,
    base: Seq<char>,
    entry: Seq<char>,
    rest: Seq<Seq<char>>,
    category: Category,
)
    requires
        has_suffix(
            entry,
            match category {
                Category::Agent => "agent.marks"@,
                Category::Tool => "tool.marks"@,
            },
        ),
    ensures
        ({
            let manifest = joined(base, entry);
            let p = scaffold_entries(
                files,
                log + log_header(category),
                processed + 1,
                category,
                manifest,
                entries_at(files, manifest),
            );
            sync_manifests(files, log, processed, base, seq![entry] + rest) == if p.stopped
                is Some {
                p
            } else {
                sync_manifests(p.files, p.log, p.processed, base, rest)
            }
        }),
{
    lemma_category_by_suffix(entry);
    assert((seq![entry] + rest).skip(1) =~= rest);
}

/// Whether the `i`th entry of the root manifest names a manifest of agents or
/// of tools, and that manifest has a `j`th entry.
pub open spec fn listed(
    files: Files,
    base: Seq<char>,
    entries: Seq<Seq<char>>,
    i: int,
    j: int,
) -> bool {
    &&& 0 <= i < entries.len()
    &&& category_of(entries[i]) is Some
    &&& 0 <= j < entries_at(files, joined(base, entries[i])).len()
}

/// The entity that the `j`th entry of the `i`th manifest points at.
pub open spec fn entity_at(
    files: Files,
    base: Seq<char>,
    entries: Seq<Seq<char>>,
    i: int,
    j: int,
) -> Result<EntityView, ResolveError> {
    let manifest = joined(base, entries[i]);
    resolve(manifest, entries_at(files, manifest)[j])
}

/// Whether both descriptors of `entity` are among `files`.
pub open spec fn described(files: Files, entity: EntityView) -> bool {
    &&& files.dom().contains(descriptor_path(Descriptor::Marker, entity))
    &&& files.dom().contains(descriptor_path(Descriptor::Metadata, entity))
}

/// Whether every entry of every manifest that `entries` name points at an
/// entity, and every such entity has both its descriptors.
pub open spec fn complete_for(files: Files, base: Seq<char>, entries: Seq<Seq<char>>) -> bool {
    forall|i: int, j: int| #[trigger]
        listed(files, base, entries, i, j) ==> entity_at(files, base, entries, i, j) is Ok
            && described(files, entity_at(files, base, entries, i, j)->Ok_0)
}

/// Whether the tree under `root` has a root manifest, and every entity that
/// it leads to has both its descriptors.
pub open spec fn complete(files: Files, root: Seq<char>) -> bool {
    let base = base_dir(root);
    &&& files.dom().contains(root_manifest(base))
    &&& complete_for(files, base, manifest_entries(files[root_manifest(base)]))
}

/// Whether the root manifest of the tree under `root`, and every manifest
/// that it names, is in `after` as it is in `before`: there with the same
/// text, or missing.
pub open spec fn manifests_alike(before: Files, after: Files, root: Seq<char>) -> bool {
    let base = base_dir(root);
    let at = root_manifest(base);
    &&& text_at(after, at) == text_at(before, at)
    &&& before.dom().contains(at) ==> forall|i: int|
        0 <= i < manifest_entries(before[at]).len() && category_of(
            #[trigger] manifest_entries(before[at])[i],
        ) is Some ==> text_at(after, joined(base, manifest_entries(before[at])[i])) == text_at(
            before,
            joined(base, manifest_entries(before[at])[i]),
        )
}

/// A run leaves the manifests as they were where the root manifest and every
/// manifest that it names are in the tree, and none of them is the log.
pub proof fn lemma_present_manifests_alike(files: Files, root: Seq<char>)
    requires
        files.dom().contains(root_manifest(base_dir(root))),
        root_manifest(base_dir(root)) != log_file(base_dir(root)),
        forall|i: int|
            0 <= i < manifest_entries(files[root_manifest(base_dir(root))]).len() && category_of(
                #[trigger] manifest_entries(files[root_manifest(base_dir(root))])[i],
            ) is Some ==> files.dom().contains(
                joined(
                    base_dir(root),
                    manifest_entries(files[root_manifest(base_dir(root))])[i],
                ),
            ) && joined(base_dir(root), manifest_entries(files[root_manifest(base_dir(root))])[i])
                != log_file(base_dir(root)),
    ensures
        manifests_alike(files, run_on(files, root).files, root),
{
    let base = base_dir(root);
    let at = root_manifest(base);
    let entries = manifest_entries(files[at]);
    lemma_no_overwrite(files, root, at);
    assert forall|i: int| 0 <= i < entries.len() && category_of(#[trigger] entries[i])
        is Some implies text_at(run_on(files, root).files, joined(base, entries[i])) == text_at(
        files,
        joined(base, entries[i]),
    ) by {
        lemma_no_overwrite(files, root, joined(base, entries[i]));
    }
}

/// Where the entries of a manifest were gone through without a stop, each
/// of them points at an entity, and that entity has both descriptors.
proof fn lemma_entries_described(
    files: Files,
    log: Seq<char>,
    processed: nat,
    category: Category,
    manifest: Seq<char>,
    entries: Seq<Seq<char>>,
    j: int,
)
    requires
        scaffold_entries(files, log, processed, category, manifest, entries).stopped is None,
        0 <= j < entries.len(),
    ensures
        resolve(manifest, entries[j]) is Ok,
        described(
            scaffold_entries(files, log, processed, category, manifest, entries).files,
            resolve(manifest, entries[j])->Ok_0,
        ),
    decreases entries.len(),
{
    let entity = resolve(manifest, entries[0])->Ok_0;
    let (f, l) = scaffold(files, log, category, entity);
    let rest = entries.skip(1);
    if j == 0 {
        lemma_scaffold_creates(files, log, category, entity);
        lemma_entries_keep(f, l, processed, category, manifest, rest);
    } else {
        lemma_entries_described(f, l, processed, category, manifest, rest, j - 1);
    }
}

/// Where the entries of the root manifest were gone through without a stop,
/// every entity that the manifests led to has both descriptors.
proof fn lemma_manifests_described(
    files: Files,
    log: Seq<char>,
    processed: nat,
    base: Seq<char>,
    entries: Seq<Seq<char>>,
    i: int,
    j: int,
)
    requires
        sync_manifests(files, log, processed, base, entries).stopped is None,
        listed(files, base, entries, i, j),
    ensures
        entity_at(files, base, entries, i, j) is Ok,
        described(
            sync_manifests(files, log, processed, base, entries).files,
            entity_at(files, base, entries, i, j)->Ok_0,
        ),
    decreases entries.len(),
{
    let rest = entries.skip(1);
    match category_of(entries[0]) {
        None => {
            lemma_manifests_described(files, log, processed, base, rest, i - 1, j);
        },
        Some(category) => {
            let manifest = joined(base, entries[0]);
            let subs = entries_at(files, manifest);
            let l = log + log_header(category);
            let p = scaffold_entries(files, l, processed + 1, category, manifest, subs);
            lemma_entries_keep(files, l, processed + 1, category, manifest, subs);
            if i == 0 {
                lemma_entries_described(files, l, processed + 1, category, manifest, subs, j);
                lemma_manifests_keep(p.files, p.log, p.processed, base, rest);
            } else {
                let at = joined(base, entries[i]);
                assert(files.dom().contains(at));
                assert(entries_at(p.files, at) == entries_at(files, at));
                lemma_manifests_described(p.files, p.log, p.processed, base, rest, i - 1, j);
            }
        },
    }
}

/// After a run that reached its end, every entity that the manifests of the
/// tree led to has both its descriptors.
pub proof fn lemma_descriptors_present(files: Files, root: Seq<char>, i: int, j: int)
    requires
        files.dom().contains(root_manifest(base_dir(root))),
        run_on(files, root).end is Finished,
        listed(
            files,
            base_dir(root),
            manifest_entries(files[root_manifest(base_dir(root))]),
            i,
            j,
        ),
    ensures
        ({
            let base = base_dir(root);
            let entries = manifest_entries(files[root_manifest(base)]);
            &&& entity_at(files, base, entries, i, j) is Ok
            &&& described(run_on(files, root).files, entity_at(files, base, entries, i, j)->Ok_0)
        }),
{
    lemma_run_is_sync(files, root);
    let base = base_dir(root);
    let entries = manifest_entries(files[root_manifest(base)]);
    lemma_manifests_described(files, Seq::empty(), 0, base, entries, i, j);
}

/// Where every entry of a manifest points at an entity that has both
/// descriptors, going through them writes nothing and logs nothing.
proof fn lemma_entries_quiet(
    files: Files,
    log: Seq<char>,
    processed: nat,
    category: Category,
    manifest: Seq<char>,
    entries: Seq<Seq<char>>,
)
    requires
        forall|j: int|
            0 <= j < entries.len() ==> resolve(manifest, #[trigger] entries[j]) is Ok
                && described(files, resolve(manifest, entries[j])->Ok_0),
    ensures
        scaffold_entries(files, log, processed, category, manifest, entries) == (Progress {
            files,
            log,
            processed,
            stopped: None,
        }),
    decreases entries.len(),
{
    if entries.len() > 0 {
        let rest = entries.skip(1);
        assert(resolve(manifest, entries[0]) is Ok);
        assert forall|j: int| 0 <= j < rest.len() implies resolve(manifest, #[trigger] rest[j])
            is Ok && described(files, resolve(manifest, rest[j])->Ok_0) by {
            assert(rest[j] == entries[j + 1]);
        }
        lemma_entries_quiet(files, log, processed, category, manifest, rest);
    }
}

/// Where every entity that the manifests lead to has both descriptors, going
/// through the root manifest writes nothing, and the log gains the headers
/// alone.
proof fn lemma_manifests_quiet(
    files: Files,
    log: Seq<char>,
    processed: nat,
    base: Seq<char>,
    entries: Seq<Seq<char>>,
)
    requires
        complete_for(files, base, entries),
    ensures
        sync_manifests(files, log, processed, base, entries) == (Progress {
            files,
            log: log + headers(entries),
            processed: processed + taken_up(entries),
            stopped: None,
        }),
    decreases entries.len(),
{
    if entries.len() == 0 {
        assert(log + headers(entries) =~= log);
    } else {
        let rest = entries.skip(1);
        assert forall|i: int, j: int| #[trigger]
            listed(files, base, rest, i, j) implies entity_at(files, base, rest, i, j) is Ok
            && described(files, entity_at(files, base, rest, i, j)->Ok_0) by {
            assert(rest[i] == entries[i + 1]);
            assert(listed(files, base, entries, i + 1, j));
            assert(entity_at(files, base, rest, i, j) == entity_at(
                files,
                base,
                entries,
                i + 1,
                j,
            ));
        }
        match category_of(entries[0]) {
            None => {
                lemma_manifests_quiet(files, log, processed, base, rest);
            },
            Some(category) => {
                let manifest = joined(base, entries[0]);
                let subs = entries_at(files, manifest);
                let l = log + log_header(category);
                assert forall|j: int| 0 <= j < subs.len() implies resolve(
                    manifest,
                    #[trigger] subs[j],
                ) is Ok && described(files, resolve(manifest, subs[j])->Ok_0) by {
                    assert(listed(files, base, entries, 0, j));
                    assert(entity_at(files, base, entries, 0, j) == resolve(manifest, subs[j]));
                }
                lemma_entries_quiet(files, l, processed + 1, category, manifest, subs);
                lemma_manifests_quiet(files, l, processed + 1, base, rest);
                assert(l + headers(rest) =~= log + headers(entries));
            },
        }
    }
}

/// On a tree where every entity already has both descriptors, a run writes
/// the log and nothing else, and the log holds the headers alone: none of its
/// lines tells of a new file. The log that was there is replaced.
pub proof fn lemma_quiet_run(files: Files, root: Seq<char>)
    requires
        complete(files, root),
    ensures
        ({
            let base = base_dir(root);
            let entries = manifest_entries(files[root_manifest(base)]);
            run_on(files, root) == (Outcome {
                files: files.insert(log_file(base), headers(entries)),
                end: RequestView::Finished {
                    processed: taken_up(entries),
                    log_path: log_file(base),
                },
            })
        }),
{
    lemma_run_is_sync(files, root);
    let base = base_dir(root);
    let entries = manifest_entries(files[root_manifest(base)]);
    lemma_manifests_quiet(files, Seq::empty(), 0, base, entries);
    assert(Seq::<char>::empty() + headers(entries) =~= headers(entries));
}

/// A run that reached its end, and left the manifests as they were, leaves a
/// tree in which every entity has both its descriptors.
pub proof fn lemma_run_completes(files: Files, root: Seq<char>)
    requires
        run_on(files, root).end is Finished,
        manifests_alike(files, run_on(files, root).files, root),
    ensures
        complete(run_on(files, root).files, root),
{
    lemma_run_is_sync(files, root);
    let base = base_dir(root);
    let at = root_manifest(base);
    let after = run_on(files, root).files;
    let entries = manifest_entries(files[at]);
    assert forall|i: int, j: int| #[trigger] listed(after, base, entries, i, j) implies entity_at(
        after,
        base,
        entries,
        i,
        j,
    ) is Ok && described(after, entity_at(after, base, entries, i, j)->Ok_0) by {
        let manifest = joined(base, entries[i]);
        assert(text_at(after, manifest) == text_at(files, manifest));
        assert(listed(files, base, entries, i, j));
        lemma_descriptors_present(files, root, i, j);
    }
}

/// A second run changes nothing but the log. Where a run has reached its end
/// and left the manifests as they were, the run after it ends with the same
/// count, adds no file and changes none but the log, which now holds the
/// headers alone.
pub proof fn lemma_second_run_quiet(files: Files, root: Seq<char>)
    requires
        run_on(files, root).end is Finished,
        manifests_alike(files, run_on(files, root).files, root),
    ensures
        ({
            let base = base_dir(root);
            let entries = manifest_entries(files[root_manifest(base)]);
            let once = run_on(files, root);
            let twice = run_on(once.files, root);
            &&& twice.end == once.end
            &&& twice.files == once.files.insert(log_file(base), headers(entries))
            &&& twice.files.dom() == once.files.dom()
        }),
{
    lemma_run_is_sync(files, root);
    lemma_run_completes(files, root);
    let once = run_on(files, root);
    lemma_quiet_run(once.files, root);
    lemma_count(files, root);
    let base = base_dir(root);
    assert(once.files.insert(log_file(base), headers(
        manifest_entries(files[root_manifest(base)]),
    )).dom() =~= once.files.dom());
}

} // verus!
