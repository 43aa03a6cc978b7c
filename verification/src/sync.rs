//! The run as a machine. Reading and writing files is the caller's part: the
//! machine asks for one thing at a time, is told how it went, and decides
//! what comes next.

use crate::entity::{resolve, resolve_entity, Entity, EntityView, ResolveError};
use crate::manifest::{manifest_entries, parse_manifest};
use crate::paths::{join, joined};
use crate::template::{
    category_of, created_line, descriptor_path, log_header, template, Category, Descriptor,
};
use vstd::prelude::*;

verus! {

/// Why a run ended without a log.
#[derive(Clone, Copy, Debug, PartialEq, Eq, Structural)]
pub enum Failure {
    /// The root manifest could not be read.
    RootUnreadable,
    /// An entry of a manifest names no entity.
    Unresolved(ResolveError),
    /// A descriptor, the directory of the log or the log could not be written.
    NotWritten,
    /// The reply does not answer the request that was made.
    Unexpected,
}

/// What the machine asks of its caller.
#[derive(Debug, PartialEq, Eq)]
pub enum Request {
    /// Read the file at `path` as text.
    Read { path: String },
    /// Say whether anything exists at `path`.
    Probe { path: String },
    /// Write `content` to the file at `path`, in place of what it may hold.
    Write { path: String, content: String },
    /// Make sure that the directory `path` exists.
    MakeDir { path: String },
    /// The run is over: so many manifests were gone through, and the log is at
    /// `log_path`.
    Finished { processed: usize, log_path: String },
    /// The run is over, and has failed.
    Failed { failure: Failure },
}

/// A request as contracts see it.
pub enum RequestView {
    Read { path: Seq<char> },
    Probe { path: Seq<char> },
    Write { path: Seq<char>, content: Seq<char> },
    MakeDir { path: Seq<char> },
    Finished { processed: nat, log_path: Seq<char> },
    Failed { failure: Failure },
}

impl View for Request {
    type V = RequestView;

    open spec fn view(&self) -> RequestView {
        match self {
            Request::Read { path } => RequestView::Read { path: path@ },
            Request::Probe { path } => RequestView::Probe { path: path@ },
            Request::Write { path, content } => RequestView::Write {
                path: path@,
                content: content@,
            },
            Request::MakeDir { path } => RequestView::MakeDir { path: path@ },
            Request::Finished { processed, log_path } => RequestView::Finished {
                processed: *processed as nat,
                log_path: log_path@,
            },
            Request::Failed { failure } => RequestView::Failed { failure: *failure },
        }
    }
}

impl RequestView {
    /// Whether the request ends the run.
    pub open spec fn is_final(self) -> bool {
        self is Finished || self is Failed
    }
}

/// What the caller tells the machine of its last request.
#[derive(Debug, PartialEq, Eq)]
pub enum Reply {
    /// To `Read`: the text of the file, or nothing where it could not be read.
    Text(Option<String>),
    /// To `Probe`: whether something is there.
    Found(bool),
    /// To `Write` and `MakeDir`: whether it was done.
    Written(bool),
}

/// A reply as contracts see it.
pub enum ReplyView {
    Text(Option<Seq<char>>),
    Found(bool),
    Written(bool),
}

impl View for Reply {
    type V = ReplyView;

    open spec fn view(&self) -> ReplyView {
        match self {
            Reply::Text(Some(text)) => ReplyView::Text(Some(text@)),
            Reply::Text(None) => ReplyView::Text(None),
            Reply::Found(found) => ReplyView::Found(*found),
            Reply::Written(done) => ReplyView::Written(*done),
        }
    }
}

/// Where a run stands: what the machine is waiting to hear of.
#[derive(Clone, Copy, Debug, PartialEq, Eq, Structural)]
pub enum Phase {
    /// The text of the root manifest.
    Root,
    /// The text of a manifest that the root manifest lists.
    Manifest,
    /// Whether a descriptor of the entity at hand exists.
    Probing(Descriptor),
    /// Whether a descriptor of the entity at hand was written.
    Creating(Descriptor),
    /// Whether the directory of the log is there.
    Dir,
    /// Whether the log was written.
    Log,
    /// Nothing: the run is over.
    Halted,
}

/// The state of a run as contracts see it.
pub struct SyncView {
    pub phase: Phase,
    /// The directory that holds the root manifest and the log's directory.
    pub base: Seq<char>,
    /// The entries of the root manifest that have not been looked at.
    pub entries: Seq<Seq<char>>,
    /// The kind of entity that the manifest at hand lists.
    pub category: Category,
    /// The path of the manifest at hand.
    pub manifest: Seq<char>,
    /// The entries of the manifest at hand that have not been looked at.
    pub sub_entries: Seq<Seq<char>>,
    /// The entity at hand.
    pub entity: EntityView,
    /// The log so far.
    pub log: Seq<char>,
    /// How many manifests have been taken up.
    pub processed: nat,
}

/// The directory under `root` that holds the root manifest.
pub open spec fn base_dir(root: Seq<char>) -> Seq<char> {
    joined(root, ".mark"@)
}

/// The path of the root manifest.
pub open spec fn root_manifest(base: Seq<char>) -> Seq<char> {
    joined(base, "mark.mstp"@)
}

/// The directory of the log.
pub open spec fn cache_dir(base: Seq<char>) -> Seq<char> {
    joined(base, "cache"@)
}

/// The path of the log.
pub open spec fn log_file(base: Seq<char>) -> Seq<char> {
    joined(cache_dir(base), "sync.log"@)
}

/// The state and the request that a run under `root` begins with: the root
/// manifest is to be read.
pub open spec fn start_spec(root: Seq<char>) -> (SyncView, RequestView) {
    (
        SyncView {
            phase: Phase::Root,
            base: base_dir(root),
            entries: Seq::empty(),
            category: Category::Agent,
            manifest: Seq::empty(),
            sub_entries: Seq::empty(),
            entity: EntityView { dir: Seq::empty(), name: Seq::empty() },
            log: Seq::empty(),
            processed: 0,
        },
        RequestView::Read { path: root_manifest(base_dir(root)) },
    )
}

/// The run ends in failure.
pub open spec fn halt(s: SyncView, failure: Failure) -> (SyncView, RequestView) {
    (SyncView { phase: Phase::Halted, ..s }, RequestView::Failed { failure })
}

/// Takes up the next manifest that the root manifest lists: entries that end
/// in neither suffix are passed over; for the first that does, its part of
/// the log is opened, it is counted, and it is to be read. Where none is
/// left, the directory of the log is to be made.
pub open spec fn next_manifest(s: SyncView) -> (SyncView, RequestView)
    decreases s.entries.len(),
{
    if s.entries.len() == 0 {
        (SyncView { phase: Phase::Dir, ..s }, RequestView::MakeDir { path: cache_dir(s.base) })
    } else {
        let entry = s.entries[0];
        let rest = s.entries.skip(1);
        match category_of(entry) {
            None => next_manifest(SyncView { entries: rest, ..s }),
            Some(category) => {
                let manifest = joined(s.base, entry);
                (
                    SyncView {
                        phase: Phase::Manifest,
                        entries: rest,
                        category,
                        manifest,
                        log: s.log + log_header(category),
                        processed: s.processed + 1,
                        ..s
                    },
                    RequestView::Read { path: manifest },
                )
            },
        }
    }
}

/// Takes up the next entry of the manifest at hand: its entity is found, and
/// the marker of that entity is to be probed. An entry that names no entity
/// ends the run. Where no entry is left, the next manifest is taken up.
pub open spec fn next_entity(s: SyncView) -> (SyncView, RequestView) {
    if s.sub_entries.len() == 0 {
        next_manifest(s)
    } else {
        match resolve(s.manifest, s.sub_entries[0]) {
            Err(e) => halt(s, Failure::Unresolved(e)),
            Ok(entity) => (
                SyncView {
                    phase: Phase::Probing(Descriptor::Marker),
                    sub_entries: s.sub_entries.skip(1),
                    entity,
                    ..s
                },
                RequestView::Probe { path: descriptor_path(Descriptor::Marker, entity) },
            ),
        }
    }
}

/// Goes on after the descriptor `kind` of the entity at hand: after the
/// marker its metadata is to be probed, after the metadata the next entry is
/// taken up.
pub open spec fn after_descriptor(s: SyncView, kind: Descriptor) -> (SyncView, RequestView) {
    match kind {
        Descriptor::Marker => (
            SyncView { phase: Phase::Probing(Descriptor::Metadata), ..s },
            RequestView::Probe { path: descriptor_path(Descriptor::Metadata, s.entity) },
        ),
        Descriptor::Metadata => next_entity(s),
    }
}

/// The state that follows `s`, and the next request, once the caller has
/// answered `reply` to the request that led to `s`.
///
/// An unreadable root manifest ends the run; an unreadable manifest below it
/// counts as one without entries. A descriptor that exists is left alone; one
/// that is missing is to be written from its template, and is entered in the
/// log once that is done. When every manifest has been gone through, the log
/// is written. Anything that could not be written ends the run, and so does
/// a reply of the wrong kind.
pub open spec fn step_spec(s: SyncView, reply: ReplyView) -> (SyncView, RequestView) {
    match (s.phase, reply) {
        (Phase::Root, ReplyView::Text(Some(text))) => next_manifest(
            SyncView { entries: manifest_entries(text), ..s },
        ),
        (Phase::Root, ReplyView::Text(None)) => halt(s, Failure::RootUnreadable),
        (Phase::Manifest, ReplyView::Text(Some(text))) => next_entity(
            SyncView { sub_entries: manifest_entries(text), ..s },
        ),
        (Phase::Manifest, ReplyView::Text(None)) => next_entity(
            SyncView { sub_entries: Seq::empty(), ..s },
        ),
        (Phase::Probing(kind), ReplyView::Found(true)) => after_descriptor(s, kind),
        (Phase::Probing(kind), ReplyView::Found(false)) => (
            SyncView { phase: Phase::Creating(kind), ..s },
            RequestView::Write {
                path: descriptor_path(kind, s.entity),
                content: template(s.category, kind, s.entity.name),
            },
        ),
        (Phase::Creating(kind), ReplyView::Written(true)) => after_descriptor(
            SyncView {
                log: s.log + created_line(s.category, kind, descriptor_path(kind, s.entity)),
                ..s
            },
            kind,
        ),
        (Phase::Creating(_), ReplyView::Written(false)) => halt(s, Failure::NotWritten),
        (Phase::Dir, ReplyView::Written(true)) => (
            SyncView { phase: Phase::Log, ..s },
            RequestView::Write { path: log_file(s.base), content: s.log },
        ),
        (Phase::Dir, ReplyView::Written(false)) => halt(s, Failure::NotWritten),
        (Phase::Log, ReplyView::Written(true)) => (
            SyncView { phase: Phase::Halted, ..s },
            RequestView::Finished { processed: s.processed, log_path: log_file(s.base) },
        ),
        (Phase::Log, ReplyView::Written(false)) => halt(s, Failure::NotWritten),
        _ => halt(s, Failure::Unexpected),
    }
}

/// The state of a run.
pub struct Sync {
    phase: Phase,
    base: String,
    entries: Vec<String>,
    next: usize,
    category: Category,
    manifest: String,
    sub_entries: Vec<String>,
    sub_next: usize,
    entity: Entity,
    log: String,
    processed: usize,
}

impl View for Sync {
    type V = SyncView;

    closed spec fn view(&self) -> SyncView {
        SyncView {
            phase: self.phase,
            base: self.base@,
            entries: self.entries.deep_view().skip(self.next as int),
            category: self.category,
            manifest: self.manifest@,
            sub_entries: self.sub_entries.deep_view().skip(self.sub_next as int),
            entity: self.entity@,
            log: self.log@,
            processed: self.processed as nat,
        }
    }
}

impl Sync {
    #[verifier::type_invariant]
    spec fn inv(self) -> bool {
        &&& self.next <= self.entries.len()
        &&& self.sub_next <= self.sub_entries.len()
        &&& self.processed <= self.next
        &&& self.phase == Phase::Root ==> self.processed == 0
    }

    /// Begins a run on the tree under `root`.
    pub fn start(root: &str) -> (r: (Sync, Request))
        ensures
            (r.0@, r.1@) == start_spec(root@),
    {
        let base = join(root, ".mark");
        let path = join(base.as_str(), "mark.mstp");
        let s = Sync {
            phase: Phase::Root,
            base,
            entries: Vec::new(),
            next: 0,
            category: Category::Agent,
            manifest: String::new(),
            sub_entries: Vec::new(),
            sub_next: 0,
            entity: Entity { dir: String::new(), name: String::new() },
            log: String::new(),
            processed: 0,
        };
        assert(s@.entries =~= Seq::empty());
        assert(s@.sub_entries =~= Seq::empty());
        (s, Request::Read { path })
    }

    /// Takes the caller's `reply` to the last request, and says what is to
    /// be done next.
    pub fn step(self, reply: Reply) -> (r: (Sync, Request))
        ensures
            (r.0@, r.1@) == step_spec(self@, reply@),
    {
        proof {
            use_type_invariant(&self);
        }
        match (self.phase, reply) {
            (Phase::Root, Reply::Text(Some(text))) => {
                let entries = parse_manifest(text.as_str());
                assert(entries.deep_view().skip(0) =~= entries.deep_view());
                let s = Sync { entries, next: 0, processed: 0, ..self };
                s.take_manifest()
            },
            (Phase::Root, Reply::Text(None)) => self.halted(Failure::RootUnreadable),
            (Phase::Manifest, Reply::Text(Some(text))) => {
                let sub_entries = parse_manifest(text.as_str());
                assert(sub_entries.deep_view().skip(0) =~= sub_entries.deep_view());
                let s = Sync { sub_entries, sub_next: 0, ..self };
                s.take_entity()
            },
            (Phase::Manifest, Reply::Text(None)) => {
                let sub_entries: Vec<String> = Vec::new();
                assert(sub_entries.deep_view().skip(0) =~= Seq::empty());
                let s = Sync { sub_entries, sub_next: 0, ..self };
                s.take_entity()
            },
            (Phase::Probing(kind), Reply::Found(true)) => self.descriptor_done(kind),
            (Phase::Probing(kind), Reply::Found(false)) => {
                let path = kind.path(&self.entity);
                let content = self.category.render(kind, self.entity.name.as_str());
                (Sync { phase: Phase::Creating(kind), ..self }, Request::Write { path, content })
            },
            (Phase::Creating(kind), Reply::Written(true)) => {
                let path = kind.path(&self.entity);
                let line = self.category.created(kind, path.as_str());
                let Sync {
                    phase,
                    base,
                    entries,
                    next,
                    category,
                    manifest,
                    sub_entries,
                    sub_next,
                    entity,
                    log,
                    processed,
                } = self;
                let mut log = log;
                log.append(line.as_str());
                let s = Sync {
                    phase,
                    base,
                    entries,
                    next,
                    category,
                    manifest,
                    sub_entries,
                    sub_next,
                    entity,
                    log,
                    processed,
                };
                s.descriptor_done(kind)
            },
            (Phase::Creating(_), Reply::Written(false)) => self.halted(Failure::NotWritten),
            (Phase::Dir, Reply::Written(true)) => {
                let cache = join(self.base.as_str(), "cache");
                let path = join(cache.as_str(), "sync.log");
                let content = self.log.clone();
                (Sync { phase: Phase::Log, ..self }, Request::Write { path, content })
            },
            (Phase::Dir, Reply::Written(false)) => self.halted(Failure::NotWritten),
            (Phase::Log, Reply::Written(true)) => {
                let cache = join(self.base.as_str(), "cache");
                let log_path = join(cache.as_str(), "sync.log");
                let processed = self.processed;
                (Sync { phase: Phase::Halted, ..self }, Request::Finished { processed, log_path })
            },
            (Phase::Log, Reply::Written(false)) => self.halted(Failure::NotWritten),
            _ => self.halted(Failure::Unexpected),
        }
    }

    /// Where the run stands.
    pub fn phase(&self) -> (r: Phase)
        ensures
            r == self@.phase,
    {
        self.phase
    }

    /// The log so far.
    pub fn log(&self) -> (r: &str)
        ensures
            r@ == self@.log,
    {
        self.log.as_str()
    }

    /// How many manifests have been taken up so far.
    pub fn processed(&self) -> (r: usize)
        ensures
            r == self@.processed,
    {
        self.processed
    }

    fn halted(self, failure: Failure) -> (r: (Sync, Request))
        ensures
            (r.0@, r.1@) == halt(self@, failure),
    {
        proof {
            use_type_invariant(&self);
        }
        (Sync { phase: Phase::Halted, ..self }, Request::Failed { failure })
    }

    fn take_manifest(self) -> (r: (Sync, Request))
        ensures
            (r.0@, r.1@) == next_manifest(self@),
    {
        proof {
            use_type_invariant(&self);
        }
        let ghost s0 = self@;
        let Sync {
            phase,
            base,
            entries,
            next,
            category,
            manifest,
            sub_entries,
            sub_next,
            entity,
            log,
            processed,
        } = self;
        let mut next = next;
        while next < entries.len()
            invariant
                next <= entries.len(),
                processed <= next,
                sub_next <= sub_entries.len(),
                s0 == self@,
                s0.base == base@,
                s0.log == log@,
                s0.processed == processed,
                s0.sub_entries == sub_entries.deep_view().skip(sub_next as int),
                s0.entity == entity@,
                next_manifest(s0) == next_manifest(
                    SyncView { entries: entries.deep_view().skip(next as int), ..s0 },
                ),
            decreases entries.len() - next,
        {
            let ghost rest = entries.deep_view().skip(next as int);
            assert(rest[0] == entries[next as int]@);
            assert(rest.skip(1) =~= entries.deep_view().skip(next + 1));
            match Category::of_entry(entries[next].as_str()) {
                Some(found) => {
                    let path = join(base.as_str(), entries[next].as_str());
                    let mut log = log;
                    log.append(found.header());
                    let request = Request::Read { path: path.clone() };
                    let s = Sync {
                        phase: Phase::Manifest,
                        base,
                        entries,
                        next: next + 1,
                        category: found,
                        manifest: path,
                        sub_entries,
                        sub_next,
                        entity,
                        log,
                        processed: processed + 1,
                    };
                    return (s, request);
                },
                None => {
                    next += 1;
                },
            }
        }
        assert(entries.deep_view().skip(next as int).len() == 0);
        let path = join(base.as_str(), "cache");
        let s = Sync {
            phase: Phase::Dir,
            base,
            entries,
            next,
            category,
            manifest,
            sub_entries,
            sub_next,
            entity,
            log,
            processed,
        };
        (s, Request::MakeDir { path })
    }

    fn take_entity(self) -> (r: (Sync, Request))
        ensures
            (r.0@, r.1@) == next_entity(self@),
    {
        proof {
            use_type_invariant(&self);
        }
        if self.sub_next < self.sub_entries.len() {
            let ghost rest = self.sub_entries.deep_view().skip(self.sub_next as int);
            assert(rest[0] == self.sub_entries[self.sub_next as int]@);
            assert(rest.skip(1) =~= self.sub_entries.deep_view().skip(self.sub_next + 1));
            match resolve_entity(
                self.manifest.as_str(),
                self.sub_entries[self.sub_next].as_str(),
            ) {
                Err(e) => self.halted(Failure::Unresolved(e)),
                Ok(entity) => {
                    let path = Descriptor::Marker.path(&entity);
                    let sub_next = self.sub_next + 1;
                    (
                        Sync {
                            phase: Phase::Probing(Descriptor::Marker),
                            sub_next,
                            entity,
                            ..self
                        },
                        Request::Probe { path },
                    )
                },
            }
        } else {
            assert(self.sub_entries.deep_view().skip(self.sub_next as int).len() == 0);
            self.take_manifest()
        }
    }

    fn descriptor_done(self, kind: Descriptor) -> (r: (Sync, Request))
        ensures
            (r.0@, r.1@) == after_descriptor(self@, kind),
    {
        proof {
            use_type_invariant(&self);
        }
        match kind {
            Descriptor::Marker => {
                let path = Descriptor::Metadata.path(&self.entity);
                (
                    Sync { phase: Phase::Probing(Descriptor::Metadata), ..self },
                    Request::Probe { path },
                )
            },
            Descriptor::Metadata => self.take_entity(),
        }
    }
}

} // verus!
