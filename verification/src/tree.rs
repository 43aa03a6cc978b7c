//! A tree of files held in memory, and whole runs on it.

use crate::model::{answer, lemma_step_lighter, run_on, weight, Files, Outcome};
use crate::sync::{Reply, Request, Sync};
use vstd::prelude::*;

verus! {

/// The place of the first file of `entries` that is at `path`; the number of
/// entries where none is.
pub open spec fn place_of(entries: Seq<(String, String)>, path: Seq<char>) -> int
    decreases entries.len(),
{
    if entries.len() == 0 {
        0
    } else if entries[0].0@ == path {
        0
    } else {
        1 + place_of(entries.skip(1), path)
    }
}

/// The files that `entries` hold: each path with the text of the first entry
/// that has it.
pub open spec fn files_of(entries: Seq<(String, String)>) -> Files {
    Map::new(
        |path: Seq<char>| place_of(entries, path) < entries.len(),
        |path: Seq<char>| entries[place_of(entries, path)].1@,
    )
}

/// The place of a path is that of the first entry that has it.
pub proof fn lemma_place_of(entries: Seq<(String, String)>, path: Seq<char>, k: int)
    requires
        0 <= k <= entries.len(),
        forall|i: int| 0 <= i < k ==> entries[i].0@ != path,
        k == entries.len() || entries[k].0@ == path,
    ensures
        place_of(entries, path) == k,
    decreases k,
{
    if k > 0 {
        let rest = entries.skip(1);
        assert forall|i: int| 0 <= i < k - 1 implies rest[i].0@ != path by {
            assert(rest[i] == entries[i + 1]);
        }
        lemma_place_of(rest, path, k - 1);
    }
}

/// No entry before the place of a path has that path, and the entry at it
/// has, where there is one.
pub proof fn lemma_place_of_first(entries: Seq<(String, String)>, path: Seq<char>)
    ensures
        0 <= place_of(entries, path) <= entries.len(),
        forall|i: int| 0 <= i < place_of(entries, path) ==> entries[i].0@ != path,
        place_of(entries, path) < entries.len() ==> entries[place_of(entries, path)].0@ == path,
    decreases entries.len(),
{
    if entries.len() > 0 && entries[0].0@ != path {
        let rest = entries.skip(1);
        lemma_place_of_first(rest, path);
        assert forall|i: int| 0 <= i < place_of(entries, path) implies entries[i].0@ != path by {
            if i > 0 {
                assert(entries[i] == rest[i - 1]);
            }
        }
    }
}

/// A tree of files in memory: paths, each with a text.
pub struct Tree {
    entries: Vec<(String, String)>,
}

impl View for Tree {
    type V = Files;

    closed spec fn view(&self) -> Files {
        files_of(self.entries@)
    }
}

impl Tree {
    /// A tree without files.
    pub fn new() -> (tree: Tree)
        ensures
            tree@ == Map::<Seq<char>, Seq<char>>::empty(),
    {
        let tree = Tree { entries: Vec::new() };
        assert(tree@ =~= Map::<Seq<char>, Seq<char>>::empty());
        tree
    }

    fn find(&self, path: &str) -> (k: usize)
        ensures
            k == place_of(self.entries@, path@),
            k <= self.entries.len(),
    {
        let mut k: usize = 0;
        while k < self.entries.len() && !same_text(self.entries[k].0.as_str(), path)
            invariant
                k <= self.entries.len(),
                forall|i: int| 0 <= i < k ==> self.entries@[i].0@ != path@,
            decreases self.entries.len() - k,
        {
            k += 1;
        }
        proof {
            lemma_place_of(self.entries@, path@, k as int);
        }
        k
    }

    /// Whether the tree has a file at `path`.
    pub fn contains(&self, path: &str) -> (r: bool)
        ensures
            r == self@.dom().contains(path@),
    {
        self.find(path) < self.entries.len()
    }

    /// The text of the file at `path`, if the tree has one.
    pub fn get(&self, path: &str) -> (r: Option<String>)
        ensures
            r is Some == self@.dom().contains(path@),
            r matches Some(text) ==> text@ == self@[path@],
    {
        let k = self.find(path);
        if k < self.entries.len() {
            Some(self.entries[k].1.clone())
        } else {
            None
        }
    }

    /// The paths of the files of the tree.
    pub fn paths(&self) -> (r: Vec<String>)
        ensures
            forall|p: Seq<char>| r.deep_view().contains(p) <==> self@.dom().contains(p),
    {
        let mut r: Vec<String> = Vec::new();
        let mut k: usize = 0;
        while k < self.entries.len()
            invariant
                k <= self.entries.len(),
                r.len() == k,
                forall|i: int| 0 <= i < k ==> r@[i]@ == self.entries@[i].0@,
            decreases self.entries.len() - k,
        {
            r.push(self.entries[k].0.clone());
            k += 1;
        }
        proof {
            let paths = r.deep_view();
            assert forall|p: Seq<char>| paths.contains(p) <==> self@.dom().contains(p) by {
                lemma_place_of_first(self.entries@, p);
                if paths.contains(p) {
                    let i = choose|i: int| 0 <= i < paths.len() && paths[i] == p;
                    assert(self.entries@[i].0@ == p);
                }
                if self@.dom().contains(p) {
                    assert(paths[place_of(self.entries@, p)] == p);
                }
            }
        }
        r
    }

    /// Puts a file with the text `text` at `path`, in place of the one that
    /// may be there.
    pub fn insert(&mut self, path: String, text: String)
        ensures
            final(self)@ == old(self)@.insert(path@, text@),
    {
        let k = self.find(path.as_str());
        let ghost before = self.entries@;
        let ghost p = path@;
        let ghost t = text@;
        if k < self.entries.len() {
            self.entries.set(k, (path, text));
        } else {
            self.entries.push((path, text));
        }
        proof {
            let after = self.entries@;
            lemma_place_of_first(before, p);
            assert forall|q: Seq<char>|
                #![trigger files_of(after).dom().contains(q)]
                #![trigger files_of(after)[q]]
                files_of(after).dom().contains(q) == files_of(before).insert(
                    p,
                    t,
                ).dom().contains(q) && (files_of(after).dom().contains(q) ==> files_of(after)[q]
                    == files_of(before).insert(p, t)[q]) by {
                lemma_place_of_first(before, q);
                let want = if q == p {
                    k as int
                } else if place_of(before, q) < before.len() {
                    place_of(before, q)
                } else {
                    after.len() as int
                };
                lemma_place_of(after, q, want);
            }
            assert(files_of(after) =~= files_of(before).insert(p, t));
        }
    }
}

/// Whether two texts are the same.
fn same_text(a: &str, b: &str) -> (r: bool)
    ensures
        r == (a@ == b@),
{
    let x = String::from_str(a);
    let y = String::from_str(b);
    x == y
}

/// Runs the sync on the tree under `dir`, as far as `tree` holds it: every
/// request of the run is carried out on the tree, where every write succeeds.
/// The request that ended the run is returned.
pub fn run(dir: &str, tree: &mut Tree) -> (end: Request)
    ensures
        (Outcome { files: final(tree)@, end: end@ }) == run_on(old(tree)@, dir@),
{
    let (state, first) = Sync::start(dir);
    let mut state = state;
    let mut request = first;
    loop
        invariant
            crate::model::run(state@, request@, tree@) == run_on(old(tree)@, dir@),
        decreases
            weight(state@, request@).0,
            weight(state@, request@).1,
            weight(state@, request@).2,
            weight(state@, request@).3,
            weight(state@, request@).4,
    {
        let ghost files = tree@;
        let ghost asked = request@;
        let ghost was = state@;
        let reply = match request {
            Request::Read { path } => Reply::Text(tree.get(path.as_str())),
            Request::Probe { path } => Reply::Found(tree.contains(path.as_str())),
            Request::Write { path, content } => {
                tree.insert(path, content);
                Reply::Written(true)
            },
            Request::MakeDir { path } => Reply::Written(true),
            Request::Finished { processed, log_path } => {
                return Request::Finished { processed, log_path };
            },
            Request::Failed { failure } => {
                return Request::Failed { failure };
            },
        };
        proof {
            assert((tree@, reply@) == answer(files, asked));
            lemma_step_lighter(was, asked, reply@);
        }
        let (next_state, next_request) = state.step(reply);
        state = next_state;
        request = next_request;
    }
}

} // verus!
