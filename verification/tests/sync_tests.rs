use mark_sync::entity::ResolveError;
use mark_sync::sync::{Failure, Phase, Reply, Request, Sync};
use mark_sync::template::Descriptor;
use mark_sync::tree::{run, Tree};

const AGENT_MARKER: &str =
    "# Marker: AutoGenerated\n\n### Trigger\nUnknown\n\n### Effect\nUnspecified\n";
const TOOL_MARKER: &str =
    "# Marker: AutoGenerated\n\n## Trigger\nIdle\n\n## Effect\nTool Activation\n";
const LOG: &str = "r/.mark/cache/sync.log";

fn tree_of(files: &[(&str, &str)]) -> Tree {
    let mut tree = Tree::new();
    for (path, text) in files {
        tree.insert(path.to_string(), text.to_string());
    }
    tree
}

fn sorted_paths(tree: &Tree) -> Vec<String> {
    let mut paths = tree.paths();
    paths.sort();
    paths
}

fn text(tree: &Tree, path: &str) -> String {
    match tree.get(path) {
        Some(text) => text,
        None => panic!("no file at {}", path),
    }
}

fn finished(processed: usize) -> Request {
    Request::Finished { processed, log_path: LOG.to_string() }
}

fn read(path: &str) -> Request {
    Request::Read { path: path.to_string() }
}

fn probe(path: &str) -> Request {
    Request::Probe { path: path.to_string() }
}

fn write(path: &str, content: &str) -> Request {
    Request::Write { path: path.to_string(), content: content.to_string() }
}

fn example_tree() -> Tree {
    tree_of(&[
        ("r/.mark/mark.mstp", "- agents/a.agent.marks\n"),
        ("r/.mark/agents/a.agent.marks", "- foo/ref.txt\n"),
    ])
}

#[test]
fn tree_keeps_what_was_put_in() {
    let mut tree = Tree::new();
    assert!(!tree.contains("a"));
    assert_eq!(tree.get("a"), None);
    tree.insert("a".to_string(), "one".to_string());
    tree.insert("b".to_string(), "two".to_string());
    tree.insert("a".to_string(), "three".to_string());
    assert!(tree.contains("a"));
    assert_eq!(tree.get("a"), Some("three".to_string()));
    assert_eq!(tree.get("b"), Some("two".to_string()));
    assert_eq!(tree.get("c"), None);
    assert_eq!(sorted_paths(&tree), vec!["a", "b"]);
}

#[test]
fn example_run_end_to_end() {
    let mut tree = example_tree();
    let end = run("r", &mut tree);
    assert_eq!(end, finished(1));
    assert_eq!(text(&tree, "r/.mark/agents/foo/markers.foo"), AGENT_MARKER);
    assert_eq!(
        text(&tree, "r/.mark/agents/foo/md.foo"),
        "# Agent: foo\n\n## Capabilities\n- Unknown\n\n## Ethics\n- TBD\n"
    );
    assert_eq!(
        text(&tree, LOG),
        "\n--- Agent Sync ---\n\u{1f9e0} Created: r/.mark/agents/foo/markers.foo\n\u{1f9ec} Created: r/.mark/agents/foo/md.foo\n"
    );
    assert_eq!(
        sorted_paths(&tree),
        vec![
            "r/.mark/agents/a.agent.marks",
            "r/.mark/agents/foo/markers.foo",
            "r/.mark/agents/foo/md.foo",
            "r/.mark/cache/sync.log",
            "r/.mark/mark.mstp",
        ]
    );
}

#[test]
fn manifest_in_a_directory_of_its_own() {
    let mut tree = tree_of(&[
        ("r/.mark/mark.mstp", "- agents/a/agent.marks\n"),
        ("r/.mark/agents/a/agent.marks", "- foo/ref.txt\n"),
    ]);
    assert_eq!(run("r", &mut tree), finished(1));
    assert!(tree.contains("r/.mark/agents/a/foo/markers.foo"));
    assert!(tree.contains("r/.mark/agents/a/foo/md.foo"));
}

#[test]
fn second_run_creates_nothing() {
    let mut tree = example_tree();
    assert_eq!(run("r", &mut tree), finished(1));
    let paths_once = sorted_paths(&tree);
    let marker_once = text(&tree, "r/.mark/agents/foo/markers.foo");
    let metadata_once = text(&tree, "r/.mark/agents/foo/md.foo");
    assert_eq!(run("r", &mut tree), finished(1));
    assert_eq!(sorted_paths(&tree), paths_once);
    assert_eq!(text(&tree, "r/.mark/agents/foo/markers.foo"), marker_once);
    assert_eq!(text(&tree, "r/.mark/agents/foo/md.foo"), metadata_once);
    assert_eq!(text(&tree, LOG), "\n--- Agent Sync ---\n");
}

#[test]
fn missing_descriptors_are_created_for_tools() {
    let mut tree = tree_of(&[
        ("r/.mark/mark.mstp", "- tools/tool.marks\n"),
        ("r/.mark/tools/tool.marks", "- saw/readme\n"),
    ]);
    assert_eq!(run("r", &mut tree), finished(1));
    assert_eq!(text(&tree, "r/.mark/tools/saw/markers.saw"), TOOL_MARKER);
    assert_eq!(
        text(&tree, "r/.mark/tools/saw/md.saw"),
        "# Tool: saw\n\n## Intent\nDescribe use here\n\n## Example Output\nExample\n"
    );
    assert_eq!(
        text(&tree, LOG),
        "\n--- Tool Sync ---\n\u{1f516} Created: r/.mark/tools/saw/markers.saw\n\u{1f6e0}\u{fe0f} Created: r/.mark/tools/saw/md.saw\n"
    );
}

#[test]
fn existing_marker_is_left_alone() {
    let mut tree = example_tree();
    tree.insert("r/.mark/agents/foo/markers.foo".to_string(), "my own marker".to_string());
    assert_eq!(run("r", &mut tree), finished(1));
    assert_eq!(text(&tree, "r/.mark/agents/foo/markers.foo"), "my own marker");
    assert_eq!(
        text(&tree, "r/.mark/agents/foo/md.foo"),
        "# Agent: foo\n\n## Capabilities\n- Unknown\n\n## Ethics\n- TBD\n"
    );
    assert_eq!(
        text(&tree, LOG),
        "\n--- Agent Sync ---\n\u{1f9ec} Created: r/.mark/agents/foo/md.foo\n"
    );
}

#[test]
fn existing_metadata_is_left_alone() {
    let mut tree = example_tree();
    tree.insert("r/.mark/agents/foo/md.foo".to_string(), String::new());
    assert_eq!(run("r", &mut tree), finished(1));
    assert_eq!(text(&tree, "r/.mark/agents/foo/markers.foo"), AGENT_MARKER);
    assert_eq!(text(&tree, "r/.mark/agents/foo/md.foo"), "");
    assert_eq!(
        text(&tree, LOG),
        "\n--- Agent Sync ---\n\u{1f9e0} Created: r/.mark/agents/foo/markers.foo\n"
    );
}

#[test]
fn entries_are_routed_by_their_suffix() {
    let mut tree = tree_of(&[
        ("r/.mark/mark.mstp", "- a/agent.marks\n- t/tool.marks\n- other/list.txt\n"),
        ("r/.mark/a/agent.marks", "- x/f\n"),
        ("r/.mark/t/tool.marks", "- y/f\n"),
        ("r/.mark/other/list.txt", "- z/f\n"),
    ]);
    assert_eq!(run("r", &mut tree), finished(2));
    assert_eq!(text(&tree, "r/.mark/a/x/markers.x"), AGENT_MARKER);
    assert_eq!(text(&tree, "r/.mark/t/y/markers.y"), TOOL_MARKER);
    assert!(text(&tree, "r/.mark/a/x/md.x").starts_with("# Agent: x\n"));
    assert!(text(&tree, "r/.mark/t/y/md.y").starts_with("# Tool: y\n"));
    assert!(!tree.contains("r/.mark/other/z/markers.z"));
    assert!(!tree.contains("r/.mark/other/z/md.z"));
    assert_eq!(
        text(&tree, LOG),
        "\n--- Agent Sync ---\n\u{1f9e0} Created: r/.mark/a/x/markers.x\n\u{1f9ec} Created: r/.mark/a/x/md.x\n\n--- Tool Sync ---\n\u{1f516} Created: r/.mark/t/y/markers.y\n\u{1f6e0}\u{fe0f} Created: r/.mark/t/y/md.y\n"
    );
    assert_eq!(sorted_paths(&tree).len(), 9);
}

#[test]
fn count_is_of_manifests_not_of_entities() {
    let mut tree = tree_of(&[
        ("r/.mark/mark.mstp", "- one.agent.marks\n- two.agent.marks\n- readme.md\n"),
        ("r/.mark/one.agent.marks", "- a/f\n- b/f\n- c/f\n"),
        ("r/.mark/two.agent.marks", ""),
    ]);
    assert_eq!(run("r", &mut tree), finished(2));
    assert_eq!(sorted_paths(&tree).len(), 10);
}

#[test]
fn run_without_creations_still_writes_the_log() {
    let mut tree = example_tree();
    tree.insert("r/.mark/agents/foo/markers.foo".to_string(), "m".to_string());
    tree.insert("r/.mark/agents/foo/md.foo".to_string(), "d".to_string());
    tree.insert(LOG.to_string(), "log of an earlier run\n".to_string());
    assert_eq!(run("r", &mut tree), finished(1));
    assert_eq!(text(&tree, LOG), "\n--- Agent Sync ---\n");
    assert_eq!(text(&tree, "r/.mark/agents/foo/markers.foo"), "m");
    assert_eq!(text(&tree, "r/.mark/agents/foo/md.foo"), "d");
    assert_eq!(sorted_paths(&tree).len(), 5);
}

#[test]
fn unreadable_root_manifest_writes_nothing() {
    let mut tree = tree_of(&[("r/.mark/agents/a.agent.marks", "- foo/ref.txt\n")]);
    assert_eq!(run("r", &mut tree), Request::Failed { failure: Failure::RootUnreadable });
    assert_eq!(sorted_paths(&tree), vec!["r/.mark/agents/a.agent.marks"]);
}

#[test]
fn unreadable_manifest_counts_and_lists_nothing() {
    let mut tree = tree_of(&[("r/.mark/mark.mstp", "- gone.agent.marks\n- t.tool.marks\n")]);
    assert_eq!(run("r", &mut tree), finished(2));
    assert_eq!(text(&tree, LOG), "\n--- Agent Sync ---\n\n--- Tool Sync ---\n");
    assert_eq!(sorted_paths(&tree), vec!["r/.mark/cache/sync.log", "r/.mark/mark.mstp"]);
}

#[test]
fn empty_root_manifest_gives_an_empty_log() {
    let mut tree = tree_of(&[("r/.mark/mark.mstp", "")]);
    assert_eq!(run("r", &mut tree), finished(0));
    assert_eq!(text(&tree, LOG), "");
}

#[test]
fn entity_named_twice_is_written_once() {
    let mut tree = tree_of(&[
        ("r/.mark/mark.mstp", "- a.agent.marks\n- t.tool.marks\n"),
        ("r/.mark/a.agent.marks", "- foo/one\n- foo/two\n"),
        ("r/.mark/t.tool.marks", "- foo/three\n"),
    ]);
    assert_eq!(run("r", &mut tree), finished(2));
    assert_eq!(text(&tree, "r/.mark/foo/markers.foo"), AGENT_MARKER);
    assert_eq!(
        text(&tree, LOG),
        "\n--- Agent Sync ---\n\u{1f9e0} Created: r/.mark/foo/markers.foo\n\u{1f9ec} Created: r/.mark/foo/md.foo\n\n--- Tool Sync ---\n"
    );
}

#[test]
fn entry_without_entity_ends_the_run_without_log() {
    let mut tree = tree_of(&[
        ("r/.mark/mark.mstp", "- a/agent.marks\n"),
        ("r/.mark/a/agent.marks", "- good/f\n- ../../../../x\n- late/f\n"),
    ]);
    assert_eq!(
        run("r", &mut tree),
        Request::Failed { failure: Failure::Unresolved(ResolveError::NoEntityName) }
    );
    assert!(tree.contains("r/.mark/a/good/markers.good"));
    assert!(tree.contains("r/.mark/a/good/md.good"));
    assert!(!tree.contains("r/.mark/a/late/markers.late"));
    assert!(!tree.contains(LOG));
}

#[test]
fn machine_asks_one_thing_at_a_time() {
    let (s, request) = Sync::start("r");
    assert_eq!(s.phase(), Phase::Root);
    assert_eq!(request, read("r/.mark/mark.mstp"));
    let (s, request) = s.step(Reply::Text(Some("- x.txt\n- agents/a.agent.marks\n".to_string())));
    assert_eq!(s.phase(), Phase::Manifest);
    assert_eq!(s.processed(), 1);
    assert_eq!(s.log(), "\n--- Agent Sync ---\n");
    assert_eq!(request, read("r/.mark/agents/a.agent.marks"));
    let (s, request) = s.step(Reply::Text(Some("- foo/ref.txt\n".to_string())));
    assert_eq!(s.phase(), Phase::Probing(Descriptor::Marker));
    assert_eq!(request, probe("r/.mark/agents/foo/markers.foo"));
    let (s, request) = s.step(Reply::Found(false));
    assert_eq!(s.phase(), Phase::Creating(Descriptor::Marker));
    assert_eq!(request, write("r/.mark/agents/foo/markers.foo", AGENT_MARKER));
    assert_eq!(s.log(), "\n--- Agent Sync ---\n");
    let (s, request) = s.step(Reply::Written(true));
    assert_eq!(s.phase(), Phase::Probing(Descriptor::Metadata));
    assert_eq!(request, probe("r/.mark/agents/foo/md.foo"));
    assert_eq!(
        s.log(),
        "\n--- Agent Sync ---\n\u{1f9e0} Created: r/.mark/agents/foo/markers.foo\n"
    );
    let (s, request) = s.step(Reply::Found(true));
    assert_eq!(s.phase(), Phase::Dir);
    assert_eq!(request, Request::MakeDir { path: "r/.mark/cache".to_string() });
    let (s, request) = s.step(Reply::Written(true));
    assert_eq!(s.phase(), Phase::Log);
    assert_eq!(
        request,
        write(LOG, "\n--- Agent Sync ---\n\u{1f9e0} Created: r/.mark/agents/foo/markers.foo\n")
    );
    let (s, request) = s.step(Reply::Written(true));
    assert_eq!(s.phase(), Phase::Halted);
    assert_eq!(request, finished(1));
    let (s, request) = s.step(Reply::Written(true));
    assert_eq!(s.phase(), Phase::Halted);
    assert_eq!(request, Request::Failed { failure: Failure::Unexpected });
}

#[test]
fn unreadable_root_ends_the_machine() {
    let (s, _) = Sync::start("r");
    let (s, request) = s.step(Reply::Text(None));
    assert_eq!(request, Request::Failed { failure: Failure::RootUnreadable });
    assert_eq!(s.phase(), Phase::Halted);
}

#[test]
fn descriptor_that_cannot_be_written_ends_the_machine() {
    let (s, _) = Sync::start("r");
    let (s, _) = s.step(Reply::Text(Some("- t.tool.marks".to_string())));
    let (s, _) = s.step(Reply::Text(Some("- saw/f".to_string())));
    let (s, request) = s.step(Reply::Found(false));
    assert_eq!(request, write("r/.mark/saw/markers.saw", TOOL_MARKER));
    let (s, request) = s.step(Reply::Written(false));
    assert_eq!(request, Request::Failed { failure: Failure::NotWritten });
    assert_eq!(s.phase(), Phase::Halted);
    assert_eq!(s.log(), "\n--- Tool Sync ---\n");
}

#[test]
fn log_that_cannot_be_written_ends_the_machine() {
    let (s, _) = Sync::start("r");
    let (s, request) = s.step(Reply::Text(Some(String::new())));
    assert_eq!(request, Request::MakeDir { path: "r/.mark/cache".to_string() });
    let (_, request) = s.step(Reply::Written(false));
    assert_eq!(request, Request::Failed { failure: Failure::NotWritten });

    let (s, _) = Sync::start("r");
    let (s, _) = s.step(Reply::Text(Some(String::new())));
    let (s, request) = s.step(Reply::Written(true));
    assert_eq!(request, write(LOG, ""));
    let (_, request) = s.step(Reply::Written(false));
    assert_eq!(request, Request::Failed { failure: Failure::NotWritten });
}

#[test]
fn reply_of_the_wrong_kind_ends_the_machine() {
    let (s, _) = Sync::start("r");
    let (s, request) = s.step(Reply::Found(true));
    assert_eq!(request, Request::Failed { failure: Failure::Unexpected });
    assert_eq!(s.phase(), Phase::Halted);

    let (s, _) = Sync::start("r");
    let (s, _) = s.step(Reply::Text(Some("- a.agent.marks".to_string())));
    let (_, request) = s.step(Reply::Written(true));
    assert_eq!(request, Request::Failed { failure: Failure::Unexpected });
}

#[test]
fn entry_without_entity_ends_the_machine() {
    let (s, _) = Sync::start("r");
    let (s, request) = s.step(Reply::Text(Some("- /agent.marks".to_string())));
    assert_eq!(request, read("/agent.marks"));
    let (s, request) = s.step(Reply::Text(Some("- \n".to_string())));
    assert_eq!(
        request,
        Request::Failed { failure: Failure::Unresolved(ResolveError::NoEntityDir) }
    );
    assert_eq!(s.phase(), Phase::Halted);
}

#[test]
fn descriptor_that_is_listed_as_a_manifest() {
    let mut tree = tree_of(&[
        ("r/.mark/mark.mstp", "- x.agent.marks/md.x.agent.marks\n- x.agent.marks/agent.marks\n"),
        ("r/.mark/x.agent.marks/agent.marks", "- f\n"),
    ]);
    assert_eq!(run("r", &mut tree), finished(2));
    assert_eq!(
        text(&tree, "r/.mark/x.agent.marks/md.x.agent.marks"),
        "# Agent: x.agent.marks\n\n## Capabilities\n- Unknown\n\n## Ethics\n- TBD\n"
    );
    let paths_once = sorted_paths(&tree);
    assert_eq!(paths_once.len(), 5);
    assert_eq!(run("r", &mut tree), finished(2));
    assert_eq!(sorted_paths(&tree), paths_once);
    assert_eq!(text(&tree, LOG), "\n--- Agent Sync ---\n\n--- Agent Sync ---\n");
}
