use mark_sync::template::{Category, Descriptor};

#[test]
fn kind_of_manifest_goes_by_the_suffix() {
    assert_eq!(Category::of_entry("agents/a.agent.marks"), Some(Category::Agent));
    assert_eq!(Category::of_entry("agent.marks"), Some(Category::Agent));
    assert_eq!(Category::of_entry("tools/t.tool.marks"), Some(Category::Tool));
    assert_eq!(Category::of_entry("tool.marks"), Some(Category::Tool));
    assert_eq!(Category::of_entry("agent.tool.marks"), Some(Category::Tool));
    assert_eq!(Category::of_entry("tool.agent.marks"), Some(Category::Agent));
}

#[test]
fn other_entries_have_no_kind() {
    assert_eq!(Category::of_entry(""), None);
    assert_eq!(Category::of_entry("notes.txt"), None);
    assert_eq!(Category::of_entry("agent.marks.bak"), None);
    assert_eq!(Category::of_entry("agent.mark"), None);
    assert_eq!(Category::of_entry("AGENT.MARKS"), None);
    assert_eq!(Category::of_entry("ool.marks"), None);
}

#[test]
fn agent_templates() {
    assert_eq!(
        Category::Agent.render(Descriptor::Marker, "foo"),
        "# Marker: AutoGenerated\n\n### Trigger\nUnknown\n\n### Effect\nUnspecified\n"
    );
    assert_eq!(
        Category::Agent.render(Descriptor::Metadata, "foo"),
        "# Agent: foo\n\n## Capabilities\n- Unknown\n\n## Ethics\n- TBD\n"
    );
}

#[test]
fn tool_templates() {
    assert_eq!(
        Category::Tool.render(Descriptor::Marker, "saw"),
        "# Marker: AutoGenerated\n\n## Trigger\nIdle\n\n## Effect\nTool Activation\n"
    );
    assert_eq!(
        Category::Tool.render(Descriptor::Metadata, "saw"),
        "# Tool: saw\n\n## Intent\nDescribe use here\n\n## Example Output\nExample\n"
    );
}

#[test]
fn log_headers() {
    assert_eq!(Category::Agent.header(), "\n--- Agent Sync ---\n");
    assert_eq!(Category::Tool.header(), "\n--- Tool Sync ---\n");
}

#[test]
fn log_lines_on_new_files() {
    assert_eq!(
        Category::Agent.created(Descriptor::Marker, "d/markers.foo"),
        "\u{1f9e0} Created: d/markers.foo\n"
    );
    assert_eq!(
        Category::Agent.created(Descriptor::Metadata, "d/md.foo"),
        "\u{1f9ec} Created: d/md.foo\n"
    );
    assert_eq!(
        Category::Tool.created(Descriptor::Marker, "d/markers.saw"),
        "\u{1f516} Created: d/markers.saw\n"
    );
    assert_eq!(
        Category::Tool.created(Descriptor::Metadata, "d/md.saw"),
        "\u{1f6e0}\u{fe0f} Created: d/md.saw\n"
    );
}
