//! The two descriptors of an entity, and what a missing one is filled with.

use crate::entity::{Entity, EntityView};
use crate::paths::{join, joined};
use crate::text::{chars_of, ends_with, has_suffix};
use vstd::prelude::*;

verus! {

/// The two kinds of entity. The kind decides what a new descriptor holds.
#[derive(Clone, Copy, Debug, PartialEq, Eq, Structural)]
pub enum Category {
    Agent,
    Tool,
}

/// The two descriptors that every entity has.
#[derive(Clone, Copy, Debug, PartialEq, Eq, Structural)]
pub enum Descriptor {
    /// A trigger and its effect.
    Marker,
    /// What the entity can do, or is meant for.
    Metadata,
}

/// The kind of entity that the manifest named by `entry` lists: agents where
/// the entry ends in `agent.marks`, tools where it ends in `tool.marks`, and
/// neither otherwise.
pub open spec fn category_of(entry: Seq<char>) -> Option<Category> {
    if has_suffix(entry, "agent.marks"@) {
        Some(Category::Agent)
    } else if has_suffix(entry, "tool.marks"@) {
        Some(Category::Tool)
    } else {
        None
    }
}

/// The file name of a descriptor of the entity called `name`.
pub open spec fn descriptor_name(kind: Descriptor, name: Seq<char>) -> Seq<char> {
    match kind {
        Descriptor::Marker => "markers."@ + name,
        Descriptor::Metadata => "md."@ + name,
    }
}

/// The path of a descriptor: it lies in the entity's own directory.
pub open spec fn descriptor_path(kind: Descriptor, entity: EntityView) -> Seq<char> {
    joined(entity.dir, descriptor_name(kind, entity.name))
}

/// What a new descriptor holds. A marker has a heading and the sections
/// Trigger and Effect; the metadata names the entity in its heading, and has
/// the sections Capabilities and Ethics for an agent, Intent and Example
/// Output for a tool.
pub open spec fn template(category: Category, kind: Descriptor, name: Seq<char>) -> Seq<char> {
    match (category, kind) {
        (Category::Agent, Descriptor::Marker) =>
            "# Marker: AutoGenerated\n\n### Trigger\nUnknown\n\n### Effect\nUnspecified\n"@,
        (Category::Agent, Descriptor::Metadata) => "# Agent: "@ + name
            + "\n\n## Capabilities\n- Unknown\n\n## Ethics\n- TBD\n"@,
        (Category::Tool, Descriptor::Marker) =>
            "# Marker: AutoGenerated\n\n## Trigger\nIdle\n\n## Effect\nTool Activation\n"@,
        (Category::Tool, Descriptor::Metadata) => "# Tool: "@ + name
            + "\n\n## Intent\nDescribe use here\n\n## Example Output\nExample\n"@,
    }
}

/// The line that opens the part of the log on one manifest.
pub open spec fn log_header(category: Category) -> Seq<char> {
    match category {
        Category::Agent => "\n--- Agent Sync ---\n"@,
        Category::Tool => "\n--- Tool Sync ---\n"@,
    }
}

/// What a line of the log on a new descriptor begins with: a sign for the
/// kind of entity and of descriptor, and the word `Created:`.
pub open spec fn created_tag(category: Category, kind: Descriptor) -> Seq<char> {
    match (category, kind) {
        (Category::Agent, Descriptor::Marker) => "🧠 Created: "@,
        (Category::Agent, Descriptor::Metadata) => "🧬 Created: "@,
        (Category::Tool, Descriptor::Marker) => "🔖 Created: "@,
        (Category::Tool, Descriptor::Metadata) => "🛠️ Created: "@,
    }
}

/// The line of the log that records a new descriptor at `path`.
pub open spec fn created_line(category: Category, kind: Descriptor, path: Seq<char>) -> Seq<char> {
    created_tag(category, kind) + path + "\n"@
}

impl Category {
    /// The kind of entity that the manifest named by `entry` lists, if any.
    pub fn of_entry(entry: &str) -> (r: Option<Category>)
        ensures
            r == category_of(entry@),
    {
        let chars = chars_of(entry);
        let agent = chars_of("agent.marks");
        let tool = chars_of("tool.marks");
        if ends_with(&chars, &agent) {
            Some(Category::Agent)
        } else if ends_with(&chars, &tool) {
            Some(Category::Tool)
        } else {
            None
        }
    }

    /// The line that opens the part of the log on one manifest of this kind.
    pub fn header(self) -> (r: &'static str)
        ensures
            r@ == log_header(self),
    {
        match self {
            Category::Agent => "\n--- Agent Sync ---\n",
            Category::Tool => "\n--- Tool Sync ---\n",
        }
    }

    /// What a new descriptor of an entity of this kind called `name` holds.
    pub fn render(self, kind: Descriptor, name: &str) -> (r: String)
        ensures
            r@ == template(self, kind, name@),
    {
        match (self, kind) {
            (Category::Agent, Descriptor::Marker) => String::from_str(
                "# Marker: AutoGenerated\n\n### Trigger\nUnknown\n\n### Effect\nUnspecified\n",
            ),
            (Category::Agent, Descriptor::Metadata) => {
                let mut r = String::from_str("# Agent: ");
                r.append(name);
                r.append("\n\n## Capabilities\n- Unknown\n\n## Ethics\n- TBD\n");
                r
            },
            (Category::Tool, Descriptor::Marker) => String::from_str(
                "# Marker: AutoGenerated\n\n## Trigger\nIdle\n\n## Effect\nTool Activation\n",
            ),
            (Category::Tool, Descriptor::Metadata) => {
                let mut r = String::from_str("# Tool: ");
                r.append(name);
                r.append("\n\n## Intent\nDescribe use here\n\n## Example Output\nExample\n");
                r
            },
        }
    }

    /// The line of the log that records a new descriptor at `path`.
    pub fn created(self, kind: Descriptor, path: &str) -> (r: String)
        ensures
            r@ == created_line(self, kind, path@),
    {
        let mut r = match (self, kind) {
            (Category::Agent, Descriptor::Marker) => String::from_str("🧠 Created: "),
            (Category::Agent, Descriptor::Metadata) => String::from_str("🧬 Created: "),
            (Category::Tool, Descriptor::Marker) => String::from_str("🔖 Created: "),
            (Category::Tool, Descriptor::Metadata) => String::from_str("🛠️ Created: "),
        };
        r.append(path);
        r.append("\n");
        r
    }
}

impl Descriptor {
    /// The file name of this descriptor of the entity called `name`.
    pub fn file_name(self, name: &str) -> (r: String)
        ensures
            r@ == descriptor_name(self, name@),
    {
        let mut r = match self {
            Descriptor::Marker => String::from_str("markers."),
            Descriptor::Metadata => String::from_str("md."),
        };
        r.append(name);
        r
    }

    /// The path of this descriptor of `entity`.
    pub fn path(self, entity: &Entity) -> (r: String)
        ensures
            r@ == descriptor_path(self, entity@),
    {
        let name = self.file_name(entity.name.as_str());
        join(entity.dir.as_str(), name.as_str())
    }
}

} // verus!
