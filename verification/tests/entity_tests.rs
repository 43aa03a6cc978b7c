use mark_sync::entity::{resolve_entity, Entity, ResolveError};
use mark_sync::template::Descriptor;

fn entity(dir: &str, name: &str) -> Entity {
    Entity { dir: dir.to_string(), name: name.to_string() }
}

#[test]
fn entity_is_the_directory_of_the_file_named() {
    assert_eq!(
        resolve_entity("r/.mark/agents/a.agent.marks", "foo/ref.txt"),
        Ok(entity("r/.mark/agents/foo", "foo"))
    );
    assert_eq!(
        resolve_entity("r/.mark/agents/a/agent.marks", "foo/ref.txt"),
        Ok(entity("r/.mark/agents/a/foo", "foo"))
    );
}

#[test]
fn entry_in_the_manifests_own_directory() {
    assert_eq!(
        resolve_entity("/srv/tools/tool.marks", "hammer.txt"),
        Ok(entity("/srv/tools", "tools"))
    );
}

#[test]
fn absolute_entry_stands_for_itself() {
    assert_eq!(
        resolve_entity("r/.mark/agent.marks", "/opt/agents/x/file"),
        Ok(entity("/opt/agents/x", "x"))
    );
}

#[test]
fn manifest_without_directory() {
    assert_eq!(resolve_entity("", "foo/ref.txt"), Err(ResolveError::NoManifestDir));
    assert_eq!(resolve_entity("/", "foo/ref.txt"), Err(ResolveError::NoManifestDir));
}

#[test]
fn target_without_directory() {
    assert_eq!(resolve_entity("/agent.marks", ""), Err(ResolveError::NoEntityDir));
    assert_eq!(resolve_entity("agent.marks", ""), Err(ResolveError::NoEntityDir));
}

#[test]
fn directory_without_name() {
    assert_eq!(resolve_entity("a/agent.marks", "../x"), Err(ResolveError::NoEntityName));
    assert_eq!(resolve_entity("/agent.marks", "x"), Err(ResolveError::NoEntityName));
    assert_eq!(resolve_entity("agent.marks", "x"), Err(ResolveError::NoEntityName));
}

#[test]
fn descriptor_names_and_paths() {
    assert_eq!(Descriptor::Marker.file_name("foo"), "markers.foo");
    assert_eq!(Descriptor::Metadata.file_name("foo"), "md.foo");
    assert_eq!(Descriptor::Marker.file_name(""), "markers.");
    let e = entity("r/.mark/agents/foo", "foo");
    assert_eq!(Descriptor::Marker.path(&e), "r/.mark/agents/foo/markers.foo");
    assert_eq!(Descriptor::Metadata.path(&e), "r/.mark/agents/foo/md.foo");
}
