use code_assistant::access::{AccessDenial, FilePermissions};

fn components(path: &str) -> Vec<Vec<u8>> {
    let mut out = vec![b"/".to_vec()];
    out.extend(path.split('/').filter(|c| !c.is_empty()).map(|c| c.as_bytes().to_vec()));
    out
}

#[test]
fn paths_inside_the_root_are_allowed() {
    let perms = FilePermissions::with_root(components("/work/project"));
    assert_eq!(perms.validate_location(&components("/work/project")), Ok(()));
    assert_eq!(perms.validate_location(&components("/work/project/src/main.rs")), Ok(()));
}

#[test]
fn paths_outside_the_root_are_refused() {
    let perms = FilePermissions::with_root(components("/work/project"));
    assert_eq!(
        perms.validate_location(&components("/work")),
        Err(AccessDenial::OutsideWorkspace)
    );
    assert_eq!(
        perms.validate_location(&components("/work/project2/a.txt")),
        Err(AccessDenial::OutsideWorkspace)
    );
    assert_eq!(
        perms.validate_location(&components("/tmp/hello.txt")),
        Err(AccessDenial::OutsideWorkspace)
    );
}

#[test]
fn symbolic_links_are_refused() {
    assert_eq!(FilePermissions::validate_kind(true), Err(AccessDenial::SymbolicLink));
    assert_eq!(FilePermissions::validate_kind(false), Ok(()));
}

#[test]
fn denial_messages() {
    assert_eq!(
        AccessDenial::OutsideWorkspace.message(),
        "Access to paths outside the workspace is not allowed"
    );
    assert_eq!(
        AccessDenial::SymbolicLink.message(),
        "Access to symbolic links is not allowed"
    );
}

#[test]
fn root_components_are_kept() {
    let perms = FilePermissions::with_root(components("/a/b"));
    assert_eq!(perms.root_components(), &components("/a/b"));
}
