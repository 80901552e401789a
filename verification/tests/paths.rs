use really_notify::path::{join, normalize, NormalPath};

fn bytes(s: &str) -> Vec<u8> {
    s.as_bytes().to_vec()
}

#[test]
fn normalize_collapses_separators_and_dots() {
    assert_eq!(normalize(&bytes("/a//b/./c/")), bytes("/a/b/c"));
    assert_eq!(normalize(&bytes("/")), bytes("/"));
    assert_eq!(normalize(&bytes("///")), bytes("/"));
    assert_eq!(normalize(&bytes("/./.")), bytes("/"));
}

#[test]
fn normalize_keeps_parent_components() {
    assert_eq!(normalize(&bytes("/a/../b")), bytes("/a/../b"));
    assert_eq!(normalize(&bytes("/..")), bytes("/.."));
}

#[test]
fn normalize_agrees_with_std_components() {
    for spelling in ["/", "/a", "/a/b/", "//a///b", "/a/./b/../c", "/.hidden/..x/y.", "/a/.b/./"] {
        let mut expected = std::path::PathBuf::new();
        for component in std::path::Path::new(spelling).components() {
            expected.push(component.as_os_str());
        }
        assert_eq!(normalize(&bytes(spelling)), bytes(expected.to_str().unwrap()));
    }
}

#[test]
fn join_follows_std() {
    for (base, rel) in [("/a", "b"), ("/a/", "b"), ("/", "b/c"), ("/a", "/b"), ("/a", ""), ("", "b")] {
        let expected = std::path::Path::new(base).join(rel);
        assert_eq!(join(&bytes(base), &bytes(rel)), bytes(expected.to_str().unwrap()));
    }
}

#[test]
fn parent_and_file_name_follow_std() {
    for spelling in ["/", "/a", "/a/b", "/a/..", "/a/b/c.txt"] {
        let path = NormalPath::parse(&bytes(spelling));
        let std_path = std::path::Path::new(spelling);
        assert_eq!(
            path.parent().map(|p| p.to_bytes()),
            std_path.parent().map(|p| bytes(p.to_str().unwrap()))
        );
        assert_eq!(
            path.file_name(),
            std_path.file_name().map(|n| bytes(n.to_str().unwrap()))
        );
    }
}

#[test]
fn resolve_relative_and_absolute_links() {
    let link_at = NormalPath::parse(&bytes("/etc/app/cfg"));
    assert_eq!(link_at.resolve(&bytes("../real/cfg")).unwrap().to_bytes(), bytes("/etc/app/../real/cfg"));
    assert_eq!(link_at.resolve(&bytes("/srv//cfg")).unwrap().to_bytes(), bytes("/srv/cfg"));
    assert_eq!(link_at.resolve(&bytes("./x")).unwrap().to_bytes(), bytes("/etc/app/x"));
    assert!(NormalPath::root().resolve(&bytes("x")).is_none());
    assert_eq!(NormalPath::root().resolve(&bytes("/x")).unwrap().to_bytes(), bytes("/x"));
}
