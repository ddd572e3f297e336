use optima::path::{components, extension, file_name, join, parent, with_extension};
use std::path::Path;

const PATHS: [&str; 22] = [
    "", "/", ".", "..", "a", "a/", "a/b", "/a/b", "/a//b/", "./a", "a/.", "a/./b", "a/..", "a/b/..",
    "//", "/.", "a.b", "dir/.hidden", "dir/x.tar.gz", "dir/x.", "./", "a/b/./",
];

fn text(p: Option<&Path>) -> Option<String> {
    p.map(|p| p.to_str().unwrap().to_string())
}

#[test]
fn names_are_those_of_std() {
    for p in PATHS {
        let expected = Path::new(p).file_name().map(|n| n.to_str().unwrap().to_string());
        assert_eq!(file_name(p), expected, "{p:?}");
    }
}

#[test]
fn parents_are_those_of_std() {
    for p in PATHS {
        assert_eq!(parent(p), text(Path::new(p).parent()), "{p:?}");
    }
}

#[test]
fn components_are_counted_as_by_std() {
    for p in PATHS {
        assert_eq!(components(p), Path::new(p).components().count(), "{p:?}");
    }
}

#[test]
fn joining_is_that_of_std() {
    for p in PATHS {
        for q in PATHS {
            let expected = Path::new(p).join(q).to_str().unwrap().to_string();
            assert_eq!(join(p, q), expected, "{p:?} {q:?}");
        }
    }
}

#[test]
fn extensions_are_those_of_std() {
    for p in PATHS {
        let expected = Path::new(p).extension().map(|n| n.to_str().unwrap().to_string());
        assert_eq!(extension(p), expected, "{p:?}");
    }
}

#[test]
fn replacing_the_extension_is_that_of_std() {
    for p in PATHS {
        for e in ["optima-part", ""] {
            let expected = Path::new(p).with_extension(e).to_str().unwrap().to_string();
            assert_eq!(with_extension(p, e), expected, "{p:?} {e:?}");
        }
    }
}

#[test]
fn a_joined_name_is_the_last_component() {
    let p = join("/home/me/Games/", "game.exe");
    assert_eq!(file_name(&p), Some("game.exe".to_string()));
    assert_eq!(parent(&p), Some("/home/me/Games".to_string()));
    assert_ne!(join("/d", "1"), join("/d", "11"));
}
