use std::path::{Component, Path, PathBuf};

use skills_web::error::ErrorKind;
use skills_web::local_skills::safe_join_local;
use skills_web::path::{climbs, file_name, is_rooted, join, strip_prefix};

const SAMPLES: [&str; 40] = [
    "", ".", "..", "/", "//", "/.", "/..", "./", "../", "a", "a/", "a//", "/a", "//a", "a/b",
    "a//b", "a/./b", "a/../b", "./a", "./.", "././a", ".a", "..a", "a..", "...", "a/.", "a/..",
    "a/./", "/a/b/c", "/a/b/c/", "/a//b/./c", "a b", "é/ü", "/é", "a/b/..c", "../a", "a/...",
    "/home/u/.agent/skills", "/home/u/.agent/skills/", "/home/u/.agent/skills/cnb-api",
];

#[test]
fn file_name_agrees_with_std() {
    for s in SAMPLES {
        let expected = Path::new(s).file_name().and_then(|n| n.to_str()).map(str::to_string);
        assert_eq!(file_name(s), expected, "{s:?}");
    }
}

#[test]
fn is_rooted_agrees_with_std() {
    for s in SAMPLES {
        assert_eq!(is_rooted(s), Path::new(s).is_absolute(), "{s:?}");
    }
}

#[test]
fn climbs_agrees_with_std() {
    for s in SAMPLES {
        let expected = Path::new(s).components().any(|c| matches!(c, Component::ParentDir));
        assert_eq!(climbs(s), expected, "{s:?}");
    }
}

#[test]
fn join_agrees_with_std() {
    for a in SAMPLES {
        for b in SAMPLES {
            let expected = PathBuf::from(a).join(b);
            assert_eq!(join(a, b), expected.to_str().unwrap(), "{a:?} {b:?}");
        }
    }
}

#[test]
fn strip_prefix_agrees_with_std() {
    for a in SAMPLES {
        for b in SAMPLES {
            let expected =
                Path::new(a).strip_prefix(b).ok().map(|p| p.to_str().unwrap().to_string());
            assert_eq!(strip_prefix(a, b), expected, "{a:?} {b:?}");
        }
    }
}

#[test]
fn accepted_paths_lie_under_the_directory() {
    for dir in SAMPLES {
        for relative in SAMPLES {
            if let Ok(path) = safe_join_local(dir, relative) {
                assert_eq!(PathBuf::from(&path), PathBuf::from(dir).join(relative));
                assert!(Path::new(&path).starts_with(dir), "{dir:?} {relative:?}");
            }
        }
    }
}

#[test]
fn joins_plain_names() {
    assert_eq!(
        safe_join_local("/home/u/.agent/skills", "cnb-api").unwrap(),
        "/home/u/.agent/skills/cnb-api"
    );
    assert_eq!(safe_join_local("/s/", "a").unwrap(), "/s/a");
    assert_eq!(safe_join_local("/s", "a//b").unwrap(), "/s/a//b");
    assert_eq!(safe_join_local("/s", "./a").unwrap(), "/s/./a");
    assert_eq!(safe_join_local("", "a").unwrap(), "a");
    assert_eq!(safe_join_local("/s", "a..b").unwrap(), "/s/a..b");
}

#[test]
fn refuses_an_empty_path() {
    let error = safe_join_local("/s", "").unwrap_err();
    assert_eq!(error.kind, ErrorKind::InvalidInput);
    assert_eq!(error.message, "relative_path is empty");
}

#[test]
fn refuses_an_absolute_path() {
    let error = safe_join_local("/s", "/etc/passwd").unwrap_err();
    assert_eq!(error.kind, ErrorKind::InvalidInput);
    assert_eq!(error.message, "absolute paths are not allowed: /etc/passwd");
    let error = safe_join_local("/s", "/..").unwrap_err();
    assert_eq!(error.message, "absolute paths are not allowed: /..");
}

#[test]
fn refuses_a_path_that_climbs() {
    for relative in ["..", "../a", "a/..", "a/../b", "./..", "a/b/../../.."] {
        let error = safe_join_local("/s", relative).unwrap_err();
        assert_eq!(error.kind, ErrorKind::InvalidInput);
        assert_eq!(error.message, format!("path may not contain '..': {relative}"));
    }
}
