use pelp::path::{extension, file_name, file_stem, join, parent, paths_equal, pop, set_extension};
use std::path::{Path, PathBuf};

const SAMPLES: &[&str] = &[
    "", "/", "//", ".", "./", "..", "../", "a", "a/", "a//", "a/.", "a/./", "a/..", "/a", "/a/b.md",
    "a/b.md", "a/b/", "a/b/.", "./a.md", ".bashrc", "a/.bashrc", "foo.", "foo..", "a.tar.gz",
    "dir.d/file", "x/..md", "slides.md/", "/tmp/deck.MD", "a/./b.txt", "...", "a/...",
];

fn std_str<T: ?Sized + AsRef<Path>>(p: Option<&T>) -> Option<String> {
    p.map(|s| s.as_ref().to_str().unwrap().to_string())
}

#[test]
fn file_name_agrees_with_std() {
    for s in SAMPLES {
        assert_eq!(file_name(s), std_str(Path::new(s).file_name()), "file_name of {:?}", s);
    }
}

#[test]
fn extension_agrees_with_std() {
    for s in SAMPLES {
        assert_eq!(extension(s), std_str(Path::new(s).extension()), "extension of {:?}", s);
    }
}

#[test]
fn file_stem_agrees_with_std() {
    for s in SAMPLES {
        assert_eq!(file_stem(s), std_str(Path::new(s).file_stem()), "file_stem of {:?}", s);
    }
}

#[test]
fn set_extension_agrees_with_std() {
    for s in SAMPLES {
        for ext in ["md", "html", "", "tar.gz"] {
            let mut ours = s.to_string();
            let changed = set_extension(&mut ours, ext);
            let mut theirs = PathBuf::from(s);
            let std_changed = theirs.set_extension(ext);
            assert_eq!(changed, std_changed, "set_extension({:?}, {:?})", s, ext);
            assert_eq!(ours, theirs.to_str().unwrap(), "set_extension({:?}, {:?})", s, ext);
        }
    }
}

#[test]
fn join_agrees_with_std() {
    for base in ["", "a", "a/", "/", "/x/y"] {
        for p in ["b", "b.md", "/c", "", "d/e"] {
            assert_eq!(
                join(base, p),
                Path::new(base).join(p).to_str().unwrap(),
                "join({:?}, {:?})",
                base,
                p
            );
        }
    }
}

#[test]
fn file_names_of_examples() {
    assert_eq!(file_name("a/b.md"), Some("b.md".to_string()));
    assert_eq!(file_name("a/b/"), Some("b".to_string()));
    assert_eq!(file_name("a/b/."), Some("b".to_string()));
    assert_eq!(file_name("/"), None);
    assert_eq!(file_name(".."), None);
    assert_eq!(file_name("a/.."), None);
    assert_eq!(file_name("."), None);
    assert_eq!(file_name(""), None);
}

#[test]
fn extensions_of_examples() {
    assert_eq!(extension("a/b.md"), Some("md".to_string()));
    assert_eq!(extension(".bashrc"), None);
    assert_eq!(extension("foo."), Some("".to_string()));
    assert_eq!(extension("a.tar.gz"), Some("gz".to_string()));
    assert_eq!(extension("dir.d/file"), None);
    assert_eq!(file_stem("a.tar.gz"), Some("a.tar".to_string()));
    assert_eq!(file_stem(".bashrc"), Some(".bashrc".to_string()));
}

#[test]
fn set_extension_examples() {
    let mut p = "notes/foo.txt".to_string();
    assert!(set_extension(&mut p, "md"));
    assert_eq!(p, "notes/foo.md");
    let mut p = "foo".to_string();
    assert!(set_extension(&mut p, "md"));
    assert_eq!(p, "foo.md");
    let mut p = "a/b/".to_string();
    assert!(set_extension(&mut p, "md"));
    assert_eq!(p, "a/b.md");
    let mut p = "foo.md".to_string();
    assert!(set_extension(&mut p, ""));
    assert_eq!(p, "foo");
    let mut p = "/".to_string();
    assert!(!set_extension(&mut p, "md"));
    assert_eq!(p, "/");
}

#[test]
fn law_extension_after_set_on_examples() {
    for s in ["slides", "a/b.txt", "a/b/", ".bashrc", "foo..", "x/y.tar.gz"] {
        let stem = file_stem(s);
        let mut p = s.to_string();
        set_extension(&mut p, "html");
        assert_eq!(extension(&p), Some("html".to_string()));
        assert_eq!(file_stem(&p), stem);
    }
}

#[test]
fn law_file_name_after_join_on_examples() {
    for base in ["", "/", "dir", "dir/", "/a/b"] {
        assert_eq!(file_name(&join(base, "talk")), Some("talk".to_string()));
    }
}

#[test]
fn text_helpers() {
    assert_eq!(pelp::chars_of("héllo"), vec!['h', 'é', 'l', 'l', 'o']);
    assert_eq!(pelp::string_of(&['a', 'b']), "ab");
    assert_eq!(pelp::string_of_range(&['a', 'b', 'c', 'd'], 1, 3), "bc");
    let mut s = "ab".to_string();
    pelp::append_str(&mut s, "cd");
    assert_eq!(s, "abcd");
    assert!(pelp::str_equal("x", "x"));
    assert!(!pelp::str_equal("x", "xy"));
    assert!(!pelp::str_equal("xz", "xy"));
}

#[test]
fn path_equality_agrees_with_std() {
    let extra = ["/d/out.html", "/d/./out.html", "/d//out.html", "/d/out.html/", "./a", "a/", "a/./", "./", ".//", "/./a", "//a", "a/../b", "a/b"];
    let all: Vec<&str> = SAMPLES.iter().copied().chain(extra.iter().copied()).collect();
    for a in &all {
        for b in &all {
            assert_eq!(paths_equal(a, b), Path::new(a) == Path::new(b), "{:?} == {:?}", a, b);
        }
    }
}

#[test]
fn path_equality_examples() {
    assert!(paths_equal("/d/./out.html", "/d/out.html"));
    assert!(paths_equal("/d//out.html", "/d/out.html/"));
    assert!(!paths_equal("./a", "a"));
    assert!(!paths_equal("/a", "a"));
    assert!(!paths_equal("a/../b", "b"));
}

#[test]
fn parent_agrees_with_std() {
    let extra = ["./a", "./a/", "./", ".//", "/./a", "//a", "a/../b", "a//b", "a/./b/.", "../x", "/a/b/c.md", "./.", "a/.././", "./../a"];
    let all: Vec<&str> = SAMPLES.iter().copied().chain(extra.iter().copied()).collect();
    for s in &all {
        let theirs = Path::new(s).parent().map(|p| p.to_str().unwrap().to_string());
        assert_eq!(parent(s), theirs, "parent of {:?}", s);
        let mut ours = s.to_string();
        let mut buf = PathBuf::from(s);
        assert_eq!(pop(&mut ours), buf.pop(), "pop of {:?}", s);
        assert_eq!(ours, buf.to_str().unwrap(), "pop of {:?}", s);
    }
}

#[test]
fn parent_examples() {
    assert_eq!(parent("/d/deck.md"), Some("/d".to_string()));
    assert_eq!(parent("/d.md"), Some("/".to_string()));
    assert_eq!(parent("deck.md"), Some("".to_string()));
    assert_eq!(parent("/"), None);
    assert_eq!(parent(""), None);
}
