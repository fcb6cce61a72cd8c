use fileserve::paths::{
    components_of, extension_of, file_name_of, has_prefix, join, normalize, render, split,
};

fn chars(s: &str) -> Vec<char> {
    s.chars().collect()
}

fn texts(parts: &Vec<Vec<char>>) -> Vec<String> {
    parts.iter().map(|p| p.iter().collect()).collect()
}

fn text(c: &[char]) -> String {
    c.iter().collect()
}

fn name(p: &str) -> Option<String> {
    file_name_of(&chars(p)).map(|n| text(&n))
}

fn ext(p: &str) -> Option<String> {
    extension_of(&chars(p)).map(|n| text(&n))
}

fn comps(p: &str) -> Vec<String> {
    texts(&components_of(&chars(p)))
}

fn resolved(p: &str) -> String {
    text(&render(&normalize(&components_of(&chars(p)))))
}

#[test]
fn splitting_keeps_empty_pieces() {
    assert_eq!(texts(&split(&chars("a//b/"), '/')), vec!["a", "", "b", ""]);
    assert_eq!(texts(&split(&chars(""), '/')), vec![""]);
    assert_eq!(texts(&split(&chars("abc"), '/')), vec!["abc"]);
}

#[test]
fn components_of_paths() {
    assert_eq!(comps("/a/b"), vec!["/", "a", "b"]);
    assert_eq!(comps("a//b/"), vec!["a", "b"]);
    assert_eq!(comps("./a/./b"), vec![".", "a", "b"]);
    assert_eq!(comps("a/../b"), vec!["a", "..", "b"]);
    assert_eq!(comps("."), vec!["."]);
    assert_eq!(comps(".a"), vec![".a"]);
    assert_eq!(comps("/"), vec!["/"]);
    assert_eq!(comps(""), Vec::<String>::new());
    assert_eq!(comps("uploads/"), vec!["uploads"]);
}

#[test]
fn components_agree_with_the_standard_library() {
    for p in [
        "/a/b", "a//b/", "./a/./b", "a/../b", ".", "..", "/", "", "uploads/", "a/.", "./", "/..",
        "a/b/c.txt", "../../etc/passwd", "/uploads/../../etc/passwd", ".hidden", "a/./../b",
    ] {
        let expected: Vec<String> = std::path::Path::new(p)
            .components()
            .map(|c| c.as_os_str().to_string_lossy().into_owned())
            .collect();
        assert_eq!(comps(p), expected, "{}", p);
    }
}

#[test]
fn base_names() {
    assert_eq!(name("a/b.txt"), Some("b.txt".to_string()));
    assert_eq!(name("a/b/"), Some("b".to_string()));
    assert_eq!(name("a/b/."), Some("b".to_string()));
    assert_eq!(name("a/.."), None);
    assert_eq!(name("/"), None);
    assert_eq!(name(""), None);
    assert_eq!(name("."), None);
    assert_eq!(name("x"), Some("x".to_string()));
}

#[test]
fn extensions() {
    assert_eq!(ext("a/b.txt"), Some("txt".to_string()));
    assert_eq!(ext("a.tar.gz"), Some("gz".to_string()));
    assert_eq!(ext(".bashrc"), None);
    assert_eq!(ext("a."), Some("".to_string()));
    assert_eq!(ext("a"), None);
    assert_eq!(ext("a.b/c"), None);
    assert_eq!(ext("a/.."), None);
    assert_eq!(ext("..a"), Some("a".to_string()));
    assert_eq!(ext("a.txt/"), Some("txt".to_string()));
}

#[test]
fn names_and_extensions_agree_with_the_standard_library() {
    for p in [
        "a/b.txt", "a.tar.gz", ".bashrc", "a.", "a", "a.b/c", "a/..", "..a", "a.txt/", "", "/",
        "x.exe", "dir/.hidden.txt", "a/b/.", "...", "a..b",
    ] {
        let path = std::path::Path::new(p);
        assert_eq!(name(p), path.file_name().map(|n| n.to_string_lossy().into_owned()), "{}", p);
        assert_eq!(ext(p), path.extension().map(|n| n.to_string_lossy().into_owned()), "{}", p);
    }
}

#[test]
fn traversals_are_resolved() {
    assert_eq!(resolved("uploads/a/../b.txt"), "uploads/b.txt");
    assert_eq!(resolved("uploads/./a.txt"), "uploads/a.txt");
    assert_eq!(resolved("uploads/../../etc/passwd"), "etc/passwd");
    assert_eq!(resolved("/a/../../b"), "/b");
    assert_eq!(resolved("/.."), "/");
    assert_eq!(resolved(".."), "");
    assert_eq!(resolved("./a"), "a");
    assert_eq!(resolved("a//b"), "a/b");
    assert_eq!(resolved(""), "");
}

#[test]
fn prefixes_go_by_whole_components() {
    let base = components_of(&chars("/srv/uploads"));
    assert!(has_prefix(&components_of(&chars("/srv/uploads/a.txt")), &base));
    assert!(has_prefix(&components_of(&chars("/srv/uploads")), &base));
    assert!(!has_prefix(&components_of(&chars("/srv/uploads2/a.txt")), &base));
    assert!(!has_prefix(&components_of(&chars("/srv")), &base));
    assert!(!has_prefix(&components_of(&chars("/etc/passwd")), &base));
    assert!(has_prefix(&components_of(&chars("a")), &Vec::new()));
}

#[test]
fn joining() {
    assert_eq!(text(&join(&chars("uploads"), &chars("a.txt"))), "uploads/a.txt");
    assert_eq!(text(&join(&chars("uploads/"), &chars("a.txt"))), "uploads/a.txt");
    assert_eq!(text(&join(&chars("uploads"), &chars("/etc/x.txt"))), "/etc/x.txt");
    assert_eq!(text(&join(&chars("uploads"), &chars(""))), "uploads/");
    assert_eq!(text(&join(&chars(""), &chars("a"))), "a");
    for (base, name) in [("uploads", "a.txt"), ("uploads/", "a"), ("uploads", "/x"), ("uploads", "")] {
        let expected = std::path::Path::new(base).join(name).to_string_lossy().into_owned();
        assert_eq!(text(&join(&chars(base), &chars(name))), expected);
    }
}
