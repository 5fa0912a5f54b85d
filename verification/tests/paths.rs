use std::path::{Path, PathBuf};

use public_logs::paths::{
    extension, file_name, file_stem, join_path, split_path, starts_with_path, strip_path,
    with_file_name,
};
use public_logs::text::{to_chars, to_string};

const SAMPLES: [&str; 33] = [
    "",
    "/",
    "//",
    ".",
    "./",
    "..",
    "../",
    "/.",
    "/..",
    "a",
    "a/",
    "a//",
    "a/.",
    "a/./",
    "a/..",
    "./a",
    "././a",
    "/a",
    "//a",
    "/a/b",
    "a/b",
    "a//b",
    "a/./b/",
    "/a/b/c.log",
    "/a/b/../c.tar.gz",
    ".hidden",
    "a/.hidden.txt",
    "a/name.",
    "a/runtime.log",
    "/logs//2026/./04/",
    "/logs",
    "/logs/",
    "\u{e9}/\u{1F4C1}.\u{e9}",
];

fn text(path: &Path) -> String {
    path.to_str().unwrap().to_string()
}

#[test]
fn components_are_those_of_the_standard_library() {
    for sample in SAMPLES {
        let wanted: Vec<String> = Path::new(sample)
            .components()
            .map(|part| text(Path::new(part.as_os_str())))
            .collect();
        let chars = to_chars(sample);
        let found: Vec<String> = split_path(&chars).into_iter().map(to_string).collect();
        assert_eq!(found, wanted, "path: {sample}");
    }
}

#[test]
fn joining_and_stripping() {
    for base in SAMPLES {
        for path in SAMPLES {
            let (b, p) = (to_chars(base), to_chars(path));
            assert_eq!(to_string(&join_path(&b, &p)), text(&Path::new(base).join(path)));
            assert_eq!(starts_with_path(&p, &b), Path::new(path).starts_with(base));
            let wanted = Path::new(path).strip_prefix(base).ok().map(text);
            assert_eq!(strip_path(&p, &b).map(to_string), wanted, "{path} below {base}");
        }
    }
}

#[test]
fn names_and_extensions() {
    for sample in SAMPLES {
        let path = Path::new(sample);
        let chars = to_chars(sample);
        let wanted = path.file_name().map(|name| text(Path::new(name)));
        assert_eq!(file_name(&chars).map(to_string), wanted, "path: {sample}");
        let wanted = path.extension().map(|name| text(Path::new(name)));
        assert_eq!(extension(&chars).map(to_string), wanted, "path: {sample}");
        let wanted = path.file_stem().map(|name| text(Path::new(name)));
        assert_eq!(file_stem(&chars).map(to_string), wanted, "path: {sample}");
        let wanted: PathBuf = path.with_file_name("runtime.log");
        assert_eq!(to_string(&with_file_name(&chars, &to_chars("runtime.log"))), text(&wanted));
    }
}

#[test]
fn what_is_below_leads_back() {
    let (base, path) = (to_chars("/logs/"), to_chars("/logs//2026/./04/x.log"));
    let below = strip_path(&path, &base).unwrap();
    assert_eq!(to_string(below), "2026/./04/x.log");
    let back = join_path(&base, below);
    let names: Vec<String> = split_path(&back).into_iter().map(to_string).collect();
    assert_eq!(names, ["/", "logs", "2026", "04", "x.log"]);
}

#[test]
fn paths_are_compared_by_their_texts() {
    let logs = to_chars("/logs");
    assert!(starts_with_path(&to_chars("/logs/../etc"), &logs));
    assert!(!starts_with_path(&to_chars("/logsx"), &logs));
    let names = |path: &str| -> Vec<String> {
        split_path(&to_chars(path)).into_iter().map(to_string).collect()
    };
    assert_eq!(names("a\\b/c:\\d"), ["a\\b", "c:\\d"]);
    assert_eq!(to_string(&join_path(&logs, &to_chars("C:/x"))), "/logs/C:/x");
}
