use fc::{candidate_name, eq_ignore_ascii_case, file_extension, file_stem, match_extension};
use std::path::Path;

fn strings(items: &[&str]) -> Vec<String> {
    items.iter().map(|s| s.to_string()).collect()
}

const NAMES: [&str; 24] = [
    "foo.jpg",
    "bar.orf",
    "foo.JPG",
    "archive.tar.gz",
    "noext",
    ".bashrc",
    ".config.toml",
    "..",
    "...",
    "..jpg",
    "...jpg",
    "foo.",
    "foo..",
    "a.b.c.d",
    ".",
    "a",
    "a.",
    ".a",
    "a.b",
    "with space.txt",
    "ünïcödé.jpg",
    "photo.É",
    "x.y.",
    "日本語.orf",
];

#[test]
fn stem_of_plain_names() {
    assert_eq!(file_stem("foo.jpg"), "foo");
    assert_eq!(file_stem("bar.orf"), "bar");
    assert_eq!(file_stem("archive.tar.gz"), "archive.tar");
    assert_eq!(file_stem("noext"), "noext");
}

#[test]
fn extension_of_plain_names() {
    assert_eq!(file_extension("foo.jpg"), Some("jpg".to_string()));
    assert_eq!(file_extension("foo.JPG"), Some("JPG".to_string()));
    assert_eq!(file_extension("archive.tar.gz"), Some("gz".to_string()));
    assert_eq!(file_extension("noext"), None);
}

#[test]
fn leading_dot_is_no_separator() {
    assert_eq!(file_extension(".bashrc"), None);
    assert_eq!(file_stem(".bashrc"), ".bashrc");
    assert_eq!(file_extension(".config.toml"), Some("toml".to_string()));
    assert_eq!(file_stem(".config.toml"), ".config");
}

#[test]
fn parent_name_has_no_extension() {
    assert_eq!(file_extension(".."), None);
    assert_eq!(file_stem(".."), "..");
    assert_eq!(file_extension("."), None);
    assert_eq!(file_stem("."), ".");
}

#[test]
fn trailing_dot_gives_empty_extension() {
    assert_eq!(file_extension("foo."), Some(String::new()));
    assert_eq!(file_stem("foo."), "foo");
    assert_eq!(file_extension("..."), Some(String::new()));
    assert_eq!(file_stem("..."), "..");
}

#[test]
fn dots_before_the_extension_belong_to_the_stem() {
    assert_eq!(file_stem("..jpg"), ".");
    assert_eq!(file_extension("..jpg"), Some("jpg".to_string()));
    assert_eq!(file_stem("...jpg"), "..");
    assert_eq!(file_stem("a.b.c.d"), "a.b.c");
    assert_eq!(file_extension("a.b.c.d"), Some("d".to_string()));
}

#[test]
fn empty_name_is_its_own_stem() {
    assert_eq!(file_stem(""), "");
    assert_eq!(file_extension(""), None);
}

#[test]
fn stem_agrees_with_std_path() {
    for name in NAMES {
        if Path::new(name).file_name().is_none() {
            continue;
        }
        let expected = Path::new(name).file_stem().and_then(|s| s.to_str()).map(|s| s.to_string());
        assert_eq!(Some(file_stem(name)), expected, "stem of {:?}", name);
    }
}

#[test]
fn extension_agrees_with_std_path() {
    for name in NAMES {
        if Path::new(name).file_name().is_none() {
            continue;
        }
        let expected = Path::new(name).extension().and_then(|s| s.to_str()).map(|s| s.to_string());
        assert_eq!(file_extension(name), expected, "extension of {:?}", name);
    }
}

#[test]
fn name_is_stem_dot_extension() {
    for name in NAMES {
        if let Some(extension) = file_extension(name) {
            assert_eq!(candidate_name(&file_stem(name), &extension), name);
        } else {
            assert_eq!(file_stem(name), name);
        }
    }
}

#[test]
fn candidate_name_joins_with_a_dot() {
    assert_eq!(candidate_name("foo", "jpg"), "foo.jpg");
    assert_eq!(candidate_name("archive.tar", "gz"), "archive.tar.gz");
    assert_eq!(candidate_name("foo", ""), "foo.");
    assert_eq!(candidate_name("", "jpg"), ".jpg");
}

#[test]
fn case_of_ascii_letters_is_ignored() {
    assert!(eq_ignore_ascii_case("jpg", "JPG"));
    assert!(eq_ignore_ascii_case("JpG", "jPg"));
    assert!(eq_ignore_ascii_case("", ""));
    assert!(eq_ignore_ascii_case("tar.gz", "TAR.GZ"));
    assert!(!eq_ignore_ascii_case("jpg", "jpeg"));
    assert!(!eq_ignore_ascii_case("jpg", "jp"));
    assert!(!eq_ignore_ascii_case("jpg", "png"));
}

#[test]
fn only_letters_are_folded() {
    assert!(!eq_ignore_ascii_case("@", "`"));
    assert!(!eq_ignore_ascii_case("[", "{"));
    assert!(eq_ignore_ascii_case("A", "a"));
    assert!(eq_ignore_ascii_case("Z", "z"));
    assert!(!eq_ignore_ascii_case("0", "P"));
}

#[test]
fn non_ascii_letters_compare_exactly() {
    assert!(eq_ignore_ascii_case("é", "é"));
    assert!(!eq_ignore_ascii_case("é", "É"));
    assert!(!eq_ignore_ascii_case("ä", "Ä"));
    assert!(eq_ignore_ascii_case("ÉA", "Éa"));
}

#[test]
fn comparison_agrees_with_std() {
    let samples = ["", "a", "A", "jpg", "JPG", "Jpg", "jpeg", "é", "É", "@", "`", "[", "{", "z", "Z"];
    for a in samples {
        for b in samples {
            assert_eq!(eq_ignore_ascii_case(a, b), a.eq_ignore_ascii_case(b), "{:?} and {:?}", a, b);
        }
    }
}

#[test]
fn extension_match_ignores_case() {
    let extensions = strings(&["jpg"]);
    assert!(match_extension("foo.JPG", &extensions));
    assert!(match_extension("foo.jpg", &extensions));
    assert!(match_extension("foo.Jpg", &extensions));
    let upper = strings(&["JPG"]);
    assert!(match_extension("foo.jpg", &upper));
}

#[test]
fn extension_match_is_exact() {
    let extensions = strings(&["jpg", "orf"]);
    assert!(match_extension("bar.orf", &extensions));
    assert!(!match_extension("foo.jpeg", &extensions));
    assert!(!match_extension("foo.jp", &extensions));
    assert!(!match_extension("foo.xjpg", &extensions));
    assert!(!match_extension("foo.txt", &extensions));
    assert!(match_extension("archive.tar.jpg", &extensions));
}

#[test]
fn name_without_extension_never_matches() {
    let extensions = strings(&["jpg", ""]);
    assert!(!match_extension("jpg", &extensions));
    assert!(!match_extension(".jpg", &extensions));
    assert!(!match_extension("..", &extensions));
    assert!(!match_extension("", &extensions));
    assert!(match_extension("foo.", &extensions));
}

#[test]
fn nothing_matches_an_empty_list() {
    let extensions = strings(&[]);
    assert!(!match_extension("foo.jpg", &extensions));
}

#[test]
fn extension_with_a_dot_matches_no_name() {
    let extensions = strings(&["tar.gz"]);
    assert!(!match_extension("archive.tar.gz", &extensions));
}

#[test]
fn non_ascii_extension_matches_exactly() {
    let extensions = strings(&["é"]);
    assert!(match_extension("photo.é", &extensions));
    assert!(!match_extension("photo.É", &extensions));
}
