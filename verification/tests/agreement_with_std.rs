use std::path::Path;
use suji::paths::{file_stem_exec, has_extension_exec, join_exec, make_relative, parent_exec};
use suji::text::{lex_lt_exec, replace_all_exec, split_exec};

fn chars(s: &str) -> Vec<char> {
    s.chars().collect()
}

fn samples() -> Vec<&'static str> {
    vec![
        "", "/", "//", "a", "/a", "a/", "/a/", "a/b", "/a/b", "/a/b/", "a.b", "/a.b", "/a.b/", ".a", "/.a",
        "/a/.b", "a.", "/a.", "a..b", "..", "../", "/..", "a/..", "a/../b", "/blog/my-post", "/feed.xml",
        "/a.b/c", "/a/b.c.d", "a//b", "//a//b//", "/a/b.tar.gz", "...", "a/...", "/é/ü.x", "x.é",
        "{a}", "/{a}/{b}", "2024/03/05", "2024/3/5", ".", "./", "/.", "a/.", "a/./b", "/a/b/./", "./a",
        "/./a", "a/.b/.", "//.",
    ]
}

#[test]
fn paths_agree_with_std() {
    for s in samples() {
        let p = Path::new(s);
        assert_eq!(has_extension_exec(s), p.extension().is_some(), "extension of {:?}", s);
        assert_eq!(
            file_stem_exec(s),
            p.file_stem().map(|x| x.to_string_lossy().to_string()),
            "stem of {:?}",
            s
        );
        assert_eq!(parent_exec(s), p.parent().map(|x| x.to_string_lossy().to_string()), "parent of {:?}", s);
        for t in samples() {
            assert_eq!(join_exec(s, t), p.join(t).to_string_lossy().to_string(), "join {:?} {:?}", s, t);
        }
    }
}

#[test]
fn relative_paths_agree_with_std_for_plain_paths() {
    let paths = ["", "a", "a/b.md", "/a", "/a/b", "/a/b/c.md", "/ab/c", "/x/a/b", "/a/b.md/c"];
    let bases = ["", "/", "/a", "/a/", "/a/b", "/ab", "/x", "a", "/a/b/c.md"];
    for s in paths {
        for t in bases {
            let expected = if Path::new(s).is_absolute() {
                Path::new(s).strip_prefix(t).ok().map(|x| x.to_string_lossy().to_string())
            } else {
                Some(s.to_string())
            };
            assert_eq!(make_relative(s, t), expected, "{:?} from {:?}", s, t);
        }
    }
}

#[test]
fn texts_agree_with_std() {
    for s in samples() {
        let parts: Vec<String> = split_exec(&chars(s), '/').iter().map(|v| v.iter().collect()).collect();
        let expected: Vec<String> = s.split('/').map(|x| x.to_string()).collect();
        assert_eq!(parts, expected, "split {:?}", s);
        for t in samples() {
            assert_eq!(lex_lt_exec(&chars(s), &chars(t)), s < t, "order of {:?} and {:?}", s, t);
            if !t.is_empty() {
                let replaced: String = replace_all_exec(&chars(s), &chars(t), &chars("<>")).iter().collect();
                assert_eq!(replaced, s.replace(t, "<>"), "replace {:?} in {:?}", t, s);
            }
        }
    }
}
