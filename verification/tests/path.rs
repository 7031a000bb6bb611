use std::path::Path;

use marchiver::os_text::OsText;
use marchiver::path::{
    extension_of, file_name_of, is_absolute, join_path, parent_of, paths_equal, raw_file_name_of,
    raw_join, raw_parent_directory_of, raw_parent_of, replace_file_name,
};

fn samples() -> Vec<String> {
    let pieces = [
        "", "/", "//", ".", "..", "./", "../", "/.", "/..", "a", "a/", "a//", "b.mkv", "/b.mkv",
        "/a/b", "a/./b", "a/../b", "a/b/.", "a/b/..", "./a", "././a", "/./a", ".hidden", "a/.hidden",
        "a.b.c", "a.", "...", "/...", "a b/c d.mkv", "\u{e9}/\u{4e16}.mkv", "a/.", "a/./", "a/./.",
        "/a//b///c", ".a", "..a", ". ", "./.", "./..",
    ];
    let mut samples: Vec<String> = pieces.iter().map(|piece| piece.to_string()).collect();
    for a in pieces {
        for b in pieces {
            samples.push(format!("{a}{b}"));
            samples.push(format!("{a}/{b}"));
        }
    }
    samples
}

#[test]
fn paths_are_taken_apart_as_the_system_does() {
    for text in samples() {
        let path = Path::new(&text);
        assert_eq!(is_absolute(&text), path.is_absolute(), "{text:?}");
        assert_eq!(
            file_name_of(&text).as_deref(),
            path.file_name().map(|name| name.to_str().unwrap()),
            "{text:?}"
        );
        assert_eq!(
            parent_of(&text).as_deref(),
            path.parent().map(|parent| parent.to_str().unwrap()),
            "{text:?}"
        );
        assert_eq!(
            extension_of(&text).as_deref(),
            path.extension().map(|extension| extension.to_str().unwrap()),
            "{text:?}"
        );
        let directory = path
            .parent()
            .filter(|parent| !parent.as_os_str().is_empty())
            .unwrap_or(Path::new("."));
        assert_eq!(
            raw_parent_directory_of(&OsText::of(&text)).show(),
            directory.to_str().unwrap(),
            "{text:?}"
        );
    }
}

#[test]
fn paths_are_joined_as_the_system_does() {
    for text in samples() {
        for name in ["", "c", "c.pkl", "/c", "c/d", ".tmp", ".", ".."] {
            assert_eq!(
                join_path(&text, name),
                Path::new(&text).join(name).to_str().unwrap(),
                "{text:?} {name:?}"
            );
        }
        assert_eq!(
            replace_file_name(&text, "c.pkl"),
            Path::new(&text).with_file_name("c.pkl").to_str().unwrap(),
            "{text:?}"
        );
    }
}

#[test]
fn paths_are_equal_as_the_system_has_it() {
    let samples = samples();
    for (position, a) in samples.iter().enumerate() {
        for b in samples.iter().skip(position % 7).step_by(7) {
            assert_eq!(paths_equal(a, b), Path::new(a) == Path::new(b), "{a:?} {b:?}");
        }
    }
    assert!(paths_equal("/a//b/./c/", "/a/b/c"));
    assert!(!paths_equal("./a", "a"));
    assert!(!paths_equal("/a/../b", "/b"));
}

#[test]
fn joining_a_name_can_be_undone() {
    for directory in ["/", "/a", "/a/b/", "a", "."] {
        let path = join_path(directory, "movie.mkv");
        assert_eq!(file_name_of(&path).unwrap(), "movie.mkv");
        assert!(paths_equal(&parent_of(&path).unwrap(), directory));
        let sibling = replace_file_name(&path, "movie.mkv.marchiver.pkl");
        assert_eq!(parent_of(&sibling), parent_of(&path));
    }
}

#[test]
fn bytes_are_taken_apart_as_texts_are() {
    let raw = |text: &str| OsText::of(text);
    for sample in samples() {
        let path = raw(&sample);
        let bytes = |part: Option<String>| part.map(String::into_bytes);
        assert_eq!(
            raw_file_name_of(&path).map(|name| name.bytes),
            bytes(file_name_of(&sample)),
            "{sample}"
        );
        assert_eq!(
            raw_parent_of(&path).map(|parent| parent.bytes),
            bytes(parent_of(&sample)),
            "{sample}"
        );
        for other in ["x", "/x", "", "."] {
            assert_eq!(
                raw_join(&path, &raw(other)).bytes,
                join_path(&sample, other).into_bytes()
            );
        }
    }
    let odd = OsText {
        bytes: b"/caf\xe9//movie\xff.mkv/".to_vec(),
    };
    assert_eq!(raw_file_name_of(&odd).unwrap().bytes, b"movie\xff.mkv");
    assert_eq!(raw_parent_directory_of(&odd).bytes, b"/caf\xe9");
    assert_eq!(odd.show(), "/caf\u{fffd}//movie\u{fffd}.mkv/");
    assert_eq!(raw_parent_directory_of(&raw("movie.mkv")).bytes, b".");
}
