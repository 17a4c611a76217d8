use std::path::Path;

use replay_manager::path::{path_extension, path_file_name, path_file_stem, path_join, path_parent};

const SAMPLES: &[&str] = &[
    "", "/", "//", ".", "./", "..", "../", "a", "a/", "a//", "/a", "//a", "/a/b", "/a/b/",
    "/a/b/.", "a/.", "a/..", "./a", "./a/", ".//a", "a/./b", "a/./", "/.", "/..", "foo.txt",
    "foo.tar.gz", ".bashrc", "dir/.bashrc", "foo.", "dir/foo.", ".a.b", "..a", "a..", "...",
    "/home/user/Videos/Replay_2024-01-01.mp4", "Videos/clip.mkv/", "x/y/z.mp4/./",
    "./.", "././a", "a/b/../c.d",
];


#[test]
fn file_name_agrees_with_std() {
    for s in SAMPLES {
        assert_eq!(path_file_name(s), Path::new(s).file_name().map(|x| x.to_string_lossy().into_owned()), "file_name of {:?}", s);
    }
}

#[test]
fn file_stem_agrees_with_std() {
    for s in SAMPLES {
        assert_eq!(path_file_stem(s), Path::new(s).file_stem().map(|x| x.to_string_lossy().into_owned()), "file_stem of {:?}", s);
    }
}

#[test]
fn extension_agrees_with_std() {
    for s in SAMPLES {
        assert_eq!(path_extension(s), Path::new(s).extension().map(|x| x.to_string_lossy().into_owned()), "extension of {:?}", s);
    }
}

#[test]
fn parent_agrees_with_std() {
    for s in SAMPLES {
        let expected = Path::new(s).parent().map(|p| p.to_str().unwrap().to_string());
        assert_eq!(path_parent(s), expected, "parent of {:?}", s);
    }
}

#[test]
fn join_agrees_with_std() {
    for a in SAMPLES {
        for b in SAMPLES {
            let expected = Path::new(a).join(b).to_str().unwrap().to_string();
            assert_eq!(path_join(a, b), expected, "join of {:?} and {:?}", a, b);
        }
    }
}

#[test]
fn join_then_name_and_parent() {
    // a plain name joined onto a path is its name, and the path (normalized) its parent
    let joined = path_join("/videos/replays//", "clip.mp4");
    assert_eq!(joined, "/videos/replays//clip.mp4");
    assert_eq!(path_file_name(&joined), Some("clip.mp4".to_string()));
    assert_eq!(path_parent(&joined), Some("/videos/replays".to_string()));
}

#[test]
fn stem_and_extension_rebuild_name() {
    let p = "/v/Replay_1.final.mp4";
    let stem = path_file_stem(p).unwrap();
    let ext = path_extension(p).unwrap();
    assert_eq!(format!("{}.{}", stem, ext), path_file_name(p).unwrap());
    assert_eq!(stem, "Replay_1.final");
    assert_eq!(ext, "mp4");
}

fn all_short_paths() -> Vec<String> {
    let alphabet = ['/', '.', 'a'];
    let mut out = vec![String::new()];
    let mut layer = vec![String::new()];
    for _ in 0..5 {
        let mut next = Vec::new();
        for s in &layer {
            for c in alphabet {
                let mut t = s.clone();
                t.push(c);
                next.push(t);
            }
        }
        out.extend(next.iter().cloned());
        layer = next;
    }
    out
}

#[test]
fn every_short_path_agrees_with_std() {
    let paths = all_short_paths();
    for s in &paths {
        let p = Path::new(s);
        assert_eq!(path_file_name(s), p.file_name().map(|x| x.to_string_lossy().into_owned()), "file_name of {:?}", s);
        assert_eq!(path_file_stem(s), p.file_stem().map(|x| x.to_string_lossy().into_owned()), "file_stem of {:?}", s);
        assert_eq!(path_extension(s), p.extension().map(|x| x.to_string_lossy().into_owned()), "extension of {:?}", s);
        assert_eq!(path_parent(s), p.parent().map(|x| x.to_str().unwrap().to_string()), "parent of {:?}", s);
    }
    for a in paths.iter().take(121) {
        for b in paths.iter().take(121) {
            assert_eq!(path_join(a, b), Path::new(a).join(b).to_str().unwrap(), "join of {:?} and {:?}", a, b);
        }
    }
}
