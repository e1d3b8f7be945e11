use audio_server::path::{components_of, file_stem_of, join, render_components, stem_of, Component};

#[test]
fn components_follow_unix_rules() {
    assert_eq!(
        components_of("/a//b/./c/../d"),
        vec![
            Component::RootDir,
            Component::Normal(String::from("a")),
            Component::Normal(String::from("b")),
            Component::Normal(String::from("c")),
            Component::ParentDir,
            Component::Normal(String::from("d")),
        ]
    );
    assert_eq!(
        components_of("./x"),
        vec![Component::CurDir, Component::Normal(String::from("x"))]
    );
    assert_eq!(components_of(""), vec![]);
}

#[test]
fn rendering_and_joining() {
    let cs = components_of("/a/b/");
    assert_eq!(render_components(&cs), "/a/b");
    assert_eq!(join("assets", "projects"), "assets/projects");
    assert_eq!(join("assets/", "projects"), "assets/projects");
    assert_eq!(join("assets", "/abs"), "/abs");
}

#[test]
fn file_stems() {
    assert_eq!(stem_of("rain.wav"), "rain");
    assert_eq!(stem_of("archive.tar.gz"), "archive.tar");
    assert_eq!(stem_of(".hidden"), ".hidden");
    assert_eq!(stem_of("plain"), "plain");
    assert_eq!(file_stem_of("/audio/rain.wav"), Some(String::from("rain")));
    assert_eq!(file_stem_of("/"), None);
    assert_eq!(file_stem_of("/audio/.."), None);
}
