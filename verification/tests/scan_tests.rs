use asset_discovery::scanner::{named_sub_models, scan_directory_recursive, ScanError};
use asset_discovery::tree::Node;

fn file(name: &str, text: Option<&str>) -> Node {
    Node::File { name: name.to_string(), text: text.map(|t| t.to_string()) }
}

fn dir(name: &str, entries: Vec<Node>) -> Node {
    Node::Directory { name: name.to_string(), entries: Some(entries) }
}

fn scan(entries: Vec<Node>) -> Vec<String> {
    let root = dir("root", entries);
    scan_directory_recursive("/srv/root", Some(&root)).expect("the scan succeeds")
}

#[test]
fn model_excludes_its_texture() {
    let tree = vec![dir(
        "a",
        vec![
            dir("tex", vec![file("a.png", None)]),
            file("model.json", Some("{\"textures\":[\"tex/a.png\"]}")),
        ],
    )];
    assert_eq!(scan(tree), vec!["a/model.json".to_string()]);
}

#[test]
fn aggregate_excludes_sub_model_and_its_textures() {
    let tree = vec![
        dir(
            "sub",
            vec![file("t.png", None), file("model.json", Some("{\"textures\":[\"t.png\"]}"))],
        ),
        file("bundle.jsonl", Some("{\"path\":\"sub/model.json\"}")),
    ];
    assert_eq!(scan(tree), vec!["bundle.jsonl".to_string()]);
}

#[test]
fn empty_directory_gives_empty_list() {
    assert_eq!(scan(vec![]), Vec::<String>::new());
}

#[test]
fn missing_root_is_not_found() {
    assert_eq!(scan_directory_recursive("/srv/root", None), Err(ScanError::NotFound));
}

#[test]
fn file_root_is_not_a_directory() {
    let root = file("a.png", None);
    assert_eq!(scan_directory_recursive("/srv/a.png", Some(&root)), Err(ScanError::NotADirectory));
}

#[test]
fn unlistable_root_is_io_error() {
    let top = Node::Directory { name: "root".to_string(), entries: None };
    assert_eq!(scan_directory_recursive("/srv/root", Some(&top)), Err(ScanError::IoError));
}

#[test]
fn unlistable_directory_below_the_root_is_passed_over() {
    let tree = vec![
        file("a.png", None),
        Node::Directory { name: "locked".to_string(), entries: None },
        file("a.jsonl", Some("{\"path\":\"locked/m.json\"}")),
        dir("d", vec![Node::Directory { name: "deep".to_string(), entries: None }, file("b.png", None)]),
    ];
    assert_eq!(
        scan(tree),
        vec!["a.jsonl".to_string(), "a.png".to_string(), "d/b.png".to_string()]
    );
}

#[test]
fn v3_model_excludes_its_file_references() {
    let text = "{\"Version\":3,\"FileReferences\":{\"Moc\":\"m.moc3\",\"Textures\":[\"t/0.png\"],\
                \"Physics\":\"m.physics3.json\",\"DisplayInfo\":\"m.cdi3.json\"}}";
    let tree = vec![
        file("m.cdi3.json", Some("{\"Version\":3,\"Parameters\":[]}")),
        file("m.model3.json", Some(text)),
        file("m.moc3", None),
        file("m.physics3.json", Some("{\"Version\":3,\"Meta\":{}}")),
        dir("t", vec![file("0.png", None), file("1.png", None)]),
    ];
    // The two descriptors beside the model have no recognized schema and
    // are left out for that reason alone.
    assert_eq!(scan(tree), vec!["m.model3.json".to_string(), "t/1.png".to_string()]);
}

#[test]
fn composite_excludes_its_layers() {
    let text = "{\"settings\":{},\"assets\":{\"layers\":[{\"path\":\"l/0.png\"},{\"path\":\"l/1.png\"}]}}";
    let tree = vec![
        dir("l", vec![file("0.png", None), file("1.png", None), file("2.png", None)]),
        file("scene.json", Some(text)),
    ];
    assert_eq!(scan(tree), vec!["scene.json".to_string(), "l/2.png".to_string()]);
}

#[test]
fn unrecognized_and_broken_json_is_ignored() {
    let tree = vec![
        file("data.json", Some("{\"name\":\"x\"}")),
        file("broken.json", Some("{\"textures\":[")),
        file("unread.json", None),
        file("list.json", Some("[1,2,3]")),
        file("a.png", None),
    ];
    assert_eq!(scan(tree), vec!["a.png".to_string()]);
}

#[test]
fn broken_model_named_as_model_is_ignored() {
    let tree = vec![file("model.json", Some("not json")), file("hero.char.json", None)];
    assert_eq!(scan(tree), Vec::<String>::new());
}

#[test]
fn file_name_alone_can_mark_a_model() {
    let tree = vec![file("hero.char.json", Some("[]")), file("my_model.json", Some("{}"))];
    assert_eq!(scan(tree), vec!["hero.char.json".to_string(), "my_model.json".to_string()]);
}

#[test]
fn other_files_are_ignored() {
    let tree = vec![
        file("readme.txt", Some("hello")),
        file("m.moc3", None),
        file("noext", None),
        file(".png", None),
        file("clip.webm", None),
        file("pic.JPG", None),
    ];
    assert_eq!(scan(tree), vec!["clip.webm".to_string(), "pic.JPG".to_string()]);
}

#[test]
fn manifests_are_walked_before_their_siblings() {
    let tree = vec![
        file("z.png", None),
        dir("d", vec![file("x.png", None), file("y.json", Some("{\"model\":\"m\"}"))]),
        file("b.json", Some("{\"motions\":{}}")),
        file("a.png", None),
        file("c.jsonl", Some("")),
    ];
    assert_eq!(
        scan(tree),
        vec![
            "b.json".to_string(),
            "c.jsonl".to_string(),
            "z.png".to_string(),
            "d/y.json".to_string(),
            "d/x.png".to_string(),
            "a.png".to_string(),
        ]
    );
}

#[test]
fn exclusion_comes_too_late_for_a_file_walked_earlier() {
    let tree = vec![
        dir("early", vec![file("t.png", None)]),
        dir("late", vec![file("model.json", Some("{\"textures\":[\"../early/t.png\",\"../zz/u.png\"]}"))]),
        dir("zz", vec![file("u.png", None)]),
    ];
    assert_eq!(scan(tree), vec!["early/t.png".to_string(), "late/model.json".to_string()]);
}

#[test]
fn referenced_descriptor_is_excluded() {
    let tree = vec![
        file("a.json", Some("{\"textures\":[\"b.json\",\"a.json\"]}")),
        file("b.json", Some("{\"textures\":[\"c.png\"]}")),
        file("c.png", None),
    ];
    // a.json excludes itself and b.json; b.json still excludes c.png.
    assert_eq!(scan(tree), Vec::<String>::new());
}

#[test]
fn aggregate_is_listed_even_when_referenced_or_unreadable() {
    let tree = vec![
        file("a.json", Some("{\"textures\":[\"b.jsonl\",\"c.jsonl\"]}")),
        file("b.jsonl", Some("{\"path\":\"x.json\"}")),
        file("c.jsonl", None),
    ];
    assert_eq!(scan(tree), vec!["a.json".to_string(), "b.jsonl".to_string(), "c.jsonl".to_string()]);
}

#[test]
fn aggregate_skips_lines_that_name_nothing() {
    let text = "not json\n\n{\"name\":\"no path\"}\r\n{\"path\":5}\n{\"path\":\"m/a.json\"}\r\n{\"path\":\"../out.json\"}\n{\"path\":\"m/gone.json\"}";
    let tree = vec![
        file("all.jsonl", Some(text)),
        dir(
            "m",
            vec![
                file("a.json", Some("{\"textures\":[\"a.png\",\"../top.png\"]}")),
                file("b.json", Some("{\"textures\":[\"b.png\"]}")),
                file("a.png", None),
                file("b.png", None),
            ],
        ),
        file("top.png", None),
    ];
    assert_eq!(scan(tree), vec!["all.jsonl".to_string(), "m/b.json".to_string()]);
}

#[test]
fn sub_model_that_cannot_be_parsed_excludes_only_itself() {
    let tree = vec![
        file("all.jsonl", Some("{\"path\":\"m.json\"}\n{\"path\":\"n.json\"}")),
        file("m.json", Some("{\"textures\":[\"t.png\"")),
        file("n.json", None),
        file("t.png", None),
    ];
    assert_eq!(scan(tree), vec!["all.jsonl".to_string(), "t.png".to_string()]);
}

#[test]
fn paths_are_compared_letter_by_letter() {
    let tree = vec![file("m.json", Some("{\"textures\":[\"A.png\"]}")), file("a.png", None)];
    assert_eq!(scan(tree), vec!["m.json".to_string(), "a.png".to_string()]);
}

#[test]
fn backslash_references_are_understood() {
    let tree = vec![
        file("m.json", Some("{\"textures\":[\"tex\\\\a.png\",\".\\\\b.png\"]}")),
        file("b.png", None),
        dir("tex", vec![file("a.png", None)]),
    ];
    assert_eq!(scan(tree), vec!["m.json".to_string()]);
}

#[test]
fn no_path_is_listed_twice() {
    let tree = vec![
        file("a.jsonl", Some("")),
        file("b.json", Some("{\"model\":1}")),
        dir("d", vec![file("a.jsonl", Some("")), file("b.json", Some("{\"model\":1}")), file("p.png", None)]),
        file("p.png", None),
    ];
    let found = scan(tree);
    assert_eq!(found.len(), 6);
    for (i, path) in found.iter().enumerate() {
        assert!(!found[..i].contains(path));
        assert!(!path.starts_with('/'));
        assert!(!path.contains('\\'));
    }
}

fn names(parts: &[&str]) -> Vec<String> {
    parts.iter().map(|p| p.to_string()).collect()
}

#[test]
fn sub_models_that_a_scan_looks_up() {
    let tree = vec![
        file("all.jsonl", Some("{\"path\":\"m/a.model\"}\nnot json\n{\"path\":\"../out\"}\n{\"path\":\"b.json\"}")),
        dir("m", vec![file("inner.jsonl", Some("{\"path\":\"x.json\"}")), file("a.model", None)]),
        file("plain.json", Some("{\"path\":\"ignored.json\"}")),
        file("unread.jsonl", None),
    ];
    assert_eq!(
        named_sub_models("/srv/root", &tree),
        vec![names(&["m", "a.model"]), names(&["b.json"]), names(&["m", "x.json"])]
    );
    let locked = vec![
        file("all.jsonl", Some("{\"path\":\"a.json\"}\n{\"path\":\"/srv/root/b/c.json\"}")),
        Node::Directory { name: "locked".to_string(), entries: None },
    ];
    assert_eq!(
        named_sub_models("/srv/root", &locked),
        vec![names(&["a.json"]), names(&["b", "c.json"])]
    );
    assert_eq!(named_sub_models("root", &locked), vec![names(&["a.json"])]);
}

#[test]
fn directory_named_like_a_manifest_is_walked_with_the_rest() {
    let tree = vec![
        dir("x.json", vec![file("a.png", None), file("b.png", None)]),
        file("model.json", Some("{\"textures\":[\"x.json/a.png\"]}")),
    ];
    assert_eq!(scan(tree), vec!["model.json".to_string(), "x.json/b.png".to_string()]);
}

#[test]
fn manifest_comes_before_everything_below_its_directory() {
    let tree = vec![
        dir(
            "a",
            vec![
                dir("deep", vec![dir("er", vec![file("t.png", None), file("sub.json", Some("{\"model\":1}"))])]),
                file("m.json", Some("{\"textures\":[\"deep/er/t.png\",\"deep/er/sub.json\"]}")),
            ],
        ),
    ];
    assert_eq!(scan(tree), vec!["a/m.json".to_string()]);
}

#[test]
fn backslash_in_a_name_is_written_as_a_slash() {
    let tree = vec![
        file("odd\\name.png", None),
        dir("d\\e", vec![file("m.json", Some("{\"textures\":[\"t.png\"]}")), file("t.png", None), file("u.png", None)]),
    ];
    assert_eq!(
        scan(tree),
        vec!["odd/name.png".to_string(), "d/e/m.json".to_string(), "d/e/u.png".to_string()]
    );
}

#[test]
fn rooted_reference_inside_the_scan_root_excludes() {
    let text = "{\"textures\":[\"/srv/root/tex/a.png\",\"/srv//root/./tex/b.png\",\"/srv/other/tex/c.png\",\"/srv/root/../root/tex/d.png\"]}";
    let tree = || {
        vec![
            file("m.json", Some(text)),
            dir("tex", vec![file("a.png", None), file("b.png", None), file("c.png", None), file("d.png", None)]),
        ]
    };
    assert_eq!(
        scan(tree()),
        vec!["m.json".to_string(), "tex/c.png".to_string(), "tex/d.png".to_string()]
    );
    let root = dir("root", tree());
    // A scan root given by a path that is not rooted matches no rooted reference.
    assert_eq!(
        scan_directory_recursive("root", Some(&root)),
        Ok(vec![
            "m.json".to_string(),
            "tex/a.png".to_string(),
            "tex/b.png".to_string(),
            "tex/c.png".to_string(),
            "tex/d.png".to_string(),
        ])
    );
}
