use asset_discovery::json::JsonValue;
use asset_discovery::manifest::{collect_references, detect_kind, extract_references, ManifestKind};

fn chars(s: &str) -> Vec<char> {
    s.chars().collect()
}

fn text(s: &str) -> JsonValue {
    JsonValue::Text(s.to_string())
}

fn object(members: Vec<(&str, JsonValue)>) -> JsonValue {
    JsonValue::Object(members.into_iter().map(|(k, v)| (k.to_string(), v)).collect())
}

fn strings(found: Vec<Vec<char>>) -> Vec<String> {
    found.into_iter().map(|c| c.into_iter().collect()).collect()
}

#[test]
fn json_lookups() {
    let doc = object(vec![
        ("a", text("x")),
        ("list", JsonValue::Array(vec![text("p"), JsonValue::Null, JsonValue::Bool(true), text("q")])),
    ]);
    assert_eq!(doc.get("a"), Some(&text("x")));
    assert_eq!(doc.get("b"), None);
    assert!(doc.has_member("list"));
    assert!(!doc.has_member("A"));
    assert_eq!(text("x").get("a"), None);
    assert_eq!(text("x").as_text(), Some(chars("x")));
    assert_eq!(JsonValue::Null.as_text(), None);
    assert_eq!(strings(doc.get("list").unwrap().text_items()), vec!["p", "q"]);
    assert_eq!(strings(text("x").text_items()), Vec::<String>::new());
}

#[test]
fn schemas_in_order_of_priority() {
    let empty = object(vec![]);
    assert_eq!(detect_kind(&chars("x.json"), &empty), ManifestKind::Unrecognized);
    assert_eq!(detect_kind(&chars("hero.char.json"), &empty), ManifestKind::RiggedModelV2);
    assert_eq!(detect_kind(&chars("model.json"), &empty), ManifestKind::RiggedModelV2);
    assert_eq!(detect_kind(&chars("HeroModel.JSON"), &empty), ManifestKind::RiggedModelV2);
    assert_eq!(detect_kind(&chars("x.json"), &JsonValue::Array(vec![])), ManifestKind::Unrecognized);
    for key in ["model", "textures", "motions"] {
        let doc = object(vec![(key, JsonValue::Null)]);
        assert_eq!(detect_kind(&chars("x.json"), &doc), ManifestKind::RiggedModelV2);
    }
    let v3 = object(vec![("Version", JsonValue::Number("3".to_string())), ("FileReferences", object(vec![]))]);
    assert_eq!(detect_kind(&chars("x.model3.json"), &v3), ManifestKind::RiggedModelV3V4);
    let only_version = object(vec![("Version", JsonValue::Number("3".to_string()))]);
    assert_eq!(detect_kind(&chars("x.json"), &only_version), ManifestKind::Unrecognized);
    for key in ["settings", "setting", "assets", "controller"] {
        let doc = object(vec![(key, JsonValue::Null)]);
        assert_eq!(detect_kind(&chars("x.json"), &doc), ManifestKind::LayeredComposite);
    }
    let both = object(vec![("textures", JsonValue::Null), ("Version", JsonValue::Null), ("FileReferences", JsonValue::Null), ("assets", JsonValue::Null)]);
    assert_eq!(detect_kind(&chars("x.json"), &both), ManifestKind::RiggedModelV2);
    let v3_and_composite = object(vec![("Version", JsonValue::Null), ("FileReferences", JsonValue::Null), ("assets", JsonValue::Null)]);
    assert_eq!(detect_kind(&chars("x.json"), &v3_and_composite), ManifestKind::RiggedModelV3V4);
}

#[test]
fn references_of_a_v2_model() {
    let doc = object(vec![("textures", JsonValue::Array(vec![text("a.png"), JsonValue::Null, text("tex/b.png")]))]);
    assert_eq!(strings(collect_references(ManifestKind::RiggedModelV2, &doc)), vec!["a.png", "tex/b.png"]);
    let no_array = object(vec![("textures", text("a.png"))]);
    assert_eq!(strings(collect_references(ManifestKind::RiggedModelV2, &no_array)), Vec::<String>::new());
}

#[test]
fn references_of_a_v3_model() {
    let doc = object(vec![(
        "FileReferences",
        object(vec![
            ("Moc", text("m.moc3")),
            ("Textures", JsonValue::Array(vec![text("t/0.png"), text("t/1.png")])),
            ("Physics", text("m.physics3.json")),
            ("DisplayInfo", text("m.cdi3.json")),
        ]),
    )]);
    assert_eq!(
        strings(collect_references(ManifestKind::RiggedModelV3V4, &doc)),
        vec!["t/0.png", "t/1.png", "m.physics3.json", "m.cdi3.json", "m.moc3"]
    );
    let partial = object(vec![("FileReferences", object(vec![("Physics", text("p.json")), ("Moc", JsonValue::Null)]))]);
    assert_eq!(strings(collect_references(ManifestKind::RiggedModelV3V4, &partial)), vec!["p.json"]);
}

#[test]
fn references_of_a_composite() {
    let doc = object(vec![(
        "assets",
        object(vec![(
            "layers",
            JsonValue::Array(vec![
                object(vec![("path", text("l/0.png"))]),
                object(vec![("name", text("no path"))]),
                text("not an object"),
                object(vec![("path", text("l/1.png"))]),
            ]),
        )]),
    )]);
    assert_eq!(strings(collect_references(ManifestKind::LayeredComposite, &doc)), vec!["l/0.png", "l/1.png"]);
    assert_eq!(strings(collect_references(ManifestKind::Unrecognized, &doc)), Vec::<String>::new());
    assert_eq!(strings(collect_references(ManifestKind::AggregateJsonLines, &doc)), Vec::<String>::new());
}

#[test]
fn extracted_references_are_resolved() {
    let doc = object(vec![("textures", JsonValue::Array(vec![text("tex/a.png"), text("../../out.png"), text("../b.png")]))]);
    let dir = vec![chars("a")];
    assert_eq!(
        strings(extract_references(&None, ManifestKind::RiggedModelV2, &doc, &dir)),
        vec!["a/tex/a.png", "b.png"]
    );
}
