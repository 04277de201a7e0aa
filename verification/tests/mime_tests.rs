use asset_discovery::mime::{guess_mime_type, mime_for_extension};

#[test]
fn known_extensions() {
    assert_eq!(guess_mime_type("a/b.png"), "image/png");
    assert_eq!(guess_mime_type("b.jpg"), "image/jpeg");
    assert_eq!(guess_mime_type("b.jpeg"), "image/jpeg");
    assert_eq!(guess_mime_type("b.gif"), "image/gif");
    assert_eq!(guess_mime_type("b.webp"), "image/webp");
    assert_eq!(guess_mime_type("b.bmp"), "image/bmp");
    assert_eq!(guess_mime_type("b.webm"), "video/webm");
    assert_eq!(guess_mime_type("b.json"), "application/json");
    assert_eq!(guess_mime_type("b.jsonl"), "application/x-ndjson");
}

#[test]
fn letter_case_is_ignored() {
    assert_eq!(guess_mime_type("a/b.PNG"), "image/png");
    assert_eq!(guess_mime_type("a/b.JpEg"), "image/jpeg");
    assert_eq!(guess_mime_type("/srv/x/Model.JSON"), "application/json");
}

#[test]
fn rigging_binaries_are_plain_bytes() {
    for ext in [
        "moc", "moc3", "physics", "physics3", "motion", "motion3", "expression", "exp3", "mtn",
        "exp",
    ] {
        assert_eq!(guess_mime_type(&format!("model.{}", ext)), "application/octet-stream");
    }
}

#[test]
fn unknown_or_missing_extension_is_plain_bytes() {
    assert_eq!(guess_mime_type("a/b.xyz"), "application/octet-stream");
    assert_eq!(guess_mime_type("a/b"), "application/octet-stream");
    assert_eq!(guess_mime_type(""), "application/octet-stream");
    assert_eq!(guess_mime_type("a.png/b"), "application/octet-stream");
    assert_eq!(guess_mime_type("a/.png"), "application/octet-stream");
    assert_eq!(guess_mime_type("a/b."), "application/octet-stream");
}

#[test]
fn content_type_of_an_extension() {
    let png: Vec<char> = "PNG".chars().collect();
    assert_eq!(mime_for_extension(Some(&png)), "image/png");
    assert_eq!(mime_for_extension(None), "application/octet-stream");
}
