use asset_discovery::names::{classify_name, extension, file_name, has_manifest_name, FileClass};
use asset_discovery::text::{
    chars_of, has_suffix, same_chars, spells, split, string_of, suffix_after_last, to_lowered,
    Delimiter,
};

fn chars(s: &str) -> Vec<char> {
    s.chars().collect()
}

#[test]
fn chars_round_trip() {
    let found = chars_of("a/b.png");
    assert_eq!(found, vec!['a', '/', 'b', '.', 'p', 'n', 'g']);
    assert_eq!(string_of(&found), "a/b.png");
    assert_eq!(string_of(&chars_of("测试.png")), "测试.png");
}

#[test]
fn lowering_touches_ascii_capitals_only() {
    assert_eq!(to_lowered(&chars("PnG-ÄZ09")), chars("png-Äz09"));
}

#[test]
fn comparing_texts() {
    assert!(same_chars(&chars("abc"), &chars("abc")));
    assert!(!same_chars(&chars("abc"), &chars("abd")));
    assert!(!same_chars(&chars("abc"), &chars("ab")));
    assert!(spells(&chars("json"), "json"));
    assert!(!spells(&chars("jsonl"), "json"));
    assert!(has_suffix(&chars("x.model.json"), "model.json"));
    assert!(has_suffix(&chars("model.json"), "model.json"));
    assert!(!has_suffix(&chars("odel.json"), "model.json"));
}

#[test]
fn splitting_keeps_empty_pieces() {
    assert_eq!(split(&chars("a/b\\c"), Delimiter::Separator), vec![chars("a"), chars("b"), chars("c")]);
    assert_eq!(split(&chars(""), Delimiter::Separator), vec![chars("")]);
    assert_eq!(split(&chars("/a//"), Delimiter::Separator), vec![chars(""), chars("a"), chars(""), chars("")]);
    assert_eq!(split(&chars("x\ny\n"), Delimiter::LineFeed), vec![chars("x"), chars("y"), chars("")]);
    assert_eq!(split(&chars("a?b?c"), Delimiter::Query), vec![chars("a"), chars("b"), chars("c")]);
}

#[test]
fn suffix_behind_the_last_delimiter() {
    assert_eq!(suffix_after_last(&chars("a.b.c"), Delimiter::Dot), chars("c"));
    assert_eq!(suffix_after_last(&chars("abc"), Delimiter::Dot), chars("abc"));
    assert_eq!(suffix_after_last(&chars("abc."), Delimiter::Dot), chars(""));
}

#[test]
fn file_names_and_extensions() {
    assert_eq!(file_name(&chars("a/b/c.png")), chars("c.png"));
    assert_eq!(file_name(&chars("a\\c.png")), chars("c.png"));
    assert_eq!(file_name(&chars("c.png")), chars("c.png"));
    assert_eq!(file_name(&chars("a/")), chars(""));
    assert_eq!(extension(&chars("c.png")), Some(chars("png")));
    assert_eq!(extension(&chars("a.tar.gz")), Some(chars("gz")));
    assert_eq!(extension(&chars("c.")), Some(chars("")));
    assert_eq!(extension(&chars("readme")), None);
    assert_eq!(extension(&chars(".json")), None);
    assert_eq!(extension(&chars(".a.json")), Some(chars("json")));
    assert_eq!(extension(&chars("")), None);
}

#[test]
fn classes_of_files() {
    assert_eq!(classify_name(&chars("bundle.jsonl")), FileClass::Aggregate);
    assert_eq!(classify_name(&chars("Bundle.JSONL")), FileClass::Aggregate);
    assert_eq!(classify_name(&chars("model.json")), FileClass::Descriptor);
    assert_eq!(classify_name(&chars("model.Json")), FileClass::Descriptor);
    for name in ["a.png", "a.jpg", "a.jpeg", "a.gif", "a.bmp", "a.webp", "a.webm", "a.PNG"] {
        assert_eq!(classify_name(&chars(name)), FileClass::Media);
    }
    for name in ["a.moc3", "a.txt", "a", ".png", "a.mp4", "a.json5"] {
        assert_eq!(classify_name(&chars(name)), FileClass::Other);
    }
    assert!(has_manifest_name(&chars("x.json")));
    assert!(has_manifest_name(&chars("x.jsonl")));
    assert!(!has_manifest_name(&chars("x.png")));
    assert!(!has_manifest_name(&chars("json")));
}
