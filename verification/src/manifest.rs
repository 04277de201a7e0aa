//! Manifests: the descriptor schemas that a scan recognizes, and the
//! references to other files that each of them holds.

use crate::json::{member_of, JsonValue};
use crate::paths::{anchor_view, asset_path_of, resolve_each, resolve_reference};
use crate::text::{ends_with, has_suffix, lowered, to_lowered, views};
use vstd::prelude::*;

verus! {

/// The schema of a manifest.
#[derive(Clone, Copy, Debug, PartialEq, Eq, Structural)]
pub enum ManifestKind {
    /// One JSON record per line, each of which may name a sub-model by `path`.
    AggregateJsonLines,
    /// A rigged model with `model`, `textures` or `motions`.
    RiggedModelV2,
    /// A rigged model with `Version` and `FileReferences`.
    RiggedModelV3V4,
    /// A layered image with `settings`, `assets` or `controller`.
    LayeredComposite,
    /// None of these.
    Unrecognized,
}

/// Whether a file name alone marks a descriptor as a model: `*.char.json`
/// and `*model.json` do.  Letter case is ignored.
pub open spec fn is_model_name(name: Seq<char>) -> bool {
    ends_with(lowered(name), ".char.json"@) || ends_with(lowered(name), "model.json"@)
}

/// The schema of the JSON document `doc` found in a file called `name`.
/// The schemas are tried in a fixed order and the first that fits wins.
pub open spec fn kind_of(name: Seq<char>, doc: JsonValue) -> ManifestKind {
    if is_model_name(name) || doc.has("model"@) || doc.has("textures"@) || doc.has("motions"@) {
        ManifestKind::RiggedModelV2
    } else if doc.has("Version"@) && doc.has("FileReferences"@) {
        ManifestKind::RiggedModelV3V4
    } else if doc.has("settings"@) || doc.has("setting"@) || doc.has("assets"@) || doc.has(
        "controller"@,
    ) {
        ManifestKind::LayeredComposite
    } else {
        ManifestKind::Unrecognized
    }
}

/// The one reference that `value` holds where it is a string; else none.
pub open spec fn single_text(value: Option<JsonValue>) -> Seq<Seq<char>> {
    match value {
        Some(JsonValue::Text(s)) => seq![s@],
        _ => Seq::<Seq<char>>::empty(),
    }
}

/// The strings among the items of `value`, where it is an array; else none.
pub open spec fn listed_texts(value: Option<JsonValue>) -> Seq<Seq<char>> {
    match value {
        Some(v) => v.texts(),
        None => Seq::<Seq<char>>::empty(),
    }
}

/// The `path` of each of `layers` that has one, in order.
pub open spec fn layer_paths(layers: Seq<JsonValue>) -> Seq<Seq<char>>
    decreases layers.len(),
{
    if layers.len() == 0 {
        Seq::<Seq<char>>::empty()
    } else {
        layer_paths(layers.drop_last()) + single_text(layers.last().member("path"@))
    }
}

/// The references that a document of the given schema holds, as written.
pub open spec fn references_of(kind: ManifestKind, doc: JsonValue) -> Seq<Seq<char>> {
    match kind {
        ManifestKind::RiggedModelV2 => listed_texts(doc.member("textures"@)),
        ManifestKind::RiggedModelV3V4 => {
            let files = doc.member("FileReferences"@);
            listed_texts(member_of(files, "Textures"@)) + single_text(
                member_of(files, "Physics"@),
            ) + single_text(member_of(files, "DisplayInfo"@)) + single_text(
                member_of(files, "Moc"@),
            )
        },
        ManifestKind::LayeredComposite => match member_of(doc.member("assets"@), "layers"@) {
            Some(layers) => layer_paths(layers.items()),
            None => Seq::<Seq<char>>::empty(),
        },
        _ => Seq::<Seq<char>>::empty(),
    }
}

/// The asset paths that a document of the given schema, found in the
/// directory `dir`, refers to.  Each reference is resolved against `dir`;
/// those that name nothing inside the scan root are dropped.  `anchor`
/// tells where the scan root lies, for references that are rooted.
pub open spec fn extracted(
    anchor: Option<Seq<Seq<char>>>,
    kind: ManifestKind,
    doc: JsonValue,
    dir: Seq<Seq<char>>,
) -> Seq<Seq<char>> {
    resolve_each(anchor, dir, references_of(kind, doc))
}

/// Computes [`kind_of`].
pub fn detect_kind(name: &Vec<char>, doc: &JsonValue) -> (kind: ManifestKind)
    ensures
        kind == kind_of(name@, *doc),
{
    let low = to_lowered(name);
    if has_suffix(&low, ".char.json") || has_suffix(&low, "model.json") || doc.has_member("model")
        || doc.has_member("textures") || doc.has_member("motions") {
        ManifestKind::RiggedModelV2
    } else if doc.has_member("Version") && doc.has_member("FileReferences") {
        ManifestKind::RiggedModelV3V4
    } else if doc.has_member("settings") || doc.has_member("setting") || doc.has_member("assets")
        || doc.has_member("controller") {
        ManifestKind::LayeredComposite
    } else {
        ManifestKind::Unrecognized
    }
}

/// Appends [`single_text`] of `value` to `out`.
fn push_single_text(out: &mut Vec<Vec<char>>, value: Option<&JsonValue>)
    ensures
        views(final(out)@) == views(old(out)@) + single_text(
            match value {
                Some(v) => Some(*v),
                None => None,
            },
        ),
{
    match value {
        Some(v) => match v.as_text() {
            Some(chars) => {
                assert(views(out@.push(chars)) == views(out@) + seq![chars@]);
                out.push(chars);
            },
            None => {
                assert(views(out@) + Seq::<Seq<char>>::empty() == views(out@));
            },
        },
        None => {
            assert(views(out@) + Seq::<Seq<char>>::empty() == views(out@));
        },
    }
}

/// Appends the members of `more` to `out`.
fn push_all(out: &mut Vec<Vec<char>>, more: Vec<Vec<char>>)
    ensures
        views(final(out)@) == views(old(out)@) + views(more@),
{
    let mut more = more;
    let ghost all = views(more@);
    let ghost start = views(out@);
    let mut tail: Vec<Vec<char>> = Vec::new();
    // Move the items over from the back, then restore their order.
    while more.len() > 0
        invariant
            views(more@) + views(tail@).reverse() == all,
            views(out@) == start,
        decreases more.len(),
    {
        let ghost before = views(more@);
        let ghost done = views(tail@);
        let item = more.pop().unwrap();
        proof {
            assert(views(more@) == before.drop_last());
            assert(views(tail@.push(item)) == done.push(item@));
            assert(done.push(item@).reverse() == seq![item@] + done.reverse());
            assert(before == before.drop_last().push(item@));
            assert(before.drop_last() + (seq![item@] + done.reverse()) == before + done.reverse());
        }
        tail.push(item);
    }
    assert(views(more@) == Seq::<Seq<char>>::empty());
    assert(views(tail@).reverse() == all);
    while tail.len() > 0
        invariant
            views(out@) + views(tail@).reverse() == start + all,
        decreases tail.len(),
    {
        let ghost before = views(tail@);
        let ghost done = views(out@);
        let item = tail.pop().unwrap();
        proof {
            assert(views(tail@) == before.drop_last());
            assert(views(out@.push(item)) == done.push(item@));
            assert(before == before.drop_last().push(item@));
            assert(before.reverse() == seq![item@] + before.drop_last().reverse());
            assert(done.push(item@) + before.drop_last().reverse() == done + before.reverse());
        }
        out.push(item);
    }
    assert(views(tail@).reverse() == Seq::<Seq<char>>::empty());
    assert(views(out@) + Seq::<Seq<char>>::empty() == views(out@));
}

/// Computes [`references_of`].
pub fn collect_references(kind: ManifestKind, doc: &JsonValue) -> (refs: Vec<Vec<char>>)
    ensures
        views(refs@) == references_of(kind, *doc),
{
    let mut refs: Vec<Vec<char>> = Vec::new();
    assert(views(refs@) == Seq::<Seq<char>>::empty());
    match kind {
        ManifestKind::RiggedModelV2 => match doc.get("textures") {
            Some(list) => list.text_items(),
            None => refs,
        },
        ManifestKind::RiggedModelV3V4 => {
            let files = doc.get("FileReferences");
            let textures = match files {
                Some(f) => f.get("Textures"),
                None => None,
            };
            let physics = match files {
                Some(f) => f.get("Physics"),
                None => None,
            };
            let display = match files {
                Some(f) => f.get("DisplayInfo"),
                None => None,
            };
            let moc = match files {
                Some(f) => f.get("Moc"),
                None => None,
            };
            match textures {
                Some(list) => {
                    let found = list.text_items();
                    push_all(&mut refs, found);
                },
                None => {},
            }
            assert(views(refs@) == listed_texts(member_of(doc.member("FileReferences"@), "Textures"@)));
            push_single_text(&mut refs, physics);
            push_single_text(&mut refs, display);
            push_single_text(&mut refs, moc);
            refs
        },
        ManifestKind::LayeredComposite => {
            let assets = doc.get("assets");
            let layers = match assets {
                Some(a) => a.get("layers"),
                None => None,
            };
            match layers {
                Some(JsonValue::Array(items)) => {
                    let mut i: usize = 0;
                    assert(items@.take(0) == Seq::<JsonValue>::empty());
                    while i < items.len()
                        invariant
                            i <= items.len(),
                            views(refs@) == layer_paths(items@.take(i as int)),
                        decreases items.len() - i,
                    {
                        assert(items@.take(i + 1).drop_last() == items@.take(i as int));
                        assert(items@.take(i + 1).last() == items@[i as int]);
                        let path = items[i].get("path");
                        push_single_text(&mut refs, path);
                        i += 1;
                    }
                    assert(items@.take(items.len() as int) == items@);
                    refs
                },
                _ => refs,
            }
        },
        _ => refs,
    }
}

/// Resolves each of `refs` against `dir` and appends the asset paths of
/// those that stay inside the scan root to `out`.
pub fn resolve_into(
    out: &mut Vec<Vec<char>>,
    anchor: &Option<Vec<Vec<char>>>,
    dir: &Vec<Vec<char>>,
    refs: &Vec<Vec<char>>,
)
    ensures
        views(final(out)@) == views(old(out)@) + resolve_each(
            anchor_view(*anchor),
            views(dir@),
            views(refs@),
        ),
{
    let mut i: usize = 0;
    assert(views(refs@).take(0) == Seq::<Seq<char>>::empty());
    assert(views(out@) + Seq::<Seq<char>>::empty() == views(out@));
    while i < refs.len()
        invariant
            i <= refs.len(),
            views(out@) == views(old(out)@) + resolve_each(
                anchor_view(*anchor),
                views(dir@),
                views(refs@).take(i as int),
            ),
        decreases refs.len() - i,
    {
        let ghost before = resolve_each(
            anchor_view(*anchor),
            views(dir@),
            views(refs@).take(i as int),
        );
        proof {
            assert(views(refs@).take(i + 1).drop_last() == views(refs@).take(i as int));
            assert(views(refs@).take(i + 1).last() == refs@[i as int]@);
        }
        match resolve_reference(anchor, dir, &refs[i]) {
            Some(parts) => {
                let path = asset_path_of(&parts);
                assert(views(out@.push(path)) == views(out@).push(path@));
                assert((views(old(out)@) + before).push(path@) == views(old(out)@) + before.push(
                    path@,
                ));
                out.push(path);
            },
            None => {},
        }
        i += 1;
    }
    assert(views(refs@).take(refs.len() as int) == views(refs@));
}

/// The reference extractor for a parsed descriptor: the asset paths that
/// `doc`, of schema `kind` and found in the directory `dir`, refers to.
pub fn extract_references(
    anchor: &Option<Vec<Vec<char>>>,
    kind: ManifestKind,
    doc: &JsonValue,
    dir: &Vec<Vec<char>>,
) -> (found: Vec<Vec<char>>)
    ensures
        views(found@) == extracted(anchor_view(*anchor), kind, *doc, views(dir@)),
{
    let refs = collect_references(kind, doc);
    let mut found: Vec<Vec<char>> = Vec::new();
    assert(views(found@) == Seq::<Seq<char>>::empty());
    resolve_into(&mut found, anchor, dir, &refs);
    let ghost all = resolve_each(anchor_view(*anchor), views(dir@), views(refs@));
    assert(Seq::<Seq<char>>::empty() + all == all);
    found
}

} // verus!
