//! The asset scanner: which files of a directory snapshot are top-level
//! assets, and which belong to a manifest and are left out.
//!
//! The files are taken in the order of the walk.  Each manifest adds the
//! files that it refers to to the set of exclusions; a descriptor or a media
//! file is listed unless a manifest walked so far, itself included, has
//! excluded it.  An aggregate is always listed.  A directory below the root
//! that could not be listed holds nothing for the scan; only the root
//! itself can make a scan fail.

use crate::json::{parse_json, parsed_json, JsonValue};
use crate::manifest::{
    detect_kind, extract_references, extracted, kind_of, listed_texts, resolve_into, ManifestKind,
};
use crate::names::{class_of, classify_name, FileClass};
use crate::paths::{
    anchor, anchor_of, anchor_view, asset_path, asset_path_of, copy_parts, resolve, resolve_each,
    resolve_reference,
};
use crate::text::{
    chars_of, copy_chars, marks, pieces, same_chars, split, string_of, views, Delimiter,
};
use crate::tree::{all_consistent, collect, seens, walk_entries, Node, Seen, Walked};
use vstd::prelude::*;

verus! {

/// Why a scan failed.
#[derive(Clone, Copy, Debug, PartialEq, Eq, Structural)]
pub enum ScanError {
    /// Nothing exists at the scan root.
    NotFound,
    /// The scan root is not a directory.
    NotADirectory,
    /// The scan root could not be listed.
    IoError,
}

/// The content of the first of `walk` whose asset path is `path`, where it
/// could be read.
pub open spec fn text_at(walk: Seq<Seen>, path: Seq<char>) -> Option<Seq<char>>
    decreases walk.len(),
{
    if walk.len() == 0 {
        None
    } else if walk[0].path() == path {
        walk[0].text
    } else {
        text_at(walk.drop_first(), path)
    }
}

/// The asset paths that the textures of the sub-model at `parts` name.  They
/// are resolved against the directory of the sub-model.  Where the sub-model
/// is not among the files of the walk, or cannot be read or parsed, there
/// are none.
pub open spec fn sub_model_exclusions(
    anchor: Option<Seq<Seq<char>>>,
    parts: Seq<Seq<char>>,
    walk: Seq<Seen>,
) -> Seq<Seq<char>> {
    if parts.len() == 0 {
        Seq::<Seq<char>>::empty()
    } else {
        match text_at(walk, asset_path(parts)) {
            Some(text) => match parsed_json(text) {
                Some(model) => resolve_each(
                    anchor,
                    parts.drop_last(),
                    listed_texts(model.member("textures"@)),
                ),
                None => Seq::<Seq<char>>::empty(),
            },
            None => Seq::<Seq<char>>::empty(),
        }
    }
}

/// The components of the sub-model that one line of an aggregate in the
/// directory `dir` names: the line must parse as JSON and hold a string
/// under `path` that names something inside the scan root.
pub open spec fn sub_model_of(
    anchor: Option<Seq<Seq<char>>>,
    line: Seq<char>,
    dir: Seq<Seq<char>>,
) -> Option<Seq<Seq<char>>> {
    match parsed_json(line) {
        Some(record) => match record.member("path"@) {
            Some(JsonValue::Text(reference)) => resolve(anchor, dir, reference@),
            _ => None,
        },
        None => None,
    }
}

/// The asset paths that one line of an aggregate excludes: the sub-model
/// that it names and the textures of that sub-model.
pub open spec fn line_exclusions(
    anchor: Option<Seq<Seq<char>>>,
    line: Seq<char>,
    dir: Seq<Seq<char>>,
    walk: Seq<Seen>,
) -> Seq<Seq<char>> {
    match sub_model_of(anchor, line, dir) {
        Some(parts) => seq![asset_path(parts)] + sub_model_exclusions(anchor, parts, walk),
        None => Seq::<Seq<char>>::empty(),
    }
}

/// The asset paths that the lines of an aggregate exclude.
pub open spec fn aggregate_exclusions(
    anchor: Option<Seq<Seq<char>>>,
    lines: Seq<Seq<char>>,
    dir: Seq<Seq<char>>,
    walk: Seq<Seen>,
) -> Seq<Seq<char>>
    decreases lines.len(),
{
    if lines.len() == 0 {
        Seq::<Seq<char>>::empty()
    } else {
        aggregate_exclusions(anchor, lines.drop_last(), dir, walk) + line_exclusions(
            anchor,
            lines.last(),
            dir,
            walk,
        )
    }
}

/// The document in `file`, where it is a descriptor that can be read and
/// parsed.
pub open spec fn document_of(file: Seen) -> Option<JsonValue> {
    if class_of(file.name()) == FileClass::Descriptor {
        match file.text {
            Some(text) => parsed_json(text),
            None => None,
        }
    } else {
        None
    }
}

/// The schema of `file` as a manifest.
pub open spec fn manifest_kind(file: Seen) -> ManifestKind {
    if class_of(file.name()) == FileClass::Aggregate {
        ManifestKind::AggregateJsonLines
    } else {
        match document_of(file) {
            Some(doc) => kind_of(file.name(), doc),
            None => ManifestKind::Unrecognized,
        }
    }
}

/// The asset paths that `file` excludes, `walk` being all the files of the
/// scan.  Only manifests exclude anything; one that cannot be read or parsed
/// excludes nothing.
pub open spec fn exclusions_of(anchor: Option<Seq<Seq<char>>>, file: Seen, walk: Seq<Seen>) -> Seq<
    Seq<char>,
> {
    match class_of(file.name()) {
        FileClass::Aggregate => match file.text {
            Some(text) => aggregate_exclusions(
                anchor,
                pieces(text, marks(Delimiter::LineFeed)),
                file.dir(),
                walk,
            ),
            None => Seq::<Seq<char>>::empty(),
        },
        FileClass::Descriptor => match document_of(file) {
            Some(doc) => extracted(anchor, kind_of(file.name(), doc), doc, file.dir()),
            None => Seq::<Seq<char>>::empty(),
        },
        _ => Seq::<Seq<char>>::empty(),
    }
}

/// The asset paths that the first `n` files of `walk` exclude.
pub open spec fn excluded_by(anchor: Option<Seq<Seq<char>>>, walk: Seq<Seen>, n: int) -> Set<
    Seq<char>,
>
    decreases n,
{
    if n <= 0 {
        Set::<Seq<char>>::empty()
    } else {
        excluded_by(anchor, walk, n - 1) + exclusions_of(anchor, walk[n - 1], walk).to_set()
    }
}

/// Whether the file at position `i` of `walk` is listed: an aggregate
/// always; a descriptor of a recognized schema and a media file unless one
/// of the manifests up to and with position `i` has excluded it; nothing
/// else.
pub open spec fn is_listed(anchor: Option<Seq<Seq<char>>>, walk: Seq<Seen>, i: int) -> bool {
    match class_of(walk[i].name()) {
        FileClass::Aggregate => true,
        FileClass::Descriptor => manifest_kind(walk[i]) != ManifestKind::Unrecognized
            && !excluded_by(anchor, walk, i + 1).contains(walk[i].path()),
        FileClass::Media => !excluded_by(anchor, walk, i + 1).contains(walk[i].path()),
        FileClass::Other => false,
    }
}

/// The asset paths of those of the first `n` files of `walk` that are
/// listed, in the order of the walk.
pub open spec fn listing(anchor: Option<Seq<Seq<char>>>, walk: Seq<Seen>, n: int) -> Seq<
    Seq<char>,
>
    decreases n,
{
    if n <= 0 {
        Seq::<Seq<char>>::empty()
    } else if is_listed(anchor, walk, n - 1) {
        listing(anchor, walk, n - 1).push(walk[n - 1].path())
    } else {
        listing(anchor, walk, n - 1)
    }
}

/// The assets of a directory with the listing `entries`.  `anchor` tells
/// where the directory lies in the file system.
pub open spec fn assets_of(anchor: Option<Seq<Seq<char>>>, entries: Seq<Node>) -> Seq<Seq<char>> {
    let walk = walk_entries(entries, Seq::<Seq<char>>::empty());
    listing(anchor, walk, walk.len() as int)
}

/// The outcome of a scan of the directory at `dir_path`.  `root` is what
/// was found there, or `None` where nothing was.  The scan fails where the
/// root is missing, is no directory or could not be listed, and on nothing
/// else.
pub open spec fn scan_of(dir_path: Seq<char>, root: Option<Node>) -> Result<
    Seq<Seq<char>>,
    ScanError,
> {
    match root {
        None => Err(ScanError::NotFound),
        Some(Node::File { .. }) => Err(ScanError::NotADirectory),
        Some(Node::Directory { entries: None, .. }) => Err(ScanError::IoError),
        Some(Node::Directory { entries: Some(list), .. }) => Ok(
            assets_of(anchor_of(dir_path), list@),
        ),
    }
}

/// The views of a vector of strings.
pub open spec fn string_views(v: Seq<String>) -> Seq<Seq<char>> {
    Seq::new(v.len(), |i: int| v[i]@)
}

/// The paths that the manifests walked so far have excluded.  A path is
/// held once, however often it is inserted.
pub struct ExclusionSet {
    paths: Vec<Vec<char>>,
}

impl View for ExclusionSet {
    type V = Set<Seq<char>>;

    closed spec fn view(&self) -> Set<Seq<char>> {
        views(self.paths@).to_set()
    }
}

impl ExclusionSet {
    /// The empty set.
    pub fn new() -> (set: Self)
        ensures
            set@ == Set::<Seq<char>>::empty(),
    {
        let set = ExclusionSet { paths: Vec::new() };
        assert(set@ =~= Set::<Seq<char>>::empty());
        set
    }

    /// Whether `path` is in the set.
    pub fn contains(&self, path: &Vec<char>) -> (found: bool)
        ensures
            found == self@.contains(path@),
    {
        let mut i: usize = 0;
        while i < self.paths.len()
            invariant
                i <= self.paths.len(),
                forall|k: int| 0 <= k < i ==> (#[trigger] views(self.paths@)[k]) != path@,
            decreases self.paths.len() - i,
        {
            if same_chars(&self.paths[i], path) {
                assert(views(self.paths@)[i as int] == path@);
                return true;
            }
            i += 1;
        }
        false
    }

    /// Adds `path` to the set.
    pub fn insert(&mut self, path: Vec<char>)
        ensures
            final(self)@ == old(self)@.insert(path@),
    {
        if !self.contains(&path) {
            proof {
                let before = views(self.paths@);
                let after = views(self.paths@.push(path));
                assert(after == before.push(path@));
                assert forall|p: Seq<char>| after.contains(p) <==> (before.contains(p) || p
                    == path@) by {
                    if before.contains(p) {
                        let k = choose|k: int| 0 <= k < before.len() && before[k] == p;
                        assert(after[k] == p);
                    }
                    if p == path@ {
                        assert(after[before.len() as int] == p);
                    }
                }
                assert(after.to_set() =~= before.to_set().insert(path@));
            }
            self.paths.push(path);
        } else {
            assert(self@.insert(path@) =~= self@);
        }
    }

    /// Adds each of `paths` to the set.
    pub fn insert_each(&mut self, paths: &Vec<Vec<char>>)
        ensures
            final(self)@ == old(self)@ + views(paths@).to_set(),
    {
        let mut i: usize = 0;
        assert(self@ + views(paths@).take(0).to_set() =~= self@);
        while i < paths.len()
            invariant
                i <= paths.len(),
                self@ == old(self)@ + views(paths@).take(i as int).to_set(),
            decreases paths.len() - i,
        {
            proof {
                let before = views(paths@).take(i as int);
                let after = views(paths@).take(i + 1);
                assert(after == before.push(paths@[i as int]@));
                assert forall|p: Seq<char>| after.contains(p) <==> (before.contains(p) || p
                    == paths@[i as int]@) by {
                    if before.contains(p) {
                        let k = choose|k: int| 0 <= k < before.len() && before[k] == p;
                        assert(after[k] == p);
                    }
                    if p == paths@[i as int]@ {
                        assert(after[i as int] == p);
                    }
                }
                assert(after.to_set() =~= before.to_set().insert(paths@[i as int]@));
                assert((old(self)@ + before.to_set()).insert(paths@[i as int]@) =~= old(self)@
                    + after.to_set());
            }
            self.insert(copy_chars(&paths[i]));
            i += 1;
        }
        assert(views(paths@).take(paths.len() as int) == views(paths@));
    }
}

/// Computes [`text_at`].
pub fn find_text<'a>(walked: &Vec<Walked<'a>>, path: &Vec<char>) -> (found: Option<&'a String>)
    requires
        all_consistent(walked@),
    ensures
        match found {
            Some(text) => text_at(seens(walked@), path@) == Some(text@),
            None => text_at(seens(walked@), path@) is None,
        },
{
    let mut i: usize = 0;
    assert(seens(walked@).skip(0) == seens(walked@));
    while i < walked.len()
        invariant
            i <= walked.len(),
            all_consistent(walked@),
            text_at(seens(walked@), path@) == text_at(seens(walked@).skip(i as int), path@),
        decreases walked.len() - i,
    {
        assert(walked@[i as int].consistent());
        assert(seens(walked@).skip(i as int)[0] == walked@[i as int].seen());
        if same_chars(&walked[i].path, path) {
            return walked[i].text;
        }
        assert(seens(walked@).skip(i as int).drop_first() == seens(walked@).skip(i + 1));
        i += 1;
    }
    None
}

/// Computes [`sub_model_of`].
pub fn named_sub_model(
    anchor: &Option<Vec<Vec<char>>>,
    line: &Vec<char>,
    dir: &Vec<Vec<char>>,
) -> (found: Option<Vec<Vec<char>>>)
    ensures
        match found {
            Some(parts) => sub_model_of(anchor_view(*anchor), line@, views(dir@)) == Some(
                views(parts@),
            ),
            None => sub_model_of(anchor_view(*anchor), line@, views(dir@)) is None,
        },
{
    let text = string_of(line);
    match parse_json(text.as_str()) {
        Some(record) => match record.get("path") {
            Some(value) => match value.as_text() {
                Some(reference) => resolve_reference(anchor, dir, &reference),
                None => None,
            },
            None => None,
        },
        None => None,
    }
}

/// Appends [`line_exclusions`] of `line` to `out`.
fn exclude_line<'a>(
    out: &mut Vec<Vec<char>>,
    anchor: &Option<Vec<Vec<char>>>,
    line: &Vec<char>,
    dir: &Vec<Vec<char>>,
    walked: &Vec<Walked<'a>>,
)
    requires
        all_consistent(walked@),
    ensures
        views(final(out)@) == views(old(out)@) + line_exclusions(
            anchor_view(*anchor),
            line@,
            views(dir@),
            seens(walked@),
        ),
{
    let ghost start = views(out@);
    assert(start + Seq::<Seq<char>>::empty() == start);
    let parts = match named_sub_model(anchor, line, dir) {
        Some(parts) => parts,
        None => {
            return ;
        },
    };
    let path = asset_path_of(&parts);
    let ghost named = seq![path@];
    let own = copy_chars(&path);
    assert(views(out@.push(own)) == start + named) by {
        assert(views(out@.push(own)) =~= views(out@).push(path@));
    }
    out.push(own);
    assert(named + Seq::<Seq<char>>::empty() == named);
    if parts.len() == 0 {
        return ;
    }
    let model_text = match find_text(walked, &path) {
        Some(text) => text,
        None => {
            return ;
        },
    };
    let model = match parse_json(model_text.as_str()) {
        Some(model) => model,
        None => {
            return ;
        },
    };
    let textures = match model.get("textures") {
        Some(list) => list.text_items(),
        None => Vec::new(),
    };
    assert(views(textures@) == listed_texts(model.member("textures"@)));
    let mut model_dir = copy_parts(&parts);
    assert(views(model_dir@.drop_last()) == views(parts@).drop_last());
    model_dir.pop();
    resolve_into(out, anchor, &model_dir, &textures);
    proof {
        let more = resolve_each(anchor_view(*anchor), views(model_dir@), views(textures@));
        assert((start + named) + more == start + (named + more));
    }
}

/// Computes [`exclusions_of`] for the file at position `i`, and tells
/// whether the file is a manifest of a recognized schema.
fn exclusions_at<'a>(
    anchor: &Option<Vec<Vec<char>>>,
    walked: &Vec<Walked<'a>>,
    i: usize,
    class: FileClass,
) -> (found: (Vec<Vec<char>>, bool))
    requires
        i < walked.len(),
        all_consistent(walked@),
        class == class_of(seens(walked@)[i as int].name()),
    ensures
        views(found.0@) == exclusions_of(
            anchor_view(*anchor),
            seens(walked@)[i as int],
            seens(walked@),
        ),
        found.1 == (manifest_kind(seens(walked@)[i as int]) != ManifestKind::Unrecognized),
{
    let file = &walked[i];
    let ghost seen = seens(walked@)[i as int];
    assert(seen == file.seen());
    assert(file.consistent());
    let mut out: Vec<Vec<char>> = Vec::new();
    assert(views(out@) == Seq::<Seq<char>>::empty());
    match class {
        FileClass::Aggregate => {
            let text = match file.text {
                Some(text) => text,
                None => {
                    return (out, true);
                },
            };
            let mut dir = copy_parts(&file.parts);
            assert(views(dir@.drop_last()) == views(file.parts@).drop_last());
            dir.pop();
            let chars = chars_of(text.as_str());
            let lines = split(&chars, Delimiter::LineFeed);
            let mut k: usize = 0;
            assert(views(lines@).take(0) == Seq::<Seq<char>>::empty());
            while k < lines.len()
                invariant
                    k <= lines.len(),
                    all_consistent(walked@),
                    views(out@) == aggregate_exclusions(
                        anchor_view(*anchor),
                        views(lines@).take(k as int),
                        views(dir@),
                        seens(walked@),
                    ),
                decreases lines.len() - k,
            {
                assert(views(lines@).take(k + 1).drop_last() == views(lines@).take(k as int));
                assert(views(lines@).take(k + 1).last() == lines@[k as int]@);
                exclude_line(&mut out, anchor, &lines[k], &dir, walked);
                k += 1;
            }
            assert(views(lines@).take(lines.len() as int) == views(lines@));
            (out, true)
        },
        FileClass::Descriptor => {
            let text = match file.text {
                Some(text) => text,
                None => {
                    return (out, false);
                },
            };
            let doc = match parse_json(text.as_str()) {
                Some(doc) => doc,
                None => {
                    return (out, false);
                },
            };
            let mut dir = copy_parts(&file.parts);
            assert(views(dir@.drop_last()) == views(file.parts@).drop_last());
            let name = dir.pop().unwrap();
            assert(name@ == seen.name());
            let kind = detect_kind(&name, &doc);
            let found = extract_references(anchor, kind, &doc, &dir);
            (found, kind != ManifestKind::Unrecognized)
        },
        _ => (out, false),
    }
}

/// The assets among the walked files: the asset path of each file that is
/// listed, in the order of the walk.  `anchor` tells where the scan root
/// lies in the file system.
pub fn list_assets<'a>(anchor: &Option<Vec<Vec<char>>>, walked: &Vec<Walked<'a>>) -> (assets: Vec<
    String,
>)
    requires
        all_consistent(walked@),
    ensures
        string_views(assets@) == listing(
            anchor_view(*anchor),
            seens(walked@),
            walked@.len() as int,
        ),
{
    let mut assets: Vec<String> = Vec::new();
    let mut excluded = ExclusionSet::new();
    let mut i: usize = 0;
    assert(string_views(assets@) == Seq::<Seq<char>>::empty());
    while i < walked.len()
        invariant
            i <= walked.len(),
            all_consistent(walked@),
            excluded@ == excluded_by(anchor_view(*anchor), seens(walked@), i as int),
            string_views(assets@) == listing(anchor_view(*anchor), seens(walked@), i as int),
        decreases walked.len() - i,
    {
        let file = &walked[i];
        let ghost seen = seens(walked@)[i as int];
        assert(seen == file.seen());
        assert(file.consistent());
        let name = &file.parts[file.parts.len() - 1];
        assert(name@ == seen.name());
        let class = classify_name(name);
        let (found, recognized) = exclusions_at(anchor, walked, i, class);
        excluded.insert_each(&found);
        let wanted = match class {
            FileClass::Aggregate => true,
            FileClass::Descriptor => recognized && !excluded.contains(&file.path),
            FileClass::Media => !excluded.contains(&file.path),
            FileClass::Other => false,
        };
        if wanted {
            let path = string_of(&file.path);
            assert(string_views(assets@.push(path)) == string_views(assets@).push(path@));
            assets.push(path);
        }
        i += 1;
    }
    assets
}

/// The components of the sub-models that the lines `lines` of an aggregate
/// in the directory `dir` name, in order.
pub open spec fn sub_models_of_lines(
    anchor: Option<Seq<Seq<char>>>,
    lines: Seq<Seq<char>>,
    dir: Seq<Seq<char>>,
) -> Seq<Seq<Seq<char>>>
    decreases lines.len(),
{
    if lines.len() == 0 {
        Seq::<Seq<Seq<char>>>::empty()
    } else {
        let before = sub_models_of_lines(anchor, lines.drop_last(), dir);
        match sub_model_of(anchor, lines.last(), dir) {
            Some(parts) => before.push(parts),
            None => before,
        }
    }
}

/// The components of the sub-models that `file` names, where it is an
/// aggregate that can be read.
pub open spec fn sub_models_of(anchor: Option<Seq<Seq<char>>>, file: Seen) -> Seq<
    Seq<Seq<char>>,
> {
    if class_of(file.name()) == FileClass::Aggregate {
        match file.text {
            Some(text) => sub_models_of_lines(
                anchor,
                pieces(text, marks(Delimiter::LineFeed)),
                file.dir(),
            ),
            None => Seq::<Seq<Seq<char>>>::empty(),
        }
    } else {
        Seq::<Seq<Seq<char>>>::empty()
    }
}

/// The components of the sub-models that the aggregates among the first
/// `n` files of `walk` name.
pub open spec fn sub_models_among(anchor: Option<Seq<Seq<char>>>, walk: Seq<Seen>, n: int) -> Seq<
    Seq<Seq<char>>,
>
    decreases n,
{
    if n <= 0 {
        Seq::<Seq<Seq<char>>>::empty()
    } else {
        sub_models_among(anchor, walk, n - 1) + sub_models_of(anchor, walk[n - 1])
    }
}

/// The sub-models that a scan of `entries`, the listing of the directory
/// at `dir_path`, will look up: each as the names on the way to it from the
/// scan root.
pub open spec fn sub_models_wanted(dir_path: Seq<char>, entries: Seq<Node>) -> Seq<
    Seq<Seq<char>>,
> {
    let walk = walk_entries(entries, Seq::<Seq<char>>::empty());
    sub_models_among(anchor_of(dir_path), walk, walk.len() as int)
}

/// The views of a vector of vectors of strings.
pub open spec fn name_views(v: Seq<Vec<String>>) -> Seq<Seq<Seq<char>>> {
    Seq::new(v.len(), |i: int| string_views(v[i]@))
}

/// The components `parts` as strings.
fn names_of(parts: &Vec<Vec<char>>) -> (names: Vec<String>)
    ensures
        string_views(names@) == views(parts@),
{
    let mut names: Vec<String> = Vec::new();
    let mut i: usize = 0;
    while i < parts.len()
        invariant
            i <= parts.len(),
            string_views(names@) == views(parts@).take(i as int),
        decreases parts.len() - i,
    {
        let name = string_of(&parts[i]);
        assert(string_views(names@.push(name)) == string_views(names@).push(name@));
        assert(views(parts@).take(i + 1) == views(parts@).take(i as int).push(parts@[i as int]@));
        names.push(name);
        i += 1;
    }
    assert(views(parts@).take(parts.len() as int) == views(parts@));
    names
}

/// Appends [`sub_models_of`] of the file at position `i` to `out`.
fn push_sub_models<'a>(
    out: &mut Vec<Vec<String>>,
    anchor: &Option<Vec<Vec<char>>>,
    walked: &Vec<Walked<'a>>,
    i: usize,
)
    requires
        i < walked.len(),
        all_consistent(walked@),
    ensures
        name_views(final(out)@) == name_views(old(out)@) + sub_models_of(
            anchor_view(*anchor),
            seens(walked@)[i as int],
        ),
{
    let file = &walked[i];
    let ghost seen = seens(walked@)[i as int];
    let ghost start = name_views(out@);
    assert(seen == file.seen());
    assert(file.consistent());
    assert(start + Seq::<Seq<Seq<char>>>::empty() == start);
    let name = &file.parts[file.parts.len() - 1];
    assert(name@ == seen.name());
    if classify_name(name) != FileClass::Aggregate {
        return ;
    }
    let text = match file.text {
        Some(text) => text,
        None => {
            return ;
        },
    };
    let mut dir = copy_parts(&file.parts);
    assert(views(dir@.drop_last()) == views(file.parts@).drop_last());
    dir.pop();
    let chars = chars_of(text.as_str());
    let lines = split(&chars, Delimiter::LineFeed);
    let mut k: usize = 0;
    assert(views(lines@).take(0) == Seq::<Seq<char>>::empty());
    while k < lines.len()
        invariant
            k <= lines.len(),
            name_views(out@) == start + sub_models_of_lines(
                anchor_view(*anchor),
                views(lines@).take(k as int),
                views(dir@),
            ),
        decreases lines.len() - k,
    {
        assert(views(lines@).take(k + 1).drop_last() == views(lines@).take(k as int));
        assert(views(lines@).take(k + 1).last() == lines@[k as int]@);
        let ghost before = sub_models_of_lines(
            anchor_view(*anchor),
            views(lines@).take(k as int),
            views(dir@),
        );
        match named_sub_model(anchor, &lines[k], &dir) {
            Some(parts) => {
                let names = names_of(&parts);
                assert(name_views(out@.push(names)) == name_views(out@).push(views(parts@)));
                assert((start + before).push(views(parts@)) == start + before.push(views(parts@)));
                out.push(names);
            },
            None => {},
        }
        k += 1;
    }
    assert(views(lines@).take(lines.len() as int) == views(lines@));
}

/// The sub-models that the aggregates of a snapshot name, in the order in
/// which a scan comes to them, each as the names on the way to it from the
/// scan root.  A scan reads the text of these files, whatever their names,
/// besides that of the manifests themselves; a caller that fills in texts on
/// demand asks here which.
pub fn named_sub_models(dir_path: &str, entries: &Vec<Node>) -> (found: Vec<Vec<String>>)
    ensures
        name_views(found@) == sub_models_wanted(dir_path@, entries@),
{
    let place = anchor(dir_path);
    let mut found: Vec<Vec<String>> = Vec::new();
    assert(name_views(found@) == Seq::<Seq<Seq<char>>>::empty());
    let walked = collect(entries);
    let mut i: usize = 0;
    while i < walked.len()
        invariant
            i <= walked.len(),
            all_consistent(walked@),
            anchor_view(place) == anchor_of(dir_path@),
            name_views(found@) == sub_models_among(
                anchor_of(dir_path@),
                seens(walked@),
                i as int,
            ),
        decreases walked.len() - i,
    {
        push_sub_models(&mut found, &place, &walked, i);
        i += 1;
    }
    found
}

/// Scans a snapshot of the directory at `dir_path`.  `root` is what was
/// found there, or `None` where nothing was.  The result lists the asset
/// paths of the top-level assets in the order of the walk.  The scan fails
/// only on the root: where it is missing, is no directory, or could not be
/// listed.  A directory below it that could not be listed is passed over.
pub fn scan_directory_recursive(dir_path: &str, root: Option<&Node>) -> (result: Result<
    Vec<String>,
    ScanError,
>)
    ensures
        match result {
            Ok(assets) => scan_of(
                dir_path@,
                match root {
                    Some(node) => Some(*node),
                    None => None,
                },
            ) == Ok::<Seq<Seq<char>>, ScanError>(string_views(assets@)),
            Err(error) => scan_of(
                dir_path@,
                match root {
                    Some(node) => Some(*node),
                    None => None,
                },
            ) == Err::<Seq<Seq<char>>, ScanError>(error),
        },
{
    match root {
        None => Err(ScanError::NotFound),
        Some(Node::File { .. }) => Err(ScanError::NotADirectory),
        Some(Node::Directory { entries: None, .. }) => Err(ScanError::IoError),
        Some(Node::Directory { entries: Some(list), .. }) => {
            let place = anchor(dir_path);
            let walked = collect(list);
            Ok(list_assets(&place, &walked))
        },
    }
}

} // verus!
