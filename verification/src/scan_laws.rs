//! What holds of every scan of a well-formed snapshot.

use crate::manifest::{references_of, ManifestKind};
use crate::names::{class_of, is_manifest_name, FileClass};
use crate::paths::{
    all_components, asset_path, joined, lemma_asset_path_of_components, lemma_joined_injective,
    lemma_joined_is_normalized, lemma_joined_splits_back, resolve, resolve_each, slashed,
};
use crate::scanner::{
    aggregate_exclusions, assets_of, document_of, excluded_by, exclusions_of, is_listed,
    line_exclusions, listing, manifest_kind, scan_of, sub_model_of,
};
use crate::text::{marks, pieces, Delimiter};
use crate::tree::{
    lemma_entries_manifests_lead, lemma_walk_entries, lies_behind, walk_entries, well_formed, Node,
    Seen,
};
use vstd::prelude::*;

verus! {

/// The files that a scan of `entries` walks, in order.
pub open spec fn scanned(entries: Seq<Node>) -> Seq<Seen> {
    walk_entries(entries, Seq::<Seq<char>>::empty())
}

/// Whether no two files of `walk` have the same asset path.
pub open spec fn distinct_paths(walk: Seq<Seen>) -> bool {
    forall|i: int, j: int|
        0 <= i < j < walk.len() ==> (#[trigger] walk[i]).path() != (#[trigger] walk[j]).path()
}

/// In a well-formed snapshot every walked file has an asset path of its
/// own, which is its path components joined by `/`.
pub proof fn lemma_paths_identify_files(entries: Seq<Node>)
    requires
        well_formed(entries),
    ensures
        distinct_paths(scanned(entries)),
        forall|i: int|
            0 <= i < scanned(entries).len() ==> {
                &&& (#[trigger] scanned(entries)[i]).parts.len() >= 1
                &&& all_components(scanned(entries)[i].parts)
                &&& pieces(scanned(entries)[i].path(), marks(Delimiter::Separator))
                    == scanned(entries)[i].parts
            },
{
    let root = Seq::<Seq<char>>::empty();
    let walk = scanned(entries);
    lemma_walk_entries(entries, root);
    assert forall|i: int| 0 <= i < walk.len() implies {
        &&& (#[trigger] walk[i]).parts.len() >= 1
        &&& all_components(walk[i].parts)
        &&& pieces(walk[i].path(), marks(Delimiter::Separator)) == walk[i].parts
    } by {
        assert(walk[i].parts.skip(0) == walk[i].parts);
        lemma_asset_path_of_components(walk[i].parts);
        lemma_joined_splits_back(walk[i].parts);
    }
    assert forall|i: int, j: int| 0 <= i < j < walk.len() implies (#[trigger] walk[i]).path() != (
    #[trigger] walk[j]).path() by {
        assert(walk[i].parts != walk[j].parts);
        lemma_asset_path_of_components(walk[i].parts);
        lemma_asset_path_of_components(walk[j].parts);
        if walk[i].path() == walk[j].path() {
            lemma_joined_injective(walk[i].parts, walk[j].parts);
        }
    }
}

/// A path is in the listing exactly if it is the path of a listed file.
pub proof fn lemma_listing_members(
    anchor: Option<Seq<Seq<char>>>,
    walk: Seq<Seen>,
    n: int,
    path: Seq<char>,
)
    requires
        0 <= n <= walk.len(),
    ensures
        listing(anchor, walk, n).contains(path) <==> exists|k: int|
            0 <= k < n && is_listed(anchor, walk, k) && (#[trigger] walk[k]).path() == path,
    decreases n,
{
    if n > 0 {
        lemma_listing_members(anchor, walk, n - 1, path);
        let before = listing(anchor, walk, n - 1);
        let now = listing(anchor, walk, n);
        if before.contains(path) {
            let i = choose|i: int| 0 <= i < before.len() && before[i] == path;
            assert(now[i] == path);
            let k = choose|k: int|
                0 <= k < n - 1 && is_listed(anchor, walk, k) && (#[trigger] walk[k]).path()
                    == path;
            assert(0 <= k < n && is_listed(anchor, walk, k) && walk[k].path() == path);
        }
        if is_listed(anchor, walk, n - 1) && walk[n - 1].path() == path {
            assert(now[now.len() - 1] == path);
        }
        if now.contains(path) {
            let i = choose|i: int| 0 <= i < now.len() && now[i] == path;
            if i < before.len() {
                assert(before[i] == path);
            } else {
                assert(is_listed(anchor, walk, n - 1) && walk[n - 1].path() == path);
            }
        }
        if exists|k: int|
            0 <= k < n && is_listed(anchor, walk, k) && (#[trigger] walk[k]).path() == path {
            let k = choose|k: int|
                0 <= k < n && is_listed(anchor, walk, k) && (#[trigger] walk[k]).path() == path;
            if k < n - 1 {
                assert(before.contains(path));
            }
        }
    }
}

/// Where the walked files have paths of their own, no path is listed twice.
pub proof fn lemma_listing_has_no_duplicates(anchor: Option<Seq<Seq<char>>>, walk: Seq<Seen>, n: int)
    requires
        0 <= n <= walk.len(),
        distinct_paths(walk),
    ensures
        listing(anchor, walk, n).no_duplicates(),
    decreases n,
{
    if n > 0 {
        lemma_listing_has_no_duplicates(anchor, walk, n - 1);
        let before = listing(anchor, walk, n - 1);
        if is_listed(anchor, walk, n - 1) {
            let path = walk[n - 1].path();
            lemma_listing_members(anchor, walk, n - 1, path);
            if before.contains(path) {
                let k = choose|k: int|
                    0 <= k < n - 1 && is_listed(anchor, walk, k) && (#[trigger] walk[k]).path()
                        == path;
                assert(walk[k].path() != walk[n - 1].path());
            }
            assert forall|i: int, j: int|
                0 <= i < before.push(path).len() && 0 <= j < before.push(path).len() && i
                    != j implies before.push(path)[i] != before.push(path)[j] by {
                if i < before.len() && j < before.len() {
                } else if i < before.len() {
                    assert(before[i] == before.push(path)[i]);
                } else {
                    assert(before[j] == before.push(path)[j]);
                }
            }
        }
    }
}

/// What a file excludes stays excluded for the rest of the walk.
pub proof fn lemma_exclusions_accumulate(
    anchor: Option<Seq<Seq<char>>>,
    walk: Seq<Seen>,
    i: int,
    n: int,
    path: Seq<char>,
)
    requires
        0 <= i < n,
        exclusions_of(anchor, walk[i], walk).contains(path),
    ensures
        excluded_by(anchor, walk, n).contains(path),
    decreases n,
{
    if i < n - 1 {
        lemma_exclusions_accumulate(anchor, walk, i, n - 1, path);
    }
}

/// A reference that names something inside the scan root is among the
/// resolved ones.
pub proof fn lemma_resolved_reference_is_kept(
    anchor: Option<Seq<Seq<char>>>,
    dir: Seq<Seq<char>>,
    refs: Seq<Seq<char>>,
    reference: Seq<char>,
)
    requires
        refs.contains(reference),
        resolve(anchor, dir, reference) is Some,
    ensures
        resolve_each(anchor, dir, refs).contains(asset_path(resolve(anchor, dir, reference)->0)),
    decreases refs.len(),
{
    let path = asset_path(resolve(anchor, dir, reference)->0);
    let k = choose|k: int| 0 <= k < refs.len() && refs[k] == reference;
    let now = resolve_each(anchor, dir, refs);
    if k == refs.len() - 1 {
        assert(now[now.len() - 1] == path);
    } else {
        assert(refs.drop_last()[k] == reference);
        lemma_resolved_reference_is_kept(anchor, dir, refs.drop_last(), reference);
        let before = resolve_each(anchor, dir, refs.drop_last());
        let i = choose|i: int| 0 <= i < before.len() && before[i] == path;
        assert(now[i] == path);
    }
}

/// What one line of an aggregate excludes, the aggregate excludes.
pub proof fn lemma_line_exclusions_are_kept(
    anchor: Option<Seq<Seq<char>>>,
    lines: Seq<Seq<char>>,
    dir: Seq<Seq<char>>,
    walk: Seq<Seen>,
    k: int,
    path: Seq<char>,
)
    requires
        0 <= k < lines.len(),
        line_exclusions(anchor, lines[k], dir, walk).contains(path),
    ensures
        aggregate_exclusions(anchor, lines, dir, walk).contains(path),
    decreases lines.len(),
{
    let now = aggregate_exclusions(anchor, lines, dir, walk);
    let before = aggregate_exclusions(anchor, lines.drop_last(), dir, walk);
    let last = line_exclusions(anchor, lines.last(), dir, walk);
    if k == lines.len() - 1 {
        let i = choose|i: int| 0 <= i < last.len() && last[i] == path;
        assert(now[before.len() + i] == path);
    } else {
        assert(lines.drop_last()[k] == lines[k]);
        lemma_line_exclusions_are_kept(anchor, lines.drop_last(), dir, walk, k, path);
        let i = choose|i: int| 0 <= i < before.len() && before[i] == path;
        assert(now[i] == path);
    }
}

/// A scan fails on the root alone: where the root is a directory that
/// could be listed, the scan succeeds, whatever lies below it.
pub proof fn lemma_scan_fails_on_the_root_alone(dir_path: Seq<char>, root: Option<Node>)
    ensures
        scan_of(dir_path, root) is Ok <==> (root matches Some(Node::Directory { entries, .. })
            && entries is Some),
{
}

/// No listed path holds a backslash, whatever the names in the snapshot:
/// a backslash in a name is written as `/`.
pub proof fn lemma_assets_hold_no_backslash(anchor: Option<Seq<Seq<char>>>, entries: Seq<Node>)
    ensures
        forall|i: int, j: int|
            0 <= i < assets_of(anchor, entries).len() && 0 <= j < assets_of(anchor, entries)[i].len()
                ==> #[trigger] assets_of(anchor, entries)[i][j] != '\\',
{
    let walk = scanned(entries);
    let assets = assets_of(anchor, entries);
    assert forall|i: int, j: int| 0 <= i < assets.len() && 0 <= j < assets[i].len() implies
        #[trigger] assets[i][j] != '\\' by {
        assert(assets.contains(assets[i]));
        lemma_listing_members(anchor, walk, walk.len() as int, assets[i]);
        let k = choose|k: int|
            0 <= k < walk.len() && is_listed(anchor, walk, k) && (#[trigger] walk[k]).path()
                == assets[i];
        assert(assets[i] == slashed(joined(walk[k].parts)));
    }
}

/// A scan of a well-formed snapshot lists no path twice, and every path
/// that it lists is the asset path of a file of the snapshot.  Such a path
/// is made of path components joined by `/`: it does not start with `/`,
/// and none of its components is empty, `.` or `..`.
pub proof fn lemma_assets_are_distinct_files(anchor: Option<Seq<Seq<char>>>, entries: Seq<Node>)
    requires
        well_formed(entries),
    ensures
        assets_of(anchor, entries).no_duplicates(),
        forall|i: int|
            0 <= i < assets_of(anchor, entries).len() ==> exists|k: int|
                0 <= k < scanned(entries).len() && (#[trigger] scanned(entries)[k]).path()
                    == #[trigger] assets_of(anchor, entries)[i],
        forall|i: int|
            0 <= i < assets_of(anchor, entries).len() ==> {
                &&& (#[trigger] assets_of(anchor, entries)[i]).len() > 0
                &&& assets_of(anchor, entries)[i][0] != '/'
                &&& all_components(
                    pieces(assets_of(anchor, entries)[i], marks(Delimiter::Separator)),
                )
            },
{
    let walk = scanned(entries);
    let assets = assets_of(anchor, entries);
    lemma_paths_identify_files(entries);
    lemma_listing_has_no_duplicates(anchor, walk, walk.len() as int);
    assert forall|i: int| 0 <= i < assets.len() implies (exists|k: int|
        0 <= k < walk.len() && (#[trigger] walk[k]).path() == #[trigger] assets[i]) && {
        &&& assets[i].len() > 0
        &&& assets[i][0] != '/'
        &&& all_components(pieces(assets[i], marks(Delimiter::Separator)))
    } by {
        assert(assets.contains(assets[i]));
        lemma_listing_members(anchor, walk, walk.len() as int, assets[i]);
        let k = choose|k: int|
            0 <= k < walk.len() && is_listed(anchor, walk, k) && (#[trigger] walk[k]).path()
                == assets[i];
        lemma_asset_path_of_components(walk[k].parts);
        lemma_joined_is_normalized(walk[k].parts);
    }
}

/// A file that an earlier file of the walk excludes is not listed, unless
/// it is an aggregate.
pub proof fn lemma_excluded_file_is_left_out(
    anchor: Option<Seq<Seq<char>>>,
    entries: Seq<Node>,
    i: int,
    j: int,
)
    requires
        well_formed(entries),
        0 <= i <= j < scanned(entries).len(),
        exclusions_of(anchor, scanned(entries)[i], scanned(entries)).contains(
            scanned(entries)[j].path(),
        ),
        class_of(scanned(entries)[j].name()) != FileClass::Aggregate,
    ensures
        !assets_of(anchor, entries).contains(scanned(entries)[j].path()),
{
    let walk = scanned(entries);
    let path = walk[j].path();
    lemma_paths_identify_files(entries);
    lemma_exclusions_accumulate(anchor, walk, i, j + 1, path);
    assert(!is_listed(anchor, walk, j));
    lemma_listing_members(anchor, walk, walk.len() as int, path);
    if assets_of(anchor, entries).contains(path) {
        let k = choose|k: int|
            0 <= k < walk.len() && is_listed(anchor, walk, k) && (#[trigger] walk[k]).path()
                == path;
        if k < j {
            assert(walk[k].path() != walk[j].path());
        } else if k > j {
            assert(walk[j].path() != walk[k].path());
        }
    }
}

/// A file to which a model or a composite refers is not listed: where the
/// file at position `i` of the walk is a descriptor of a recognized schema
/// that holds the reference `reference`, and the reference resolves to the
/// file at position `j`, which is no aggregate and is not walked before the
/// descriptor, the scan does not list that file.
pub proof fn lemma_referenced_file_is_left_out(
    anchor: Option<Seq<Seq<char>>>,
    entries: Seq<Node>,
    i: int,
    j: int,
    reference: Seq<char>,
)
    requires
        well_formed(entries),
        0 <= i <= j < scanned(entries).len(),
        document_of(scanned(entries)[i]) is Some,
        manifest_kind(scanned(entries)[i]) != ManifestKind::Unrecognized,
        references_of(
            manifest_kind(scanned(entries)[i]),
            document_of(scanned(entries)[i])->0,
        ).contains(reference),
        resolve(anchor, scanned(entries)[i].dir(), reference) is Some,
        asset_path(resolve(anchor, scanned(entries)[i].dir(), reference)->0) == scanned(
            entries,
        )[j].path(),
        class_of(scanned(entries)[j].name()) != FileClass::Aggregate,
    ensures
        !assets_of(anchor, entries).contains(scanned(entries)[j].path()),
{
    let walk = scanned(entries);
    let file = walk[i];
    let doc = document_of(file)->0;
    lemma_resolved_reference_is_kept(
        anchor,
        file.dir(),
        references_of(manifest_kind(file), doc),
        reference,
    );
    lemma_excluded_file_is_left_out(anchor, entries, i, j);
}

/// A manifest file is walked before the other files of its directory and
/// before every file below that directory.
pub proof fn lemma_manifest_precedes_what_lies_behind(entries: Seq<Node>, i: int, j: int)
    requires
        well_formed(entries),
        0 <= i < scanned(entries).len(),
        0 <= j < scanned(entries).len(),
        is_manifest_name(scanned(entries)[i].name()),
        lies_behind(scanned(entries)[j], scanned(entries)[i]),
    ensures
        i < j,
{
    lemma_entries_manifests_lead(entries, Seq::<Seq<char>>::empty());
}

/// A file in or below the directory of a model or a composite that refers
/// to it is not listed, unless it is an aggregate or a manifest-named file
/// of that very directory: the order of the walk makes sure that the
/// reference is known in time.
pub proof fn lemma_referenced_file_behind_is_left_out(
    anchor: Option<Seq<Seq<char>>>,
    entries: Seq<Node>,
    i: int,
    j: int,
    reference: Seq<char>,
)
    requires
        well_formed(entries),
        0 <= i < scanned(entries).len(),
        0 <= j < scanned(entries).len(),
        lies_behind(scanned(entries)[j], scanned(entries)[i]),
        class_of(scanned(entries)[j].name()) != FileClass::Aggregate,
        document_of(scanned(entries)[i]) is Some,
        manifest_kind(scanned(entries)[i]) != ManifestKind::Unrecognized,
        references_of(
            manifest_kind(scanned(entries)[i]),
            document_of(scanned(entries)[i])->0,
        ).contains(reference),
        resolve(anchor, scanned(entries)[i].dir(), reference) is Some,
        asset_path(resolve(anchor, scanned(entries)[i].dir(), reference)->0) == scanned(
            entries,
        )[j].path(),
    ensures
        !assets_of(anchor, entries).contains(scanned(entries)[j].path()),
{
    lemma_manifest_precedes_what_lies_behind(entries, i, j);
    lemma_referenced_file_is_left_out(anchor, entries, i, j, reference);
}

/// An aggregate is always listed.
pub proof fn lemma_aggregate_is_listed(anchor: Option<Seq<Seq<char>>>, entries: Seq<Node>, i: int)
    requires
        0 <= i < scanned(entries).len(),
        class_of(scanned(entries)[i].name()) == FileClass::Aggregate,
    ensures
        assets_of(anchor, entries).contains(scanned(entries)[i].path()),
{
    let walk = scanned(entries);
    lemma_listing_members(anchor, walk, walk.len() as int, walk[i].path());
}

/// In a well-formed snapshot an aggregate is listed exactly once.
pub proof fn lemma_aggregate_is_listed_once(
    anchor: Option<Seq<Seq<char>>>,
    entries: Seq<Node>,
    i: int,
)
    requires
        well_formed(entries),
        0 <= i < scanned(entries).len(),
        class_of(scanned(entries)[i].name()) == FileClass::Aggregate,
    ensures
        assets_of(anchor, entries).contains(scanned(entries)[i].path()),
        assets_of(anchor, entries).no_duplicates(),
{
    lemma_aggregate_is_listed(anchor, entries, i);
    lemma_assets_are_distinct_files(anchor, entries);
}

/// A sub-model that an aggregate names is not listed: where line `k` of the
/// aggregate at position `i` of the walk names the file at position `j`,
/// which is no aggregate itself and is not walked before the aggregate,
/// the scan does not list that file.
pub proof fn lemma_sub_model_is_left_out(
    anchor: Option<Seq<Seq<char>>>,
    entries: Seq<Node>,
    i: int,
    j: int,
    k: int,
)
    requires
        well_formed(entries),
        0 <= i <= j < scanned(entries).len(),
        class_of(scanned(entries)[i].name()) == FileClass::Aggregate,
        scanned(entries)[i].text is Some,
        0 <= k < pieces(scanned(entries)[i].text->0, marks(Delimiter::LineFeed)).len(),
        sub_model_of(
            anchor,
            pieces(scanned(entries)[i].text->0, marks(Delimiter::LineFeed))[k],
            scanned(entries)[i].dir(),
        ) is Some,
        asset_path(
            sub_model_of(
                anchor,
                pieces(scanned(entries)[i].text->0, marks(Delimiter::LineFeed))[k],
                scanned(entries)[i].dir(),
            )->0,
        ) == scanned(entries)[j].path(),
        class_of(scanned(entries)[j].name()) != FileClass::Aggregate,
    ensures
        !assets_of(anchor, entries).contains(scanned(entries)[j].path()),
{
    let walk = scanned(entries);
    let file = walk[i];
    let lines = pieces(file.text->0, marks(Delimiter::LineFeed));
    let named = line_exclusions(anchor, lines[k], file.dir(), walk);
    assert(named[0] == walk[j].path());
    lemma_line_exclusions_are_kept(anchor, lines, file.dir(), walk, k, walk[j].path());
    lemma_excluded_file_is_left_out(anchor, entries, i, j);
}

/// A sub-model in or below the directory of the aggregate that names it is
/// not listed, unless it is an aggregate itself or a manifest-named file of
/// that very directory.
pub proof fn lemma_sub_model_behind_is_left_out(
    anchor: Option<Seq<Seq<char>>>,
    entries: Seq<Node>,
    i: int,
    j: int,
    k: int,
)
    requires
        well_formed(entries),
        0 <= i < scanned(entries).len(),
        0 <= j < scanned(entries).len(),
        lies_behind(scanned(entries)[j], scanned(entries)[i]),
        class_of(scanned(entries)[i].name()) == FileClass::Aggregate,
        scanned(entries)[i].text is Some,
        0 <= k < pieces(scanned(entries)[i].text->0, marks(Delimiter::LineFeed)).len(),
        sub_model_of(
            anchor,
            pieces(scanned(entries)[i].text->0, marks(Delimiter::LineFeed))[k],
            scanned(entries)[i].dir(),
        ) is Some,
        asset_path(
            sub_model_of(
                anchor,
                pieces(scanned(entries)[i].text->0, marks(Delimiter::LineFeed))[k],
                scanned(entries)[i].dir(),
            )->0,
        ) == scanned(entries)[j].path(),
        class_of(scanned(entries)[j].name()) != FileClass::Aggregate,
    ensures
        !assets_of(anchor, entries).contains(scanned(entries)[j].path()),
{
    lemma_manifest_precedes_what_lies_behind(entries, i, j);
    lemma_sub_model_is_left_out(anchor, entries, i, j, k);
}

/// A directory without entries has no assets.
pub proof fn lemma_empty_directory_has_no_assets(anchor: Option<Seq<Seq<char>>>)
    ensures
        assets_of(anchor, Seq::<Node>::empty()) == Seq::<Seq<char>>::empty(),
{
}

} // verus!
