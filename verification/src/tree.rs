//! A snapshot of a directory tree, and the order in which a scan walks it.
//!
//! The caller reads the file system once and hands the result over as
//! [`Node`]s.  Within each directory the files named `*.json` and `*.jsonl`
//! are walked first, in the order of the listing, and every other entry
//! after them, so that a manifest is seen before the files beside and below
//! it.

use crate::names::{has_manifest_name, is_manifest_name};
use crate::paths::{all_components, asset_path, asset_path_of, copy_parts, is_component};
use crate::text::{chars_of, views};
use vstd::prelude::*;

verus! {

/// What the file system holds under one name.
#[derive(Debug, PartialEq, Eq)]
pub enum Node {
    /// Anything that is not a directory.  `text` is its content where the
    /// caller could read it as text, and `None` otherwise.
    File { name: String, text: Option<String> },
    /// A directory.  `entries` is its listing, in the order in which the file
    /// system gave it, and `None` where it could not be listed.
    Directory { name: String, entries: Option<Vec<Node>> },
}

/// A file as the walk sees it.
pub struct Seen {
    /// The components of its path from the scan root; the last is its name.
    pub parts: Seq<Seq<char>>,
    /// Its content, where it could be read.
    pub text: Option<Seq<char>>,
}

impl Seen {
    /// The asset path of the file.
    pub open spec fn path(self) -> Seq<char> {
        asset_path(self.parts)
    }

    /// The name of the file.
    pub open spec fn name(self) -> Seq<char> {
        self.parts.last()
    }

    /// The components of the directory that holds the file.
    pub open spec fn dir(self) -> Seq<Seq<char>> {
        self.parts.drop_last()
    }
}

impl Node {
    /// The name of the entry.
    pub open spec fn name(self) -> Seq<char> {
        match self {
            Node::File { name, .. } => name@,
            Node::Directory { name, .. } => name@,
        }
    }
}

/// The content of a file as a sequence of characters.
pub open spec fn text_view(text: Option<String>) -> Option<Seq<char>> {
    match text {
        Some(s) => Some(s@),
        None => None,
    }
}

/// The files under `node`, which lies in the directory `dir`, in the order
/// of the walk.  A directory without a listing contributes nothing.
pub open spec fn walk_node(node: Node, dir: Seq<Seq<char>>) -> Seq<Seen>
    decreases node,
{
    match node {
        Node::File { name, text } => seq![Seen { parts: dir.push(name@), text: text_view(text) }],
        Node::Directory { name, entries: Some(list) } => walk_entries(list@, dir.push(name@)),
        Node::Directory { name, entries: None } => Seq::<Seen>::empty(),
    }
}

/// Whether `node` is walked in the first pass over its directory: a file
/// named `*.json` or `*.jsonl` is, a directory never.
pub open spec fn goes_first(node: Node) -> bool {
    node is File && is_manifest_name(node.name())
}

/// The files under those of the first `n` entries that belong to one pass:
/// the manifest files where `first` holds, the other entries where it does
/// not.
pub open spec fn walk_pass(entries: Seq<Node>, dir: Seq<Seq<char>>, first: bool, n: int) -> Seq<
    Seen,
>
    decreases entries, n,
{
    if n <= 0 || n > entries.len() {
        Seq::<Seen>::empty()
    } else if goes_first(entries[n - 1]) == first {
        walk_pass(entries, dir, first, n - 1) + walk_node(entries[n - 1], dir)
    } else {
        walk_pass(entries, dir, first, n - 1)
    }
}

/// The files under the entries of the directory `dir`, in the order of the
/// walk: first the manifest files, then what lies under the other entries.
pub open spec fn walk_entries(entries: Seq<Node>, dir: Seq<Seq<char>>) -> Seq<Seen>
    decreases entries, entries.len() + 1,
{
    walk_pass(entries, dir, true, entries.len() as int) + walk_pass(
        entries,
        dir,
        false,
        entries.len() as int,
    )
}

/// A walked file, with its path worked out.
pub struct Walked<'a> {
    /// The components of the path.
    pub parts: Vec<Vec<char>>,
    /// The asset path.
    pub path: Vec<char>,
    /// The content of the file, where it could be read.
    pub text: Option<&'a String>,
}

impl<'a> Walked<'a> {
    /// The file as the specification sees it.
    pub open spec fn seen(self) -> Seen {
        Seen {
            parts: views(self.parts@),
            text: match self.text {
                Some(s) => Some(s@),
                None => None,
            },
        }
    }

    /// There is at least one component, and the path is the components
    /// joined.
    pub open spec fn consistent(self) -> bool {
        self.parts@.len() >= 1 && self.path@ == asset_path(views(self.parts@))
    }
}

/// The files that `walked` stands for.
pub open spec fn seens(walked: Seq<Walked>) -> Seq<Seen> {
    Seq::new(walked.len(), |i: int| walked[i].seen())
}

/// Whether the path of each of `walked` is its components joined.
pub open spec fn all_consistent(walked: Seq<Walked>) -> bool {
    forall|i: int| 0 <= i < walked.len() ==> (#[trigger] walked[i]).consistent()
}

/// Appends the files under `node` to `out`, in the order of the walk.
pub fn collect_node<'a>(node: &'a Node, dir: &mut Vec<Vec<char>>, out: &mut Vec<Walked<'a>>)
    requires
        all_consistent(old(out)@),
    ensures
        views(final(dir)@) == views(old(dir)@),
        seens(final(out)@) == seens(old(out)@) + walk_node(*node, views(old(dir)@)),
        all_consistent(final(out)@),
    decreases *node,
{
    match node {
        Node::File { name, text } => {
            let mut parts = copy_parts(dir);
            let own = chars_of(name.as_str());
            assert(views(parts@.push(own)) == views(dir@).push(name@));
            parts.push(own);
            let path = asset_path_of(&parts);
            let found = Walked {
                parts,
                path,
                text: match text {
                    Some(s) => Some(s),
                    None => None,
                },
            };
            assert(seens(out@.push(found)) == seens(out@) + seq![found.seen()]);
            out.push(found);
        },
        Node::Directory { name, entries: Some(list) } => {
            let own = chars_of(name.as_str());
            assert(views(dir@.push(own)) == views(dir@).push(name@));
            dir.push(own);
            let ghost inner = views(dir@);
            let ghost start = seens(out@);
            collect_pass(list, dir, out, true);
            collect_pass(list, dir, out, false);
            proof {
                let a = walk_pass(list@, inner, true, list@.len() as int);
                let b = walk_pass(list@, inner, false, list@.len() as int);
                assert((start + a) + b == start + (a + b));
                assert(views(dir@.drop_last()) == views(dir@).drop_last());
                assert(views(old(dir)@).push(name@).drop_last() == views(old(dir)@));
            }
            dir.pop();
        },
        Node::Directory { name, entries: None } => {
            assert(seens(out@) + Seq::<Seen>::empty() == seens(out@));
        },
    }
}

/// Computes [`goes_first`].
pub fn is_first_pass(node: &Node) -> (first: bool)
    ensures
        first == goes_first(*node),
{
    match node {
        Node::File { name, .. } => has_manifest_name(&chars_of(name.as_str())),
        Node::Directory { .. } => false,
    }
}

/// One pass of [`collect_node`] over the entries of a directory.
pub fn collect_pass<'a>(
    entries: &'a Vec<Node>,
    dir: &mut Vec<Vec<char>>,
    out: &mut Vec<Walked<'a>>,
    first: bool,
)
    requires
        all_consistent(old(out)@),
    ensures
        views(final(dir)@) == views(old(dir)@),
        seens(final(out)@) == seens(old(out)@) + walk_pass(
            entries@,
            views(old(dir)@),
            first,
            entries@.len() as int,
        ),
        all_consistent(final(out)@),
    decreases *entries,
{
    let mut i: usize = 0;
    assert(seens(out@) + Seq::<Seen>::empty() == seens(out@));
    while i < entries.len()
        invariant
            i <= entries.len(),
            views(dir@) == views(old(dir)@),
            seens(out@) == seens(old(out)@) + walk_pass(entries@, views(old(dir)@), first, i as int),
            all_consistent(out@),
        decreases entries.len() - i,
    {
        let entry = &entries[i];
        if is_first_pass(entry) == first {
            let ghost before = walk_pass(entries@, views(old(dir)@), first, i as int);
            let ghost more = walk_node(*entry, views(old(dir)@));
            assert((seens(old(out)@) + before) + more == seens(old(out)@) + (before + more));
            collect_node(entry, dir, out);
        }
        i += 1;
    }
}

/// The files under `entries`, the listing of the scan root, in the order of
/// the walk.
pub fn collect<'a>(entries: &'a Vec<Node>) -> (walked: Vec<Walked<'a>>)
    ensures
        seens(walked@) == walk_entries(entries@, Seq::<Seq<char>>::empty()),
        all_consistent(walked@),
{
    let mut dir: Vec<Vec<char>> = Vec::new();
    let mut out: Vec<Walked<'a>> = Vec::new();
    assert(views(dir@) == Seq::<Seq<char>>::empty());
    assert(seens(out@) == Seq::<Seen>::empty());
    collect_pass(entries, &mut dir, &mut out, true);
    collect_pass(entries, &mut dir, &mut out, false);
    proof {
        let root = Seq::<Seq<char>>::empty();
        let a = walk_pass(entries@, root, true, entries@.len() as int);
        let b = walk_pass(entries@, root, false, entries@.len() as int);
        assert((Seq::<Seen>::empty() + a) + b == a + b);
    }
    out
}

/// Whether no two of `entries` have the same name.
pub open spec fn names_distinct(entries: Seq<Node>) -> bool {
    forall|i: int, j: int|
        0 <= i < j < entries.len() ==> (#[trigger] entries[i]).name() != (#[trigger] entries[j]).name()
}

/// Whether `node` is what a file system can hold: its name is a path
/// component, and the same holds of every listing under it, in which no
/// name occurs twice.
pub open spec fn well_formed_node(node: Node) -> bool
    decreases node,
{
    is_component(node.name()) && match node {
        Node::Directory { entries: Some(list), .. } => well_formed(list@),
        _ => true,
    }
}

/// Whether the first `n` of `entries` are well formed.
pub open spec fn well_formed_upto(entries: Seq<Node>, n: int) -> bool
    decreases entries, n,
{
    if n <= 0 || n > entries.len() {
        true
    } else {
        well_formed_upto(entries, n - 1) && well_formed_node(entries[n - 1])
    }
}

/// Whether `entries` is a listing that a file system can give: no name
/// occurs twice, and every entry is well formed.
pub open spec fn well_formed(entries: Seq<Node>) -> bool
    decreases entries, entries.len() + 1,
{
    names_distinct(entries) && well_formed_upto(entries, entries.len() as int)
}

/// Every one of the first `n` entries of a well-formed prefix is well formed.
pub proof fn lemma_well_formed_each(entries: Seq<Node>, n: int, k: int)
    requires
        0 <= k < n <= entries.len(),
        well_formed_upto(entries, n),
    ensures
        well_formed_node(entries[k]),
    decreases n,
{
    if k < n - 1 {
        lemma_well_formed_each(entries, n - 1, k);
    }
}

/// Whether the files of `walk` lie under the directory `dir`: the path of
/// each starts with the components of `dir`, and what follows are path
/// components, at least one.
pub open spec fn all_under(walk: Seq<Seen>, dir: Seq<Seq<char>>) -> bool {
    forall|i: int|
        0 <= i < walk.len() ==> {
            &&& (#[trigger] walk[i]).parts.len() > dir.len()
            &&& walk[i].parts.take(dir.len() as int) == dir
            &&& all_components(walk[i].parts.skip(dir.len() as int))
        }
}

/// Whether no two files of `walk` have the same components.
pub open spec fn distinct_parts(walk: Seq<Seen>) -> bool {
    forall|i: int, j: int|
        0 <= i < j < walk.len() ==> (#[trigger] walk[i]).parts != (#[trigger] walk[j]).parts
}

/// Whether `file`, walked in the directory `dir`, lies under one of the
/// first `n` entries that belong to the given pass: the component of its
/// path right behind `dir` is the name of that entry, and the entry is a
/// file exactly if `file` lies right in `dir`.
pub open spec fn belongs(entries: Seq<Node>, first: bool, n: int, file: Seen, dir: Seq<Seq<char>>)
    -> bool {
    exists|k: int|
        0 <= k < n && k < entries.len() && (#[trigger] entries[k]).name()
            == file.parts[dir.len() as int] && goes_first(entries[k]) == first && (entries[k]
            is File <==> file.parts.len() == dir.len() + 1)
}

/// The files under a well-formed node lie under its directory, below the
/// name of the node, and no two of them share a path.  A file node gives
/// one file right in the directory; what a directory gives lies deeper.
pub proof fn lemma_walk_node(node: Node, dir: Seq<Seq<char>>)
    requires
        well_formed_node(node),
    ensures
        all_under(walk_node(node, dir), dir),
        forall|i: int|
            0 <= i < walk_node(node, dir).len() ==> {
                &&& (#[trigger] walk_node(node, dir)[i]).parts[dir.len() as int] == node.name()
                &&& (node is File <==> walk_node(node, dir)[i].parts.len() == dir.len() + 1)
            },
        distinct_parts(walk_node(node, dir)),
    decreases node,
{
    let walk = walk_node(node, dir);
    match node {
        Node::File { name, text } => {
            let parts = dir.push(name@);
            assert(parts.take(dir.len() as int) == dir);
            assert(parts.skip(dir.len() as int) == seq![name@]);
        },
        Node::Directory { name, entries: Some(list) } => {
            let inner = dir.push(name@);
            lemma_walk_entries(list@, inner);
            assert forall|i: int| 0 <= i < walk.len() implies {
                &&& (#[trigger] walk[i]).parts.len() > dir.len() + 1
                &&& walk[i].parts.take(dir.len() as int) == dir
                &&& all_components(walk[i].parts.skip(dir.len() as int))
                &&& walk[i].parts[dir.len() as int] == name@
            } by {
                let parts = walk[i].parts;
                assert(parts.take(inner.len() as int) == inner);
                assert(parts.take(dir.len() as int) == parts.take(inner.len() as int).take(
                    dir.len() as int,
                ));
                assert(inner.take(dir.len() as int) == dir);
                assert(parts[dir.len() as int] == parts.take(inner.len() as int)[dir.len() as int]);
                let tail = parts.skip(dir.len() as int);
                let rest = parts.skip(inner.len() as int);
                assert forall|k: int| 0 <= k < tail.len() implies is_component(
                    #[trigger] tail[k],
                ) by {
                    if k > 0 {
                        assert(tail[k] == rest[k - 1]);
                    }
                }
            }
        },
        Node::Directory { name, entries: None } => {},
    }
}

/// The files that one pass walks lie under the directory, each under an
/// entry of that pass, and no two of them share a path.
pub proof fn lemma_walk_pass(entries: Seq<Node>, dir: Seq<Seq<char>>, first: bool, n: int)
    requires
        0 <= n <= entries.len(),
        names_distinct(entries),
        well_formed_upto(entries, entries.len() as int),
    ensures
        all_under(walk_pass(entries, dir, first, n), dir),
        forall|i: int|
            0 <= i < walk_pass(entries, dir, first, n).len() ==> belongs(
                entries,
                first,
                n,
                #[trigger] walk_pass(entries, dir, first, n)[i],
                dir,
            ),
        distinct_parts(walk_pass(entries, dir, first, n)),
    decreases entries, n,
{
    if n > 0 {
        lemma_walk_pass(entries, dir, first, n - 1);
        let before = walk_pass(entries, dir, first, n - 1);
        let now = walk_pass(entries, dir, first, n);
        let entry = entries[n - 1];
        assert forall|i: int| 0 <= i < before.len() implies belongs(
            entries,
            first,
            n,
            #[trigger] before[i],
            dir,
        ) by {
            lemma_belongs_longer(entries, first, n - 1, n, before[i], dir);
        }
        if goes_first(entry) == first {
            lemma_well_formed_each(entries, entries.len() as int, n - 1);
            lemma_walk_node(entry, dir);
            let more = walk_node(entry, dir);
            assert(now == before + more);
            assert forall|i: int| 0 <= i < now.len() implies {
                &&& (#[trigger] now[i]).parts.len() > dir.len()
                &&& now[i].parts.take(dir.len() as int) == dir
                &&& all_components(now[i].parts.skip(dir.len() as int))
                &&& belongs(entries, first, n, now[i], dir)
            } by {
                if i < before.len() {
                    assert(now[i] == before[i]);
                } else {
                    assert(now[i] == more[i - before.len()]);
                    assert(entries[n - 1].name() == now[i].parts[dir.len() as int]);
                }
            }
            assert forall|i: int, j: int| 0 <= i < j < now.len() implies (#[trigger] now[i]).parts
                != (#[trigger] now[j]).parts by {
                if j < before.len() {
                    assert(now[i] == before[i] && now[j] == before[j]);
                } else if i >= before.len() {
                    assert(now[i] == more[i - before.len()] && now[j] == more[j - before.len()]);
                } else {
                    assert(now[i] == before[i] && now[j] == more[j - before.len()]);
                    let k = lemma_entry_of(entries, first, n - 1, before[i], dir);
                    assert(entries[k].name() != entries[n - 1].name());
                    assert(now[j].parts[dir.len() as int] == entry.name());
                }
            }
        }
    }
}

/// What lies under one of the first `m` entries lies under one of the
/// first `n`, where `n` is not less.
proof fn lemma_belongs_longer(
    entries: Seq<Node>,
    first: bool,
    m: int,
    n: int,
    file: Seen,
    dir: Seq<Seq<char>>,
)
    requires
        m <= n,
        belongs(entries, first, m, file, dir),
    ensures
        belongs(entries, first, n, file, dir),
{
    let k = lemma_entry_of(entries, first, m, file, dir);
    assert(0 <= k < n && entries[k].name() == file.parts[dir.len() as int]);
}

/// The position of an entry under which `file` lies.
proof fn lemma_entry_of(entries: Seq<Node>, first: bool, n: int, file: Seen, dir: Seq<Seq<char>>)
    -> (k: int)
    requires
        belongs(entries, first, n, file, dir),
    ensures
        0 <= k < n,
        k < entries.len(),
        entries[k].name() == file.parts[dir.len() as int],
        goes_first(entries[k]) == first,
        entries[k] is File <==> file.parts.len() == dir.len() + 1,
{
    choose|k: int|
        0 <= k < n && k < entries.len() && (#[trigger] entries[k]).name()
            == file.parts[dir.len() as int] && goes_first(entries[k]) == first && (entries[k]
            is File <==> file.parts.len() == dir.len() + 1)
}

/// Two entries of a listing without repeated names that have the same name
/// are the same entry.
proof fn lemma_same_name_same_entry(entries: Seq<Node>, k: int, m: int)
    requires
        names_distinct(entries),
        0 <= k < entries.len(),
        0 <= m < entries.len(),
        entries[k].name() == entries[m].name(),
    ensures
        k == m,
{
    if k < m {
        assert(entries[k].name() != entries[m].name());
    } else if m < k {
        assert(entries[m].name() != entries[k].name());
    }
}

/// The files under a well-formed listing lie under its directory, and no
/// two of them share a path.
pub proof fn lemma_walk_entries(entries: Seq<Node>, dir: Seq<Seq<char>>)
    requires
        well_formed(entries),
    ensures
        all_under(walk_entries(entries, dir), dir),
        distinct_parts(walk_entries(entries, dir)),
    decreases entries, entries.len() + 1,
{
    let n = entries.len() as int;
    lemma_walk_pass(entries, dir, true, n);
    lemma_walk_pass(entries, dir, false, n);
    let a = walk_pass(entries, dir, true, n);
    let b = walk_pass(entries, dir, false, n);
    let now = walk_entries(entries, dir);
    assert(now == a + b);
    assert forall|i: int| 0 <= i < now.len() implies {
        &&& (#[trigger] now[i]).parts.len() > dir.len()
        &&& now[i].parts.take(dir.len() as int) == dir
        &&& all_components(now[i].parts.skip(dir.len() as int))
    } by {
        if i < a.len() {
            assert(now[i] == a[i]);
        } else {
            assert(now[i] == b[i - a.len()]);
        }
    }
    assert forall|i: int, j: int| 0 <= i < j < now.len() implies (#[trigger] now[i]).parts
        != (#[trigger] now[j]).parts by {
        if j < a.len() {
            assert(now[i] == a[i] && now[j] == a[j]);
        } else if i >= a.len() {
            assert(now[i] == b[i - a.len()] && now[j] == b[j - a.len()]);
        } else {
            assert(now[i] == a[i] && now[j] == b[j - a.len()]);
            let k = lemma_entry_of(entries, true, n, a[i], dir);
            let m = lemma_entry_of(entries, false, n, b[j - a.len()], dir);
            if a[i].parts == b[j - a.len()].parts {
                lemma_same_name_same_entry(entries, k, m);
            }
        }
    }
}

/// Whether `file` lies in or below the directory of the file `manifest`
/// without being a manifest-named file of that directory itself.
pub open spec fn lies_behind(file: Seen, manifest: Seen) -> bool {
    &&& file.parts.len() >= manifest.parts.len()
    &&& file.parts.take(manifest.parts.len() - 1) == manifest.dir()
    &&& (file.parts.len() > manifest.parts.len() || !is_manifest_name(file.name()))
}

/// Whether every manifest-named file of `walk` comes before the other files
/// of its directory and before all files below that directory.
pub open spec fn manifests_lead(walk: Seq<Seen>) -> bool {
    forall|i: int, j: int|
        0 <= i < walk.len() && 0 <= j < walk.len() && is_manifest_name((#[trigger] walk[i]).name())
            && lies_behind(#[trigger] walk[j], walk[i]) ==> i < j
}

/// Where `file` lies behind `manifest` and both are under `dir`: either the
/// manifest lies right in `dir`, or both have the same component behind
/// `dir`.
proof fn lemma_heads(file: Seen, manifest: Seen, dir: Seq<Seq<char>>)
    requires
        manifest.parts.len() > dir.len(),
        file.parts.len() > dir.len(),
        lies_behind(file, manifest),
    ensures
        manifest.parts.len() > dir.len() + 1 ==> manifest.parts[dir.len() as int]
            == file.parts[dir.len() as int],
        manifest.parts.len() == dir.len() + 1 ==> manifest.parts[dir.len() as int]
            == manifest.name(),
        file.parts.len() == dir.len() + 1 ==> file.parts[dir.len() as int] == file.name(),
{
    let depth = manifest.parts.len() - 1;
    assert(manifest.parts.drop_last().len() == depth);
    if manifest.parts.len() > dir.len() + 1 {
        assert(manifest.parts[dir.len() as int] == manifest.dir()[dir.len() as int]);
        assert(file.parts.take(depth)[dir.len() as int] == file.parts[dir.len() as int]);
    }
}

/// Under a well-formed node the manifests lead.
pub proof fn lemma_node_manifests_lead(node: Node, dir: Seq<Seq<char>>)
    requires
        well_formed_node(node),
    ensures
        manifests_lead(walk_node(node, dir)),
    decreases node,
{
    match node {
        Node::Directory { name, entries: Some(list) } => {
            lemma_entries_manifests_lead(list@, dir.push(name@));
        },
        _ => {},
    }
}

/// Within one pass over a well-formed listing the manifests lead.
pub proof fn lemma_pass_manifests_lead(entries: Seq<Node>, dir: Seq<Seq<char>>, first: bool, n: int)
    requires
        0 <= n <= entries.len(),
        names_distinct(entries),
        well_formed_upto(entries, entries.len() as int),
    ensures
        manifests_lead(walk_pass(entries, dir, first, n)),
    decreases entries, n,
{
    if n > 0 {
        lemma_pass_manifests_lead(entries, dir, first, n - 1);
        let before = walk_pass(entries, dir, first, n - 1);
        let now = walk_pass(entries, dir, first, n);
        let entry = entries[n - 1];
        if goes_first(entry) == first {
            lemma_well_formed_each(entries, entries.len() as int, n - 1);
            lemma_node_manifests_lead(entry, dir);
            lemma_walk_node(entry, dir);
            lemma_walk_pass(entries, dir, first, n - 1);
            let more = walk_node(entry, dir);
            assert(now == before + more);
            assert forall|i: int, j: int|
                0 <= i < now.len() && 0 <= j < now.len() && is_manifest_name(
                    (#[trigger] now[i]).name(),
                ) && lies_behind(#[trigger] now[j], now[i]) implies i < j by {
                if i < before.len() && j < before.len() {
                    assert(now[i] == before[i] && now[j] == before[j]);
                } else if i >= before.len() && j >= before.len() {
                    assert(now[i] == more[i - before.len()] && now[j] == more[j - before.len()]);
                } else if i >= before.len() {
                    assert(now[i] == more[i - before.len()] && now[j] == before[j]);
                    lemma_heads(now[j], now[i], dir);
                    let k = lemma_entry_of(entries, first, n - 1, before[j], dir);
                    assert(now[i].parts[dir.len() as int] == entry.name());
                    if now[i].parts.len() > dir.len() + 1 {
                        lemma_same_name_same_entry(entries, k, n - 1);
                    }
                    assert(false);
                }
            }
        }
    }
}

/// Under a well-formed listing the manifests lead.
pub proof fn lemma_entries_manifests_lead(entries: Seq<Node>, dir: Seq<Seq<char>>)
    requires
        well_formed(entries),
    ensures
        manifests_lead(walk_entries(entries, dir)),
    decreases entries, entries.len() + 1,
{
    let n = entries.len() as int;
    lemma_pass_manifests_lead(entries, dir, true, n);
    lemma_pass_manifests_lead(entries, dir, false, n);
    lemma_walk_pass(entries, dir, true, n);
    lemma_walk_pass(entries, dir, false, n);
    let a = walk_pass(entries, dir, true, n);
    let b = walk_pass(entries, dir, false, n);
    let now = walk_entries(entries, dir);
    assert(now == a + b);
    assert forall|i: int, j: int|
        0 <= i < now.len() && 0 <= j < now.len() && is_manifest_name((#[trigger] now[i]).name())
            && lies_behind(#[trigger] now[j], now[i]) implies i < j by {
        if i < a.len() && j < a.len() {
            assert(now[i] == a[i] && now[j] == a[j]);
        } else if i >= a.len() && j >= a.len() {
            assert(now[i] == b[i - a.len()] && now[j] == b[j - a.len()]);
        } else if i >= a.len() {
            assert(now[i] == b[i - a.len()] && now[j] == a[j]);
            lemma_heads(now[j], now[i], dir);
            let k = lemma_entry_of(entries, false, n, b[i - a.len()], dir);
            let m = lemma_entry_of(entries, true, n, a[j], dir);
            if now[i].parts.len() > dir.len() + 1 {
                lemma_same_name_same_entry(entries, k, m);
            }
            assert(false);
        }
    }
}

} // verus!
