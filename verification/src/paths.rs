//! Asset paths: slash-separated paths relative to the root of a scan, and the
//! resolution of the references that manifests make to other files.
//!
//! A path is handled as the list of its components.  Resolution is purely
//! lexical: nothing here looks at a file system.

use crate::text::{
    append_chars, chars_of, copy_chars, is_delimiter, lemma_pieces_append_plain, marks, pieces,
    same_chars, spells, split, views, Delimiter,
};
use vstd::prelude::*;

verus! {

/// Whether `name` can be a component of an asset path: it is not empty,
/// it is neither `.` nor `..`, and it holds no separator.
pub open spec fn is_component(name: Seq<char>) -> bool {
    name.len() > 0 && name != "."@ && name != ".."@ && forall|j: int|
        0 <= j < name.len() ==> !is_delimiter(Delimiter::Separator, #[trigger] name[j])
}

/// Whether every member of `parts` is a component.
pub open spec fn all_components(parts: Seq<Seq<char>>) -> bool {
    forall|i: int| 0 <= i < parts.len() ==> is_component(#[trigger] parts[i])
}

/// The components joined by `/`.
pub open spec fn joined(parts: Seq<Seq<char>>) -> Seq<char>
    decreases parts.len(),
{
    if parts.len() == 0 {
        Seq::<char>::empty()
    } else if parts.len() == 1 {
        parts[0]
    } else {
        joined(parts.drop_last()) + seq!['/'] + parts.last()
    }
}

/// `path` with every backslash replaced by `/`.
pub open spec fn slashed(path: Seq<char>) -> Seq<char> {
    Seq::new(path.len(), |i: int| if path[i] == '\\' { '/' } else { path[i] })
}

/// The asset path of the file with the components `parts`: the components
/// joined by `/`.  A backslash in a name is written as `/`, so that no asset
/// path holds a backslash.
pub open spec fn asset_path(parts: Seq<Seq<char>>) -> Seq<char> {
    slashed(joined(parts))
}

/// Where one component of a reference leads from the directory `stack`:
/// an empty component and `.` stay, `..` climbs to the parent, any other
/// name descends.  Climbing above the root leads nowhere.
pub open spec fn step(stack: Seq<Seq<char>>, part: Seq<char>) -> Option<Seq<Seq<char>>> {
    if part.len() == 0 || part == "."@ {
        Some(stack)
    } else if part == ".."@ {
        if stack.len() == 0 {
            None
        } else {
            Some(stack.drop_last())
        }
    } else {
        Some(stack.push(part))
    }
}

/// Where the components `parts`, taken in order, lead from `stack`.
pub open spec fn climb(stack: Seq<Seq<char>>, parts: Seq<Seq<char>>) -> Option<Seq<Seq<char>>>
    decreases parts.len(),
{
    if parts.len() == 0 {
        Some(stack)
    } else {
        match climb(stack, parts.drop_last()) {
            Some(reached) => step(reached, parts.last()),
            None => None,
        }
    }
}

/// Whether a reference starts at a file-system root instead of the
/// directory of the manifest that makes it.
pub open spec fn is_rooted(reference: Seq<char>) -> bool {
    reference.len() > 0 && is_delimiter(Delimiter::Separator, reference[0])
}

/// Those of `parts` that name something: the empty ones and `.` are left
/// out.
pub open spec fn named_parts(parts: Seq<Seq<char>>) -> Seq<Seq<char>>
    decreases parts.len(),
{
    if parts.len() == 0 {
        Seq::<Seq<char>>::empty()
    } else if parts.last().len() == 0 || parts.last() == "."@ {
        named_parts(parts.drop_last())
    } else {
        named_parts(parts.drop_last()).push(parts.last())
    }
}

/// Where the scan root lies in the file system, as far as rooted
/// references need it: the components of its path, where that path is
/// rooted itself, and `None` otherwise.
pub open spec fn anchor_of(root_path: Seq<char>) -> Option<Seq<Seq<char>>> {
    if is_rooted(root_path) {
        Some(named_parts(pieces(root_path, marks(Delimiter::Separator))))
    } else {
        None
    }
}

/// Whether `parts` starts with `prefix`.
pub open spec fn is_prefix(prefix: Seq<Seq<char>>, parts: Seq<Seq<char>>) -> bool {
    prefix.len() <= parts.len() && parts.take(prefix.len() as int) == prefix
}

/// The components of the path that `reference` names when a manifest in the
/// directory `dir` makes it; `None` where it names nothing inside the scan
/// root.  A reference that is not rooted starts at `dir`.  A rooted one
/// names something inside the scan only where the scan root has a rooted
/// path, `anchor`, with whose components it starts; what follows them is
/// taken from the scan root.
pub open spec fn resolve(
    anchor: Option<Seq<Seq<char>>>,
    dir: Seq<Seq<char>>,
    reference: Seq<char>,
) -> Option<Seq<Seq<char>>> {
    if is_rooted(reference) {
        match anchor {
            Some(prefix) => {
                let parts = named_parts(pieces(reference, marks(Delimiter::Separator)));
                if is_prefix(prefix, parts) {
                    climb(Seq::<Seq<char>>::empty(), parts.skip(prefix.len() as int))
                } else {
                    None
                }
            },
            None => None,
        }
    } else {
        climb(dir, pieces(reference, marks(Delimiter::Separator)))
    }
}

/// The asset paths that the references `refs` name from `dir`, in order.
/// References that name nothing inside the scan root are dropped.
pub open spec fn resolve_each(
    anchor: Option<Seq<Seq<char>>>,
    dir: Seq<Seq<char>>,
    refs: Seq<Seq<char>>,
) -> Seq<Seq<char>>
    decreases refs.len(),
{
    if refs.len() == 0 {
        Seq::<Seq<char>>::empty()
    } else {
        let before = resolve_each(anchor, dir, refs.drop_last());
        match resolve(anchor, dir, refs.last()) {
            Some(parts) => before.push(asset_path(parts)),
            None => before,
        }
    }
}

/// The components of an anchor as the specification sees them.
pub open spec fn anchor_view(anchor: Option<Vec<Vec<char>>>) -> Option<Seq<Seq<char>>> {
    match anchor {
        Some(parts) => Some(views(parts@)),
        None => None,
    }
}

/// Splitting a joined path at its separators gives the components back.
pub proof fn lemma_joined_splits_back(parts: Seq<Seq<char>>)
    requires
        parts.len() >= 1,
        all_components(parts),
    ensures
        pieces(joined(parts), marks(Delimiter::Separator)) == parts,
    decreases parts.len(),
{
    let brk = marks(Delimiter::Separator);
    let nothing = Seq::<char>::empty();
    if parts.len() == 1 {
        assert(is_component(parts[0]));
        lemma_pieces_append_plain(nothing, parts[0], brk);
        assert(nothing + parts[0] == parts[0]);
        assert(pieces(nothing, brk) == seq![nothing]);
        assert(seq![nothing].drop_last().push(nothing + parts[0]) == parts);
    } else {
        let front = parts.drop_last();
        assert(all_components(front)) by {
            assert forall|i: int| 0 <= i < front.len() implies is_component(
                #[trigger] front[i],
            ) by {
                assert(front[i] == parts[i]);
            }
        }
        lemma_joined_splits_back(front);
        let head = joined(front) + seq!['/'];
        assert(head.drop_last() == joined(front));
        assert(brk(head.last()));
        assert(pieces(head, brk) == front.push(nothing));
        assert(is_component(parts[parts.len() - 1]));
        lemma_pieces_append_plain(head, parts.last(), brk);
        assert(nothing + parts.last() == parts.last());
        assert(front.push(nothing).drop_last() == front);
        assert(front.push(parts.last()) == parts);
    }
}

/// Two lists of components that join to the same path are the same list.
pub proof fn lemma_joined_injective(p: Seq<Seq<char>>, q: Seq<Seq<char>>)
    requires
        p.len() >= 1,
        q.len() >= 1,
        all_components(p),
        all_components(q),
        joined(p) == joined(q),
    ensures
        p == q,
{
    lemma_joined_splits_back(p);
    lemma_joined_splits_back(q);
}

/// A path joined from components is slash-normalized: it holds no
/// backslash, and it neither starts nor ends with `/`.
pub proof fn lemma_joined_is_normalized(parts: Seq<Seq<char>>)
    requires
        parts.len() >= 1,
        all_components(parts),
    ensures
        joined(parts).len() > 0,
        joined(parts)[0] != '/',
        joined(parts).last() != '/',
        forall|j: int| 0 <= j < joined(parts).len() ==> #[trigger] joined(parts)[j] != '\\',
    decreases parts.len(),
{
    assert(is_component(parts[parts.len() - 1]));
    if parts.len() > 1 {
        let front = parts.drop_last();
        assert(all_components(front)) by {
            assert forall|i: int| 0 <= i < front.len() implies is_component(
                #[trigger] front[i],
            ) by {
                assert(front[i] == parts[i]);
            }
        }
        lemma_joined_is_normalized(front);
        let whole = joined(parts);
        let last = parts.last();
        assert forall|j: int| 0 <= j < whole.len() implies #[trigger] whole[j] != '\\' by {
            if j < joined(front).len() {
                assert(whole[j] == joined(front)[j]);
            } else if j > joined(front).len() {
                assert(whole[j] == last[j - joined(front).len() - 1]);
            }
        }
        assert(whole[0] == joined(front)[0]);
        assert(whole.last() == last.last());
    }
}

/// Where every name is a path component, the asset path is the components
/// joined, letter for letter.
pub proof fn lemma_asset_path_of_components(parts: Seq<Seq<char>>)
    requires
        parts.len() >= 1,
        all_components(parts),
    ensures
        asset_path(parts) == joined(parts),
{
    lemma_joined_is_normalized(parts);
    assert(slashed(joined(parts)) =~= joined(parts));
}

/// A copy of `parts`.
pub fn copy_parts(parts: &Vec<Vec<char>>) -> (out: Vec<Vec<char>>)
    ensures
        views(out@) == views(parts@),
{
    let mut out: Vec<Vec<char>> = Vec::new();
    let mut i: usize = 0;
    while i < parts.len()
        invariant
            i <= parts.len(),
            views(out@) == views(parts@).take(i as int),
        decreases parts.len() - i,
    {
        let part = copy_chars(&parts[i]);
        assert(views(out@.push(part)) == views(out@).push(part@));
        assert(views(parts@).take(i + 1) == views(parts@).take(i as int).push(parts@[i as int]@));
        out.push(part);
        i += 1;
    }
    assert(views(parts@).take(parts.len() as int) == views(parts@));
    out
}

/// Computes [`joined`].
pub fn join_path(parts: &Vec<Vec<char>>) -> (path: Vec<char>)
    ensures
        path@ == joined(views(parts@)),
{
    let mut path: Vec<char> = Vec::new();
    let mut i: usize = 0;
    assert(views(parts@).take(0) == Seq::<Seq<char>>::empty());
    while i < parts.len()
        invariant
            i <= parts.len(),
            path@ == joined(views(parts@).take(i as int)),
        decreases parts.len() - i,
    {
        proof {
            let now = views(parts@).take(i + 1);
            assert(now.drop_last() == views(parts@).take(i as int));
            assert(now.last() == parts@[i as int]@);
            if i == 0 {
                assert(Seq::<char>::empty() + parts@[0]@ == parts@[0]@);
            }
        }
        if i > 0 {
            path.push('/');
            assert(path@ == joined(views(parts@).take(i as int)) + seq!['/']);
        }
        append_chars(&mut path, &parts[i]);
        i += 1;
    }
    assert(views(parts@).take(parts.len() as int) == views(parts@));
    path
}

/// Computes [`asset_path`].
pub fn asset_path_of(parts: &Vec<Vec<char>>) -> (path: Vec<char>)
    ensures
        path@ == asset_path(views(parts@)),
{
    let plain = join_path(parts);
    let mut path: Vec<char> = Vec::new();
    let mut i: usize = 0;
    while i < plain.len()
        invariant
            i <= plain.len(),
            path@ == slashed(plain@).take(i as int),
        decreases plain.len() - i,
    {
        assert(slashed(plain@).take(i + 1) == slashed(plain@).take(i as int).push(
            slashed(plain@)[i as int],
        ));
        let c = plain[i];
        path.push(if c == '\\' { '/' } else { c });
        i += 1;
    }
    assert(slashed(plain@).take(plain.len() as int) == slashed(plain@));
    path
}

/// Computes [`named_parts`].
pub fn only_named(parts: &Vec<Vec<char>>) -> (named: Vec<Vec<char>>)
    ensures
        views(named@) == named_parts(views(parts@)),
{
    let mut named: Vec<Vec<char>> = Vec::new();
    let mut i: usize = 0;
    assert(views(parts@).take(0) == Seq::<Seq<char>>::empty());
    assert(views(named@) == Seq::<Seq<char>>::empty());
    while i < parts.len()
        invariant
            i <= parts.len(),
            views(named@) == named_parts(views(parts@).take(i as int)),
        decreases parts.len() - i,
    {
        proof {
            let now = views(parts@).take(i + 1);
            assert(now.drop_last() == views(parts@).take(i as int));
            assert(now.last() == parts@[i as int]@);
        }
        let part = &parts[i];
        if !(part.len() == 0 || spells(part, ".")) {
            let name = copy_chars(part);
            assert(views(named@.push(name)) == views(named@).push(name@));
            named.push(name);
        }
        i += 1;
    }
    assert(views(parts@).take(parts.len() as int) == views(parts@));
    named
}

/// Computes [`anchor_of`].
pub fn anchor(root_path: &str) -> (found: Option<Vec<Vec<char>>>)
    ensures
        anchor_view(found) == anchor_of(root_path@),
{
    let chars = chars_of(root_path);
    if chars.len() > 0 && (chars[0] == '/' || chars[0] == '\\') {
        Some(only_named(&split(&chars, Delimiter::Separator)))
    } else {
        None
    }
}

/// Computes [`is_prefix`].
fn starts_with(parts: &Vec<Vec<char>>, prefix: &Vec<Vec<char>>) -> (found: bool)
    ensures
        found == is_prefix(views(prefix@), views(parts@)),
{
    if prefix.len() > parts.len() {
        return false;
    }
    let mut i: usize = 0;
    while i < prefix.len()
        invariant
            i <= prefix.len(),
            prefix.len() <= parts.len(),
            forall|k: int| 0 <= k < i ==> parts@[k]@ == prefix@[k]@,
        decreases prefix.len() - i,
    {
        if !same_chars(&parts[i], &prefix[i]) {
            assert(views(parts@).take(prefix.len() as int)[i as int] != views(prefix@)[i as int]);
            return false;
        }
        i += 1;
    }
    assert(views(parts@).take(prefix.len() as int) =~= views(prefix@));
    true
}

/// Computes [`climb`] for the components of `parts` from position `from` on.
fn climb_from(stack: Vec<Vec<char>>, parts: &Vec<Vec<char>>, from: usize) -> (found: Option<
    Vec<Vec<char>>,
>)
    requires
        from <= parts.len(),
    ensures
        match found {
            Some(reached) => climb(views(stack@), views(parts@).skip(from as int)) == Some(
                views(reached@),
            ),
            None => climb(views(stack@), views(parts@).skip(from as int)) is None,
        },
{
    let ghost rest = views(parts@).skip(from as int);
    let mut reached = copy_parts(&stack);
    let mut i: usize = from;
    assert(rest.take(0) == Seq::<Seq<char>>::empty());
    while i < parts.len()
        invariant
            from <= i <= parts.len(),
            rest == views(parts@).skip(from as int),
            climb(views(stack@), rest.take(i - from)) == Some(views(reached@)),
        decreases parts.len() - i,
    {
        proof {
            let now = rest.take(i - from + 1);
            assert(now.drop_last() == rest.take(i - from));
            assert(now.last() == parts@[i as int]@);
        }
        let part = &parts[i];
        if part.len() == 0 || spells(part, ".") {
        } else if spells(part, "..") {
            if reached.len() == 0 {
                proof {
                    assert(climb(views(stack@), rest.take(i - from + 1)) is None);
                    lemma_climb_stays_lost(views(stack@), rest, i - from + 1);
                }
                return None;
            }
            assert(views(reached@.drop_last()) == views(reached@).drop_last());
            reached.pop();
        } else {
            let name = copy_chars(part);
            assert(views(reached@.push(name)) == views(reached@).push(name@));
            reached.push(name);
        }
        i += 1;
    }
    assert(rest.take(rest.len() as int) == rest);
    Some(reached)
}

/// Computes [`resolve`].
pub fn resolve_reference(
    anchor: &Option<Vec<Vec<char>>>,
    dir: &Vec<Vec<char>>,
    reference: &Vec<char>,
) -> (found: Option<Vec<Vec<char>>>)
    ensures
        match found {
            Some(parts) => resolve(anchor_view(*anchor), views(dir@), reference@) == Some(
                views(parts@),
            ),
            None => resolve(anchor_view(*anchor), views(dir@), reference@) is None,
        },
{
    let parts = split(reference, Delimiter::Separator);
    if reference.len() > 0 && (reference[0] == '/' || reference[0] == '\\') {
        assert(is_rooted(reference@));
        match anchor {
            Some(prefix) => {
                assert(anchor_view(*anchor) == Some(views(prefix@)));
                let named = only_named(&parts);
                if starts_with(&named, prefix) {
                    let nothing: Vec<Vec<char>> = Vec::new();
                    assert(views(nothing@) == Seq::<Seq<char>>::empty());
                    climb_from(nothing, &named, prefix.len())
                } else {
                    None
                }
            },
            None => None,
        }
    } else {
        assert(!is_rooted(reference@));
        assert(views(parts@).skip(0) == views(parts@));
        climb_from(copy_parts(dir), &parts, 0)
    }
}

/// Once a prefix of the components has left the root, so has the whole.
pub proof fn lemma_climb_stays_lost(stack: Seq<Seq<char>>, parts: Seq<Seq<char>>, n: int)
    requires
        0 <= n <= parts.len(),
        climb(stack, parts.take(n)) is None,
    ensures
        climb(stack, parts) is None,
    decreases parts.len() - n,
{
    if n < parts.len() {
        assert(parts.take(n + 1).drop_last() == parts.take(n));
        lemma_climb_stays_lost(stack, parts, n + 1);
    } else {
        assert(parts.take(n) == parts);
    }
}

/// The asset path of the sample asset that ships with the program.
pub fn get_asset_path() -> (path: String)
    ensures
        path@ == "assets/example.png"@,
{
    "assets/example.png".to_owned()
}

} // verus!
