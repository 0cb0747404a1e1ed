use crate::record::strs;
use vstd::prelude::*;

verus! {

/// The components of a path, as character sequences.
pub open spec fn path_view(p: Seq<String>) -> Seq<Seq<char>> {
    strs(p)
}

/// The first component of every hierarchical path.
pub open spec fn root_spec() -> Seq<char> {
    seq!['R', 'O', 'O', 'T']
}

/// The single component of the path of the flat registry anchor.
pub open spec fn registry_name_spec() -> Seq<char> {
    seq!['a', 'l', 'i', 'g', 'n', 'm', 'e', 'n', 't', 's']
}

/// The path of the anchor that every record is linked from.
pub open spec fn registry_path_spec() -> Seq<Seq<char>> {
    seq![registry_name_spec()]
}

/// The maximal runs of characters other than '.' in `s`, scanning from `i`, where
/// the run being read began at `start`.
pub open spec fn components_from(s: Seq<char>, start: int, i: int) -> Seq<Seq<char>>
    decreases s.len() - i,
{
    if i >= s.len() {
        if start < s.len() {
            seq![s.subrange(start, s.len() as int)]
        } else {
            seq![]
        }
    } else if s[i] == '.' {
        let rest = components_from(s, i + 1, i + 1);
        if start < i {
            seq![s.subrange(start, i)] + rest
        } else {
            rest
        }
    } else {
        components_from(s, start, i + 1)
    }
}

/// The components of a dotted path: its non-empty '.'-separated parts, in order.
pub open spec fn components(s: Seq<char>) -> Seq<Seq<char>> {
    components_from(s, 0, 0)
}

/// A path prefix with the abbreviation appended as its leaf, when there is one.
pub open spec fn with_leaf(prefix: Seq<Seq<char>>, abbreviation: Seq<char>) -> Seq<Seq<char>> {
    if abbreviation.len() > 0 {
        prefix.push(abbreviation)
    } else {
        prefix
    }
}

/// The path derived from one parent: the root, the parent's components, the leaf.
pub open spec fn parent_path(parent: Seq<char>, abbreviation: Seq<char>) -> Seq<Seq<char>> {
    with_leaf(seq![root_spec()] + components(parent), abbreviation)
}

/// The paths under which a record is indexed: one per parent, or one directly under
/// the root when it has no parent.
pub open spec fn derive_spec(parents: Seq<Seq<char>>, abbreviation: Seq<char>) -> Seq<
    Seq<Seq<char>>,
> {
    if parents.len() == 0 {
        seq![with_leaf(seq![root_spec()], abbreviation)]
    } else {
        parents.map_values(|p: Seq<char>| parent_path(p, abbreviation))
    }
}

/// Each declared parent yields a path of its own: for k parents whose dotted paths
/// name k different component sequences, there are exactly k derived paths, pairwise
/// distinct, each ending in the abbreviation or, when the abbreviation is empty, in
/// the parent's own last component (the root, for a parent with no component).
pub proof fn lemma_one_path_per_parent(parents: Seq<Seq<char>>, abbreviation: Seq<char>)
    requires
        parents.len() > 0,
        forall|i: int, j: int|
            0 <= i < j < parents.len() ==> components(parents[i]) != components(parents[j]),
    ensures
        derive_spec(parents, abbreviation).len() == parents.len(),
        forall|i: int, j: int|
            0 <= i < j < parents.len() ==> derive_spec(parents, abbreviation)[i] != derive_spec(
                parents,
                abbreviation,
            )[j],
        forall|i: int|
            0 <= i < parents.len() ==> derive_spec(parents, abbreviation)[i].last() == (if abbreviation.len()
                > 0 {
                abbreviation
            } else {
                (seq![root_spec()] + components(parents[i])).last()
            }),
{
    let d = derive_spec(parents, abbreviation);
    assert forall|i: int, j: int| 0 <= i < j < parents.len() implies d[i] != d[j] by {
        let xi = seq![root_spec()] + components(parents[i]);
        let xj = seq![root_spec()] + components(parents[j]);
        if d[i] == d[j] {
            if abbreviation.len() > 0 {
                assert(xi =~= d[i].drop_last());
                assert(xj =~= d[j].drop_last());
            }
            assert(xi == xj);
            assert(components(parents[i]) =~= xi.subrange(1, xi.len() as int));
            assert(components(parents[j]) =~= xj.subrange(1, xj.len() as int));
        }
    }
}

/// The root component.
pub fn root_component() -> (r: String)
    ensures
        r@ == root_spec(),
{
    let r = String::from_str("ROOT");
    proof {
        reveal_strlit("ROOT");
    }
    assert(r@ =~= root_spec());
    r
}

/// The path of the flat registry anchor.
pub fn registry_path() -> (r: Vec<String>)
    ensures
        path_view(r@) == registry_path_spec(),
{
    let name = String::from_str("alignments");
    proof {
        reveal_strlit("alignments");
    }
    assert(name@ =~= registry_name_spec());
    let mut r: Vec<String> = Vec::new();
    r.push(name);
    assert(path_view(r@) =~= registry_path_spec());
    r
}

/// Splits a dotted path into its non-empty components.
pub fn split_path(s: &str) -> (r: Vec<String>)
    ensures
        path_view(r@) == components(s@),
{
    let n = s.unicode_len();
    let mut r: Vec<String> = Vec::new();
    let mut start: usize = 0;
    let mut i: usize = 0;
    while i < n
        invariant
            n == s@.len(),
            start <= i <= n,
            path_view(r@) + components_from(s@, start as int, i as int) == components(s@),
        decreases n - i,
    {
        if s.get_char(i) == '.' {
            if start < i {
                let part = String::from_str(s.substring_char(start, i));
                let ghost before = r@;
                r.push(part);
                assert(path_view(r@) =~= path_view(before) + seq![s@.subrange(start as int, i as int)]);
                assert(path_view(r@) + components_from(s@, i + 1, i + 1) =~= path_view(before)
                    + components_from(s@, start as int, i as int));
            }
            start = i + 1;
        }
        i = i + 1;
    }
    if start < n {
        let part = String::from_str(s.substring_char(start, n));
        let ghost before = r@;
        r.push(part);
        assert(path_view(r@) =~= path_view(before) + components_from(s@, start as int, n as int));
    } else {
        assert(path_view(r@) =~= path_view(r@) + components_from(s@, start as int, n as int));
    }
    r
}

/// Appends the abbreviation to a path when the abbreviation is not empty.
fn push_leaf(path: &mut Vec<String>, abbreviation: &String)
    ensures
        path_view(final(path)@) == with_leaf(path_view(old(path)@), abbreviation@),
{
    if abbreviation.as_str().unicode_len() > 0 {
        let ghost before = path@;
        path.push(abbreviation.clone());
        assert(path_view(path@) =~= path_view(before).push(abbreviation@));
    }
}

/// The paths under which a record with these parents and this abbreviation is indexed.
pub fn derive_paths(parents: &Vec<String>, abbreviation: &String) -> (r: Vec<Vec<String>>)
    ensures
        r@.map_values(|p: Vec<String>| path_view(p@)) == derive_spec(strs(parents@), abbreviation@),
{
    let mut r: Vec<Vec<String>> = Vec::new();
    let ghost ps = strs(parents@);
    let mut i: usize = 0;
    while i < parents.len()
        invariant
            i <= parents@.len(),
            ps == strs(parents@),
            r@.map_values(|p: Vec<String>| path_view(p@)) == ps.take(i as int).map_values(
                |p: Seq<char>| parent_path(p, abbreviation@),
            ),
        decreases parents@.len() - i,
    {
        let mut path: Vec<String> = Vec::new();
        path.push(root_component());
        let mut tail = split_path(parents[i].as_str());
        path.append(&mut tail);
        assert(path_view(path@) =~= seq![root_spec()] + components(ps[i as int]));
        push_leaf(&mut path, abbreviation);
        let ghost before = r@;
        r.push(path);
        i = i + 1;
        assert(ps.take(i as int) =~= ps.take(i as int - 1).push(ps[i as int - 1]));
        assert(r@.map_values(|p: Vec<String>| path_view(p@)) =~= before.map_values(
            |p: Vec<String>| path_view(p@),
        ).push(parent_path(ps[i as int - 1], abbreviation@)));
        assert(ps.take(i as int).map_values(|p: Seq<char>| parent_path(p, abbreviation@))
            =~= ps.take(i as int - 1).map_values(|p: Seq<char>| parent_path(p, abbreviation@)).push(
            parent_path(ps[i as int - 1], abbreviation@),
        ));
    }
    assert(ps.take(ps.len() as int) =~= ps);
    if parents.len() == 0 {
        let mut path: Vec<String> = Vec::new();
        path.push(root_component());
        assert(path_view(path@) =~= seq![root_spec()]);
        push_leaf(&mut path, abbreviation);
        r.push(path);
        assert(r@.map_values(|p: Vec<String>| path_view(p@)) =~= derive_spec(ps, abbreviation@));
    }
    r
}

} // verus!
