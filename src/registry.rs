use crate::path::{components, root_spec, registry_name_spec, derive_paths, derive_spec, registry_path, registry_path_spec, split_path};
use crate::record::{Alignment, AlignmentOutput, ValidationError, AlignmentView, validation_spec};
use crate::store::{
    lemma_commit_round_trip, lookup, commit_spec, ensure_spec, fetch_spec, fetched_view, link_spec, list_spec, EntryView, LinkTag,
    Store, StoreView,
};
use vstd::prelude::*;

verus! {

/// The entries that a sequence of fetch results holds, in order, the misses dropped.
pub open spec fn somes(s: Seq<Option<EntryView>>) -> Seq<EntryView>
    decreases s.len(),
{
    if s.len() == 0 {
        seq![]
    } else {
        let rest = somes(s.drop_first());
        match s[0] {
            Some(e) => seq![e] + rest,
            None => rest,
        }
    }
}

/// The values of a sequence of listed records.
pub open spec fn outputs_view(v: Seq<AlignmentOutput>) -> Seq<EntryView> {
    v.map_values(|o: AlignmentOutput| o@)
}

/// The values of a sequence of fetch results.
pub open spec fn fetched_views(v: Seq<Option<AlignmentOutput>>) -> Seq<Option<EntryView>> {
    v.map_values(|o: Option<AlignmentOutput>| fetched_view(o))
}

/// The stored records at these addresses, in order, with the addresses that hold
/// nothing dropped.
pub open spec fn resolve_spec(entries: Seq<EntryView>, targets: Seq<Seq<char>>) -> Seq<EntryView> {
    somes(targets.map_values(|t: Seq<char>| fetch_spec(entries, t)))
}

/// The flat listing of every record linked from the registry anchor.
pub open spec fn list_records_spec(s: StoreView) -> Seq<EntryView> {
    resolve_spec(s.entries, list_spec(s.links, registry_path_spec(), None))
}

/// The records indexed under the anchor of a dotted path.
pub open spec fn list_under_spec(s: StoreView, path: Seq<char>) -> Seq<EntryView> {
    resolve_spec(s.entries, list_spec(s.links, components(path), Some(LinkTag::Record)))
}

/// The store after materialising each path and linking it to the address.
pub open spec fn index_paths(s: StoreView, paths: Seq<Seq<Seq<char>>>, address: Seq<char>) -> StoreView
    decreases paths.len(),
{
    if paths.len() == 0 {
        s
    } else {
        let before = index_paths(s, paths.drop_last(), address);
        link_spec(ensure_spec(before, paths.last()), paths.last(), address, LinkTag::Record)
    }
}

/// The store after creating a valid record under its address: the record is
/// committed, linked from the registry anchor, then linked from each derived path.
pub open spec fn create_spec(s: StoreView, address: Seq<char>, record: AlignmentView) -> StoreView {
    let committed = commit_spec(s, address, record);
    let listed = link_spec(
        ensure_spec(committed, registry_path_spec()),
        registry_path_spec(),
        address,
        LinkTag::Untagged,
    );
    index_paths(listed, derive_spec(record.parents, record.path_abbreviation), address)
}

/// Dropping misses commutes with appending one more fetch result.
proof fn lemma_somes_push(s: Seq<Option<EntryView>>, x: Option<EntryView>)
    ensures
        somes(s.push(x)) == somes(s) + match x {
            Some(e) => seq![e],
            None => Seq::<EntryView>::empty(),
        },
    decreases s.len(),
{
    if s.len() == 0 {
        assert(s.push(x).drop_first() =~= s);
        assert(somes(s) =~= Seq::<EntryView>::empty());
        assert(somes(Seq::<Option<EntryView>>::empty()) =~= Seq::<EntryView>::empty());
        match x {
            Some(e) => assert(seq![e] + Seq::<EntryView>::empty() =~= seq![e]),
            None => {},
        }
        assert(somes(s.push(x)) =~= somes(s) + match x {
            Some(e) => seq![e],
            None => Seq::<EntryView>::empty(),
        });
    } else {
        assert(s.push(x).drop_first() =~= s.drop_first().push(x));
        lemma_somes_push(s.drop_first(), x);
        match s[0] {
            Some(e) => {
                assert(somes(s.push(x)) =~= somes(s) + match x {
                    Some(e) => seq![e],
                    None => Seq::<EntryView>::empty(),
                });
            },
            None => {},
        }
    }
}

/// Every resolved record carries one of the addresses asked for.
proof fn lemma_resolved_addresses(entries: Seq<EntryView>, targets: Seq<Seq<char>>)
    ensures
        forall|k: int|
            0 <= k < resolve_spec(entries, targets).len() ==> targets.contains(
                #[trigger] resolve_spec(entries, targets)[k].0,
            ),
    decreases targets.len(),
{
    if targets.len() > 0 {
        let m = targets.map_values(|t: Seq<char>| fetch_spec(entries, t));
        let rest = targets.drop_first();
        assert(m.drop_first() =~= rest.map_values(|t: Seq<char>| fetch_spec(entries, t)));
        lemma_resolved_addresses(entries, rest);
        assert forall|k: int|
            0 <= k < resolve_spec(entries, targets).len() implies targets.contains(
            #[trigger] resolve_spec(entries, targets)[k].0,
        ) by {
            match m[0] {
                Some(e) => {
                    if k == 0 {
                        assert(targets[0] == e.0);
                    } else {
                        assert(resolve_spec(entries, targets)[k] == resolve_spec(entries, rest)[k - 1]);
                        let j = choose|j: int| 0 <= j < rest.len() && rest[j] == resolve_spec(entries, rest)[k - 1].0;
                        assert(targets[j + 1] == rest[j]);
                    }
                },
                None => {
                    let j = choose|j: int| 0 <= j < rest.len() && rest[j] == resolve_spec(entries, rest)[k].0;
                    assert(targets[j + 1] == rest[j]);
                },
            }
        }
    }
}

/// A valid record with no parent and a non-empty abbreviation, created under an
/// address that the registry does not list yet (and that holds no other record), is
/// listed by the registry exactly once afterwards.
pub proof fn lemma_created_record_listed_once(s: StoreView, address: Seq<char>, record: AlignmentView)
    requires
        validation_spec(record) is Ok,
        record.parents.len() == 0,
        record.path_abbreviation.len() > 0,
        !list_spec(s.links, registry_path_spec(), None).contains(address),
        lookup(s.entries, address) is None || lookup(s.entries, address) == Some(record),
    ensures
        exists|i: int|
            0 <= i < list_records_spec(create_spec(s, address, record)).len()
                && list_records_spec(create_spec(s, address, record))[i] == (address, record)
                && forall|j: int|
                0 <= j < list_records_spec(create_spec(s, address, record)).len() && j != i
                    ==> list_records_spec(create_spec(s, address, record))[j].0 != address,
{
    let reg = registry_path_spec();
    let s1 = commit_spec(s, address, record);
    lemma_commit_round_trip(s, address, record);
    let s2 = link_spec(ensure_spec(s1, reg), reg, address, LinkTag::Untagged);
    let l0 = list_spec(s.links, reg, None);
    assert(s2.links.drop_last() =~= s.links);
    assert(list_spec(s2.links, reg, None) == l0.push(address));
    let p = seq![root_spec(), record.path_abbreviation];
    let ps = derive_spec(record.parents, record.path_abbreviation);
    assert(seq![root_spec()].push(record.path_abbreviation) =~= p);
    assert(ps =~= seq![p]);
    assert(ps.drop_last() =~= Seq::<Seq<Seq<char>>>::empty());
    assert(index_paths(s2, ps.drop_last(), address) == s2);
    assert(ps.last() == p);
    let s3 = create_spec(s, address, record);
    assert(s3 == link_spec(ensure_spec(s2, p), p, address, LinkTag::Record));
    assert(p[0].len() != reg[0].len());
    assert(s3.links.drop_last() =~= s2.links);
    assert(list_spec(s3.links, reg, None) == l0.push(address));
    assert(s3.entries == s1.entries);
    let e = s1.entries;
    let f = |t: Seq<char>| fetch_spec(e, t);
    assert(l0.push(address).map_values(f) =~= l0.map_values(f).push(fetch_spec(e, address)));
    lemma_somes_push(l0.map_values(f), fetch_spec(e, address));
    let out = list_records_spec(s3);
    let before = resolve_spec(e, l0);
    assert(out =~= before + seq![(address, record)]);
    lemma_resolved_addresses(e, l0);
    let i = before.len() as int;
    assert forall|j: int| 0 <= j < out.len() && j != i implies out[j].0 != address by {
        assert(out[j] == before[j]);
        assert(l0.contains(before[j].0));
    }
    assert(out[i] == (address, record));
    assert(0 <= i < out.len() && out[i] == (address, record) && forall|j: int|
        0 <= j < out.len() && j != i ==> out[j].0 != address);
}

/// Keeps the records that were found, in order.
pub fn select_outputs(fetched: Vec<Option<AlignmentOutput>>) -> (r: Vec<AlignmentOutput>)
    ensures
        outputs_view(r@) == somes(fetched_views(fetched@)),
{
    let ghost all = fetched_views(fetched@);
    let mut rest = fetched;
    let mut r: Vec<AlignmentOutput> = Vec::new();
    while rest.len() > 0
        invariant
            outputs_view(r@) + somes(fetched_views(rest@)) == somes(all),
        decreases rest@.len(),
    {
        let ghost before = rest@;
        let ghost kept = r@;
        let head = rest.remove(0);
        assert(fetched_views(rest@) =~= fetched_views(before).drop_first());
        assert(fetched_views(before)[0] == fetched_view(head));
        match head {
            Some(o) => {
                r.push(o);
                assert(outputs_view(r@) =~= outputs_view(kept).push(o@));
                assert(outputs_view(r@) + somes(fetched_views(rest@)) =~= outputs_view(kept) + (seq![o@]
                    + somes(fetched_views(rest@))));
            },
            None => {},
        }
    }
    assert(somes(fetched_views(rest@)) =~= Seq::<EntryView>::empty());
    assert(outputs_view(r@) + somes(fetched_views(rest@)) =~= outputs_view(r@));
    r
}

/// Fetches the targets in one batch and keeps the records found.
fn resolve(store: &Store, targets: &Vec<String>) -> (r: Vec<AlignmentOutput>)
    ensures
        outputs_view(r@) == resolve_spec(store@.entries, crate::record::strs(targets@)),
{
    let fetched = store.get_many(targets);
    assert(fetched_views(fetched@) =~= crate::record::strs(targets@).map_values(
        |t: Seq<char>| fetch_spec(store@.entries, t),
    ));
    select_outputs(fetched)
}

/// Every record ever created in the store, in order of creation.
pub fn list_records(store: &Store) -> (r: Vec<AlignmentOutput>)
    ensures
        outputs_view(r@) == list_records_spec(store@),
{
    let anchor = registry_path();
    let targets = store.list(&anchor, None);
    resolve(store, &targets)
}

/// The records indexed under a dotted path (its first component is the root).
pub fn list_under(store: &Store, path: &str) -> (r: Vec<AlignmentOutput>)
    ensures
        outputs_view(r@) == list_under_spec(store@, path@),
{
    let anchor = split_path(path);
    let targets = store.list(&anchor, Some(LinkTag::Record));
    resolve(store, &targets)
}

/// Validates a record, commits it under its content address, links it from the
/// registry anchor and from every path derived from its parents, and returns the
/// address. A refused record leaves the store untouched.
pub fn create_record(store: &mut Store, address: String, input: Alignment) -> (r: Result<
    String,
    ValidationError,
>)
    requires
        old(store)@.links.len() + input@.parents.len() + 2 < usize::MAX,
    ensures
        match r {
            Ok(a) => {
                &&& validation_spec(input@) is Ok
                &&& a@ == address@
                &&& final(store)@ == create_spec(old(store)@, address@, input@)
            },
            Err(e) => {
                &&& validation_spec(input@) == Err::<(), ValidationError>(e)
                &&& final(store)@ == old(store)@
            },
        },
{
    match input.validate() {
        Err(e) => {
            return Err(e);
        },
        Ok(()) => {},
    }
    let ghost record = input@;
    let paths = derive_paths(&input.parents, &input.path_abbreviation);
    let address = store.commit(address, input);
    let anchor = registry_path();
    store.ensure(&anchor);
    store.link(&anchor, &address, LinkTag::Untagged);
    let ghost listed = store@;
    let ghost ps = derive_spec(record.parents, record.path_abbreviation);
    assert(ps.len() <= record.parents.len() + 1);
    let mut i: usize = 0;
    while i < paths.len()
        invariant
            i <= paths@.len(),
            ps == paths@.map_values(|p: Vec<String>| crate::path::path_view(p@)),
            store@ == index_paths(listed, ps.take(i as int), address@),
            store@.links.len() == listed.links.len() + i,
            listed.links.len() + ps.len() < usize::MAX,
        decreases paths@.len() - i,
    {
        store.ensure(&paths[i]);
        store.link(&paths[i], &address, LinkTag::Record);
        i = i + 1;
        assert(ps.take(i as int).drop_last() =~= ps.take(i as int - 1));
    }
    assert(ps.take(ps.len() as int) =~= ps);
    Ok(address)
}

} // verus!
