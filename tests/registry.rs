use std::collections::BTreeMap;

use how::path::{derive_paths, registry_path, root_component, split_path};
use how::record::{Alignment, AlignmentOutput, ValidationError};
use how::registry::{create_record, list_records, list_under, select_outputs};
use how::store::{LinkTag, Store};

fn alignment(parents: &[&str], abbreviation: &str, short_name: &str, title: &str) -> Alignment {
    Alignment {
        parents: parents.iter().map(|p| p.to_string()).collect(),
        path_abbreviation: abbreviation.to_string(),
        short_name: short_name.to_string(),
        title: title.to_string(),
        summary: "blah blah".to_string(),
        stewards: vec![],
        status: 0,
        processes: vec![("soc_proto.process.define".to_string(), "petition".to_string())],
        history: BTreeMap::new(),
        meta: BTreeMap::new(),
    }
}

fn path(parts: &[&str]) -> Vec<String> {
    parts.iter().map(|p| p.to_string()).collect()
}

fn hashes(outputs: &[AlignmentOutput]) -> Vec<String> {
    outputs.iter().map(|o| o.hash.clone()).collect()
}

#[test]
fn test_basics() {
    let mut store = Store::new();
    let aligment1 = alignment(
        &["hc_system"],
        "conductor",
        "conductor",
        "specification of the holochain conductor",
    );
    create_record(&mut store, "hash-conductor".to_string(), aligment1).unwrap();
    let mut alignment2 = alignment(
        &["hc_system.conductor.api"],
        "app",
        "application",
        "specification of the holochain conductor api for application access",
    );
    alignment2.stewards = vec!["uhCAkSteward".to_string()];
    let hash = create_record(&mut store, "hash-app".to_string(), alignment2).unwrap();
    let alignments = list_records(&store);
    assert_eq!(alignments[1].hash, hash);
    assert_eq!(alignments.len(), 2);
    assert_eq!(alignments[1].content.short_name, "application");
}

#[test]
fn root_record_listed_flat_and_under_root() {
    let mut store = Store::new();
    let a = alignment(&[], "conductor", "conductor", "A");
    let h = create_record(&mut store, "hash-a".to_string(), a).unwrap();
    assert_eq!(hashes(&list_records(&store)), vec![h.clone()]);
    assert_eq!(hashes(&list_under(&store, "ROOT.conductor")), vec![h]);
}

#[test]
fn child_record_listed_under_parent_path() {
    let mut store = Store::new();
    let a = alignment(&[], "conductor", "conductor", "A");
    let ha = create_record(&mut store, "hash-a".to_string(), a).unwrap();
    let b = alignment(&["conductor"], "app", "application", "B");
    let hb = create_record(&mut store, "hash-b".to_string(), b).unwrap();
    let under = list_under(&store, "ROOT.conductor.app");
    assert_eq!(hashes(&under), vec![hb.clone()]);
    assert_eq!(under[0].content.title, "B");
    assert_eq!(hashes(&list_records(&store)), vec![ha.clone(), hb]);
    assert_eq!(hashes(&list_under(&store, "ROOT.conductor")), vec![ha]);
}

#[test]
fn fresh_registry_lists_nothing() {
    let store = Store::new();
    assert!(list_records(&store).is_empty());
    assert!(list_under(&store, "ROOT").is_empty());
}

#[test]
fn records_with_disjoint_parents_are_independent() {
    let mut store = Store::new();
    let x = alignment(&["left"], "x", "x", "X");
    let y = alignment(&["right"], "y", "y", "Y");
    let hx = create_record(&mut store, "hash-x".to_string(), x).unwrap();
    let hy = create_record(&mut store, "hash-y".to_string(), y).unwrap();
    assert_eq!(hashes(&list_under(&store, "ROOT.left.x")), vec![hx.clone()]);
    assert_eq!(hashes(&list_under(&store, "ROOT.right.y")), vec![hy.clone()]);
    assert_eq!(hashes(&list_records(&store)), vec![hx, hy]);
}

#[test]
fn record_listed_under_every_parent() {
    let mut store = Store::new();
    let r = alignment(&["a.b", "c"], "leaf", "leaf", "R");
    let h = create_record(&mut store, "hash-r".to_string(), r).unwrap();
    assert_eq!(hashes(&list_under(&store, "ROOT.a.b.leaf")), vec![h.clone()]);
    assert_eq!(hashes(&list_under(&store, "ROOT.c.leaf")), vec![h.clone()]);
    assert_eq!(hashes(&list_records(&store)), vec![h]);
}

#[test]
fn created_root_record_listed_once() {
    let mut store = Store::new();
    let r = alignment(&[], "solo", "solo", "S");
    let h = create_record(&mut store, "hash-s".to_string(), r).unwrap();
    let listed = list_records(&store);
    assert_eq!(listed.iter().filter(|o| o.hash == h).count(), 1);
}

#[test]
fn abbreviation_too_long_is_refused() {
    let mut store = Store::new();
    let r = alignment(&[], "abcdefghijk", "s", "T");
    let e = create_record(&mut store, "hash".to_string(), r).unwrap_err();
    assert_eq!(e, ValidationError::AbbreviationTooLong);
    assert!(list_records(&store).is_empty());
    assert!(!store.has_anchor(&registry_path()));
}

#[test]
fn abbreviation_of_ten_characters_is_accepted() {
    let mut store = Store::new();
    let r = alignment(&[], "abcdéfghij", "s", "T");
    assert!(create_record(&mut store, "hash".to_string(), r).is_ok());
}

#[test]
fn short_name_too_long_is_refused() {
    let r = alignment(&[], "ok", "abcdefghijklmnopqrstuvwxyz", "T");
    assert_eq!(r.validate(), Err(ValidationError::ShortNameTooLong));
    let r = alignment(&[], "ok", "abcdefghijklmnopqrstuvwxy", "T");
    assert_eq!(r.validate(), Ok(()));
}

#[test]
fn bare_root_path_is_refused() {
    let r = alignment(&[], "", "s", "T");
    assert_eq!(r.validate(), Err(ValidationError::AmbiguousRootPath));
    let r = alignment(&["p"], "", "s", "T");
    assert_eq!(r.validate(), Ok(()));
}

#[test]
fn split_drops_empty_components() {
    assert_eq!(split_path("hc_system.conductor.api"), path(&["hc_system", "conductor", "api"]));
    assert_eq!(split_path(".a..b."), path(&["a", "b"]));
    assert!(split_path("").is_empty());
    assert!(split_path("...").is_empty());
}

#[test]
fn derive_one_path_per_parent() {
    let parents = path(&["hc_system", "hc_system.conductor.api", "x"]);
    let paths = derive_paths(&parents, &"app".to_string());
    assert_eq!(
        paths,
        vec![
            path(&["ROOT", "hc_system", "app"]),
            path(&["ROOT", "hc_system", "conductor", "api", "app"]),
            path(&["ROOT", "x", "app"]),
        ]
    );
}

#[test]
fn derive_without_abbreviation_ends_at_parent_leaf() {
    let parents = path(&["a.b", "c"]);
    let paths = derive_paths(&parents, &String::new());
    assert_eq!(paths, vec![path(&["ROOT", "a", "b"]), path(&["ROOT", "c"])]);
}

#[test]
fn derive_without_parents_is_child_of_root() {
    assert_eq!(derive_paths(&vec![], &"top".to_string()), vec![path(&["ROOT", "top"])]);
    assert_eq!(derive_paths(&vec![], &String::new()), vec![path(&["ROOT"])]);
    assert_eq!(root_component(), "ROOT");
    assert_eq!(registry_path(), path(&["alignments"]));
}

#[test]
fn ensure_twice_materialises_once() {
    let mut store = Store::new();
    let p = path(&["ROOT", "a"]);
    assert!(!store.has_anchor(&p));
    let first = store.ensure(&p);
    let second = store.ensure(&p);
    assert_eq!(first, second);
    assert_eq!(first, p);
    assert!(store.has_anchor(&p));
}

#[test]
fn links_list_as_multiset_in_either_order() {
    let base = path(&["ROOT", "b"]);
    let mut one = Store::new();
    one.link(&base, &"t1".to_string(), LinkTag::Record);
    one.link(&base, &"t2".to_string(), LinkTag::Record);
    let mut two = Store::new();
    two.link(&base, &"t2".to_string(), LinkTag::Record);
    two.link(&base, &"t1".to_string(), LinkTag::Record);
    let mut a = one.list(&base, None);
    let mut b = two.list(&base, None);
    a.sort();
    b.sort();
    assert_eq!(a, vec!["t1".to_string(), "t2".to_string()]);
    assert_eq!(a, b);
}

#[test]
fn links_are_never_merged_and_filter_by_tag() {
    let base = path(&["ROOT", "b"]);
    let other = path(&["ROOT", "c"]);
    let mut store = Store::new();
    assert_eq!(store.link(&base, &"t".to_string(), LinkTag::Record), 0);
    assert_eq!(store.link(&base, &"t".to_string(), LinkTag::Record), 1);
    store.link(&base, &"u".to_string(), LinkTag::Untagged);
    store.link(&other, &"v".to_string(), LinkTag::Record);
    assert_eq!(store.list(&base, None), vec!["t", "t", "u"]);
    assert_eq!(store.list(&base, Some(LinkTag::Record)), vec!["t", "t"]);
    assert_eq!(store.list(&base, Some(LinkTag::Untagged)), vec!["u"]);
    assert_eq!(store.list(&other, None), vec!["v"]);
}

#[test]
fn commit_then_get_round_trips() {
    let mut store = Store::new();
    let r = alignment(&["p"], "q", "short", "title");
    let h = store.commit("hash-r".to_string(), r.clone());
    assert_eq!(h, "hash-r");
    let got = store.get(&h).unwrap();
    assert_eq!(got.parents, r.parents);
    assert_eq!(got.title, r.title);
    assert_eq!(got.processes, r.processes);
    assert!(store.get(&"missing".to_string()).is_none());
}

#[test]
fn second_commit_under_same_address_keeps_first() {
    let mut store = Store::new();
    store.commit("h".to_string(), alignment(&[], "one", "s", "first"));
    store.commit("h".to_string(), alignment(&[], "two", "s", "second"));
    assert_eq!(store.get(&"h".to_string()).unwrap().title, "first");
}

#[test]
fn get_many_reports_misses() {
    let mut store = Store::new();
    store.commit("h".to_string(), alignment(&[], "one", "s", "first"));
    let got = store.get_many(&vec!["x".to_string(), "h".to_string()]);
    assert!(got[0].is_none());
    assert_eq!(got[1].as_ref().unwrap().hash, "h");
    assert_eq!(got[1].as_ref().unwrap().content.title, "first");
}

#[test]
fn select_outputs_drops_misses_in_order() {
    let out = |h: &str| {
        Some(AlignmentOutput { hash: h.to_string(), content: alignment(&[], "a", "s", h) })
    };
    let kept = select_outputs(vec![None, out("1"), None, out("2"), None]);
    assert_eq!(hashes(&kept), vec!["1".to_string(), "2".to_string()]);
    assert!(select_outputs(vec![None, None]).is_empty());
}

#[test]
fn copy_keeps_every_field() {
    let mut r = alignment(&["a", "b"], "q", "short", "title");
    r.meta.insert("k".to_string(), "v".to_string());
    r.history.insert("v1".to_string(), "uhCEk".to_string());
    r.stewards = vec!["s1".to_string()];
    let c = r.copy();
    assert_eq!(c.parents, r.parents);
    assert_eq!(c.meta, r.meta);
    assert_eq!(c.history, r.history);
    assert_eq!(c.stewards, r.stewards);
    assert_eq!(c.processes, r.processes);
    assert_eq!(c.status, r.status);
}

#[test]
fn create_record_adds_one_link_per_path_plus_registry() {
    let mut store = Store::new();
    assert_eq!(store.link_count(), 0);
    let r = alignment(&["a", "b", "c"], "leaf", "leaf", "R");
    create_record(&mut store, "hash-r".to_string(), r).unwrap();
    assert_eq!(store.link_count(), 4);
    assert!(store.has_anchor(&registry_path()));
    assert!(store.has_anchor(&path(&["ROOT", "b", "leaf"])));
    assert!(!store.has_anchor(&path(&["ROOT", "b"])));
}
