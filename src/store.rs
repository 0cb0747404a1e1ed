use crate::path::path_view;
use crate::record::{strs, Alignment, AlignmentOutput, AlignmentView};
use vstd::multiset::Multiset;
use vstd::prelude::*;

verus! {

/// The kind of a link, by which a listing may select.
#[derive(Clone, Copy, Debug, PartialEq, Eq, Structural)]
pub enum LinkTag {
    /// A link of the flat registry.
    Untagged,
    /// A link from a hierarchical anchor to a record.
    Record,
}

/// A directed, tagged edge from an anchor to a record's address.
pub struct Link {
    pub base: Vec<String>,
    pub target: String,
    pub tag: LinkTag,
}

/// The value of a link: base path, target address, tag.
pub type LinkView = (Seq<Seq<char>>, Seq<char>, LinkTag);

/// An entry as stored: its address and its content.
pub type EntryView = (Seq<char>, AlignmentView);

/// The value of a store.
pub struct StoreView {
    /// Committed records, in order of first commit.
    pub entries: Seq<EntryView>,
    /// Materialised anchors, in order of first materialisation.
    pub anchors: Seq<Seq<Seq<char>>>,
    /// Every link ever made, in order.
    pub links: Seq<LinkView>,
}

/// A content-addressed store of records, anchors and links. An anchor's address is
/// its own path; a record's address is the content hash it was committed under.
pub struct Store {
    entries: Vec<(String, Alignment)>,
    anchors: Vec<Vec<String>>,
    links: Vec<Link>,
}

impl View for Store {
    type V = StoreView;

    closed spec fn view(&self) -> StoreView {
        StoreView {
            entries: self.entries@.map_values(|e: (String, Alignment)| (e.0@, e.1@)),
            anchors: self.anchors@.map_values(|p: Vec<String>| path_view(p@)),
            links: self.links@.map_values(|l: Link| (path_view(l.base@), l.target@, l.tag)),
        }
    }
}

/// The record stored under an address, if any.
pub open spec fn lookup(entries: Seq<EntryView>, address: Seq<char>) -> Option<AlignmentView>
    decreases entries.len(),
{
    if entries.len() == 0 {
        None
    } else if entries.last().0 == address {
        Some(entries.last().1)
    } else {
        lookup(entries.drop_last(), address)
    }
}

/// Whether a link's tag passes a filter; no filter passes every tag.
pub open spec fn tag_passes(tag: LinkTag, filter: Option<LinkTag>) -> bool {
    match filter {
        Some(t) => t == tag,
        None => true,
    }
}

/// The targets of the links from `base` whose tag passes the filter, in link order.
pub open spec fn list_spec(links: Seq<LinkView>, base: Seq<Seq<char>>, filter: Option<LinkTag>) -> Seq<
    Seq<char>,
>
    decreases links.len(),
{
    if links.len() == 0 {
        seq![]
    } else {
        let rest = list_spec(links.drop_last(), base, filter);
        let l = links.last();
        if l.0 == base && tag_passes(l.2, filter) {
            rest.push(l.1)
        } else {
            rest
        }
    }
}

/// The store after materialising the anchor of a path: unchanged when it exists.
pub open spec fn ensure_spec(s: StoreView, path: Seq<Seq<char>>) -> StoreView {
    if s.anchors.contains(path) {
        s
    } else {
        StoreView { anchors: s.anchors.push(path), ..s }
    }
}

/// The store after appending a link.
pub open spec fn link_spec(
    s: StoreView,
    base: Seq<Seq<char>>,
    target: Seq<char>,
    tag: LinkTag,
) -> StoreView {
    StoreView { links: s.links.push((base, target, tag)), ..s }
}

/// The store after committing a record under its address: unchanged when that
/// address is already taken.
pub open spec fn commit_spec(s: StoreView, address: Seq<char>, record: AlignmentView) -> StoreView {
    if lookup(s.entries, address) is Some {
        s
    } else {
        StoreView { entries: s.entries.push((address, record)), ..s }
    }
}

/// What a fetch of one address gives: the address with its record, if stored.
pub open spec fn fetch_spec(entries: Seq<EntryView>, address: Seq<char>) -> Option<EntryView> {
    match lookup(entries, address) {
        Some(r) => Some((address, r)),
        None => None,
    }
}

/// The value of a fetch result.
pub open spec fn fetched_view(o: Option<AlignmentOutput>) -> Option<EntryView> {
    match o {
        Some(x) => Some(x@),
        None => None,
    }
}

/// Whether two paths have the same components.
pub fn same_path(a: &Vec<String>, b: &Vec<String>) -> (r: bool)
    ensures
        r == (path_view(a@) == path_view(b@)),
{
    if a.len() != b.len() {
        proof {
            assert(path_view(a@).len() != path_view(b@).len());
        }
        return false;
    }
    let mut i: usize = 0;
    while i < a.len()
        invariant
            a@.len() == b@.len(),
            i <= a@.len(),
            forall|j: int| 0 <= j < i ==> a@[j]@ == b@[j]@,
        decreases a@.len() - i,
    {
        if a[i] != b[i] {
            proof {
                assert(path_view(a@)[i as int] != path_view(b@)[i as int]);
            }
            return false;
        }
        i = i + 1;
    }
    assert(path_view(a@) =~= path_view(b@));
    true
}

impl Store {
    /// An empty store.
    pub fn new() -> (r: Store)
        ensures
            r@.entries == Seq::<EntryView>::empty(),
            r@.anchors == Seq::<Seq<Seq<char>>>::empty(),
            r@.links == Seq::<LinkView>::empty(),
    {
        let r = Store { entries: Vec::new(), anchors: Vec::new(), links: Vec::new() };
        assert(r@.entries =~= Seq::<EntryView>::empty());
        assert(r@.anchors =~= Seq::<Seq<Seq<char>>>::empty());
        assert(r@.links =~= Seq::<LinkView>::empty());
        r
    }

    /// How many links the store holds.
    pub fn link_count(&self) -> (r: usize)
        ensures
            r == self@.links.len(),
    {
        self.links.len()
    }

    /// Whether the anchor of a path has been materialised.
    pub fn has_anchor(&self, path: &Vec<String>) -> (r: bool)
        ensures
            r == self@.anchors.contains(path_view(path@)),
    {
        let mut i: usize = 0;
        while i < self.anchors.len()
            invariant
                i <= self.anchors@.len(),
                forall|j: int| 0 <= j < i ==> self@.anchors[j] != path_view(path@),
            decreases self.anchors@.len() - i,
        {
            assert(self@.anchors[i as int] == path_view(self.anchors@[i as int]@));
            if same_path(&self.anchors[i], path) {
                return true;
            }
            i = i + 1;
        }
        false
    }

    /// Materialises the anchor of a path, once, and returns its address (the path).
    pub fn ensure(&mut self, path: &Vec<String>) -> (r: Vec<String>)
        ensures
            final(self)@ == ensure_spec(old(self)@, path_view(path@)),
            path_view(r@) == path_view(path@),
    {
        let ghost p = path_view(path@);
        if self.has_anchor(path) {
            return crate::record::copy_strings(path);
        }
        assert(!self@.anchors.contains(p));
        let ghost before = self@;
        self.anchors.push(crate::record::copy_strings(path));
        assert(self@.anchors =~= before.anchors.push(p));
        assert(self@ == ensure_spec(before, p));
        crate::record::copy_strings(path)
    }

    /// Appends a link from `base` to `target`; links are never merged. Returns the
    /// new link's position.
    pub fn link(&mut self, base: &Vec<String>, target: &String, tag: LinkTag) -> (r: usize)
        requires
            old(self)@.links.len() < usize::MAX,
        ensures
            final(self)@ == link_spec(old(self)@, path_view(base@), target@, tag),
            r == old(self)@.links.len(),
    {
        let ghost before = self@;
        let r = self.links.len();
        self.links.push(Link { base: crate::record::copy_strings(base), target: target.clone(), tag });
        assert(self@.links =~= before.links.push((path_view(base@), target@, tag)));
        assert(self@ == link_spec(before, path_view(base@), target@, tag));
        r
    }

    /// The targets of the links from `base` whose tag passes the filter, in link order.
    pub fn list(&self, base: &Vec<String>, filter: Option<LinkTag>) -> (r: Vec<String>)
        ensures
            strs(r@) == list_spec(self@.links, path_view(base@), filter),
    {
        let ghost ls = self@.links;
        let mut r: Vec<String> = Vec::new();
        let mut i: usize = 0;
        while i < self.links.len()
            invariant
                i <= self.links@.len(),
                ls == self@.links,
                strs(r@) == list_spec(ls.take(i as int), path_view(base@), filter),
            decreases self.links@.len() - i,
        {
            let l = &self.links[i];
            assert(ls.take(i as int + 1).drop_last() =~= ls.take(i as int));
            let passes = match filter {
                Some(t) => t == l.tag,
                None => true,
            };
            if passes && same_path(&l.base, base) {
                let ghost before = r@;
                r.push(l.target.clone());
                assert(strs(r@) =~= strs(before).push(l.target@));
            }
            i = i + 1;
        }
        assert(ls.take(ls.len() as int) =~= ls);
        r
    }

    /// Commits a record under its content address; a second commit under a taken
    /// address stores nothing. Returns the address.
    pub fn commit(&mut self, address: String, record: Alignment) -> (r: String)
        ensures
            final(self)@ == commit_spec(old(self)@, address@, record@),
            r@ == address@,
    {
        if self.get(&address).is_some() {
            return address;
        }
        let ghost before = self@;
        let a = address.clone();
        self.entries.push((address, record));
        assert(self@.entries =~= before.entries.push((a@, record@)));
        a
    }

    /// The record stored under an address.
    pub fn get(&self, address: &String) -> (r: Option<&Alignment>)
        ensures
            match r {
                Some(x) => lookup(self@.entries, address@) == Some(x@),
                None => lookup(self@.entries, address@) is None,
            },
    {
        let ghost es = self@.entries;
        let mut i: usize = self.entries.len();
        assert(es.take(i as int) =~= es);
        while i > 0
            invariant
                i <= self.entries@.len(),
                es == self@.entries,
                lookup(es, address@) == lookup(es.take(i as int), address@),
            decreases i,
        {
            assert(es.take(i as int).drop_last() =~= es.take(i as int - 1));
            if self.entries[i - 1].0 == *address {
                return Some(&self.entries[i - 1].1);
            }
            i = i - 1;
        }
        assert(es.take(0) =~= Seq::<EntryView>::empty());
        None
    }

    /// Fetches several addresses in one pass: for each, the address with a copy of
    /// its record, or nothing.
    pub fn get_many(&self, addresses: &Vec<String>) -> (r: Vec<Option<AlignmentOutput>>)
        ensures
            r@.len() == addresses@.len(),
            forall|i: int|
                0 <= i < addresses@.len() ==> #[trigger] fetched_view(r@[i])
                    == fetch_spec(self@.entries, addresses@[i]@),
    {
        let mut r: Vec<Option<AlignmentOutput>> = Vec::new();
        let mut i: usize = 0;
        while i < addresses.len()
            invariant
                i <= addresses@.len(),
                r@.len() == i,
                forall|j: int|
                    0 <= j < i ==> #[trigger] fetched_view(r@[j]) == fetch_spec(
                        self@.entries,
                        addresses@[j]@,
                    ),
            decreases addresses@.len() - i,
        {
            let found = match self.get(&addresses[i]) {
                Some(x) => Some(AlignmentOutput { hash: addresses[i].clone(), content: x.copy() }),
                None => None,
            };
            r.push(found);
            i = i + 1;
        }
        r
    }
}

/// Materialising an anchor twice is the same as materialising it once, and the
/// anchor then exists: no second copy of it is ever made.
pub proof fn lemma_ensure_idempotent(s: StoreView, path: Seq<Seq<char>>)
    ensures
        ensure_spec(ensure_spec(s, path), path) == ensure_spec(s, path),
        ensure_spec(s, path).anchors.contains(path),
        ensure_spec(s, path).anchors.len() <= s.anchors.len() + 1,
{
    if !s.anchors.contains(path) {
        assert(s.anchors.push(path)[s.anchors.len() as int] == path);
    }
}

/// Linking two targets from one base, in either order, adds exactly those two
/// targets to the multiset listed from that base; from a base with no links the
/// listing is then exactly {t1, t2}.
pub proof fn lemma_link_order_independent(
    s: StoreView,
    base: Seq<Seq<char>>,
    t1: Seq<char>,
    t2: Seq<char>,
    tag: LinkTag,
)
    ensures
        list_spec(link_spec(link_spec(s, base, t1, tag), base, t2, tag).links, base, None).to_multiset()
            == list_spec(s.links, base, None).to_multiset().insert(t1).insert(t2),
        list_spec(link_spec(link_spec(s, base, t1, tag), base, t2, tag).links, base, None).to_multiset()
            == list_spec(link_spec(link_spec(s, base, t2, tag), base, t1, tag).links, base, None).to_multiset(),
        list_spec(s.links, base, None).len() == 0 ==> list_spec(
            link_spec(link_spec(s, base, t1, tag), base, t2, tag).links,
            base,
            None,
        ).to_multiset() == Multiset::empty().insert(t1).insert(t2),
{
    broadcast use vstd::seq_lib::group_to_multiset_ensures;

    let l0 = list_spec(s.links, base, None);
    let a = link_spec(link_spec(s, base, t1, tag), base, t2, tag).links;
    let b = link_spec(link_spec(s, base, t2, tag), base, t1, tag).links;
    let a1 = link_spec(s, base, t1, tag).links;
    let b1 = link_spec(s, base, t2, tag).links;
    assert(a.drop_last() =~= a1);
    assert(b.drop_last() =~= b1);
    assert(a1.drop_last() =~= s.links);
    assert(b1.drop_last() =~= s.links);
    assert(list_spec(a1, base, None) == l0.push(t1));
    assert(list_spec(b1, base, None) == l0.push(t2));
    assert(list_spec(a, base, None) == l0.push(t1).push(t2));
    assert(list_spec(b, base, None) == l0.push(t2).push(t1));
    assert(l0.to_multiset().insert(t1).insert(t2) =~= l0.to_multiset().insert(t2).insert(t1));
    if l0.len() == 0 {
        assert(l0 =~= Seq::<Seq<char>>::empty());
    }
}

/// Committing a record and reading its address back gives the record, provided the
/// address holds nothing else (as a content address of the record cannot).
pub proof fn lemma_commit_round_trip(s: StoreView, address: Seq<char>, record: AlignmentView)
    requires
        lookup(s.entries, address) is None || lookup(s.entries, address) == Some(record),
    ensures
        lookup(commit_spec(s, address, record).entries, address) == Some(record),
{
    if lookup(s.entries, address) is None {
        assert(s.entries.push((address, record)).drop_last() =~= s.entries);
    }
}

} // verus!
