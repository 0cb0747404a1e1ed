use std::collections::BTreeMap;
use vstd::prelude::*;

verus! {

/// The longest path abbreviation a record may carry, in characters.
pub const MAX_ABBREVIATION: usize = 10;

/// The longest short name a record may carry, in characters.
pub const MAX_SHORT_NAME: usize = 25;

/// Views a sequence of strings as a sequence of character sequences.
pub open spec fn strs(v: Seq<String>) -> Seq<Seq<char>> {
    v.map_values(|s: String| s@)
}

/// Views a sequence of string pairs as pairs of character sequences.
pub open spec fn str_pairs(v: Seq<(String, String)>) -> Seq<(Seq<char>, Seq<char>)> {
    v.map_values(|p: (String, String)| (p.0@, p.1@))
}

/// An alignment record: immutable once committed, indexed under one path per parent.
#[derive(Clone)]
pub struct Alignment {
    /// Full dotted paths of the parent nodes; a record may have several (a DAG).
    pub parents: Vec<String>,
    /// Leaf component of the record's own paths; at most ten characters.
    pub path_abbreviation: String,
    /// Display name; at most twenty-five characters.
    pub short_name: String,
    pub title: String,
    pub summary: String,
    /// Identity keys (base64) of those who may edit; empty means anyone.
    pub stewards: Vec<String>,
    /// Index of the current process in `processes`.
    pub status: i8,
    /// (process type, process name) pairs.
    pub processes: Vec<(String, String)>,
    /// Version label to the address of the superseded record.
    pub history: BTreeMap<String, String>,
    pub meta: BTreeMap<String, String>,
}

/// The mathematical value of an [`Alignment`].
pub struct AlignmentView {
    pub parents: Seq<Seq<char>>,
    pub path_abbreviation: Seq<char>,
    pub short_name: Seq<char>,
    pub title: Seq<char>,
    pub summary: Seq<char>,
    pub stewards: Seq<Seq<char>>,
    pub status: i8,
    pub processes: Seq<(Seq<char>, Seq<char>)>,
    pub history: Map<String, String>,
    pub meta: Map<String, String>,
}

impl View for Alignment {
    type V = AlignmentView;

    open spec fn view(&self) -> AlignmentView {
        AlignmentView {
            parents: strs(self.parents@),
            path_abbreviation: self.path_abbreviation@,
            short_name: self.short_name@,
            title: self.title@,
            summary: self.summary@,
            stewards: strs(self.stewards@),
            status: self.status,
            processes: str_pairs(self.processes@),
            history: self.history@,
            meta: self.meta@,
        }
    }
}

/// Why a record was refused before anything was stored.
#[derive(Clone, Copy, Debug, PartialEq, Eq, Structural)]
pub enum ValidationError {
    /// The path abbreviation is longer than ten characters.
    AbbreviationTooLong,
    /// The short name is longer than twenty-five characters.
    ShortNameTooLong,
    /// Neither a parent nor an abbreviation: the record's only path would be the bare root.
    AmbiguousRootPath,
}

/// What validation of a record gives, in order of the checks.
pub open spec fn validation_spec(a: AlignmentView) -> Result<(), ValidationError> {
    if a.path_abbreviation.len() > MAX_ABBREVIATION {
        Err(ValidationError::AbbreviationTooLong)
    } else if a.short_name.len() > MAX_SHORT_NAME {
        Err(ValidationError::ShortNameTooLong)
    } else if a.parents.len() == 0 && a.path_abbreviation.len() == 0 {
        Err(ValidationError::AmbiguousRootPath)
    } else {
        Ok(())
    }
}

/// Copies a vector of strings.
pub fn copy_strings(v: &Vec<String>) -> (r: Vec<String>)
    ensures
        strs(r@) == strs(v@),
{
    let mut r: Vec<String> = Vec::new();
    let mut i: usize = 0;
    while i < v.len()
        invariant
            i <= v@.len(),
            strs(r@) == strs(v@.take(i as int)),
        decreases v@.len() - i,
    {
        r.push(v[i].clone());
        i = i + 1;
        assert(strs(v@.take(i as int)) =~= strs(v@.take(i as int - 1)).push(v@[i as int - 1]@));
        assert(strs(r@) =~= strs(v@.take(i as int - 1)).push(v@[i as int - 1]@));
    }
    assert(v@.take(v@.len() as int) =~= v@);
    r
}

impl Alignment {
    /// Checks the length bounds and that the record has a path other than the bare root.
    pub fn validate(&self) -> (r: Result<(), ValidationError>)
        ensures
            r == validation_spec(self@),
    {
        if self.path_abbreviation.as_str().unicode_len() > MAX_ABBREVIATION {
            Err(ValidationError::AbbreviationTooLong)
        } else if self.short_name.as_str().unicode_len() > MAX_SHORT_NAME {
            Err(ValidationError::ShortNameTooLong)
        } else if self.parents.len() == 0 && self.path_abbreviation.as_str().unicode_len() == 0 {
            Err(ValidationError::AmbiguousRootPath)
        } else {
            Ok(())
        }
    }

    /// A copy with the same value.
    pub fn copy(&self) -> (r: Alignment)
        ensures
            r@ == self@,
    {
        let mut processes: Vec<(String, String)> = Vec::new();
        let mut i: usize = 0;
        while i < self.processes.len()
            invariant
                i <= self.processes@.len(),
                str_pairs(processes@) == str_pairs(self.processes@.take(i as int)),
            decreases self.processes@.len() - i,
        {
            let p = &self.processes[i];
            let q = (p.0.clone(), p.1.clone());
            assert((q.0@, q.1@) == (self.processes@[i as int].0@, self.processes@[i as int].1@));
            processes.push(q);
            i = i + 1;
            assert(str_pairs(self.processes@.take(i as int)) =~= str_pairs(
                self.processes@.take(i as int - 1),
            ).push((self.processes@[i as int - 1].0@, self.processes@[i as int - 1].1@)));
            assert(str_pairs(processes@) =~= str_pairs(self.processes@.take(i as int - 1)).push(
                (q.0@, q.1@),
            ));
        }
        assert(self.processes@.take(self.processes@.len() as int) =~= self.processes@);
        Alignment {
            parents: copy_strings(&self.parents),
            path_abbreviation: self.path_abbreviation.clone(),
            short_name: self.short_name.clone(),
            title: self.title.clone(),
            summary: self.summary.clone(),
            stewards: copy_strings(&self.stewards),
            status: self.status,
            processes,
            history: self.history.clone(),
            meta: self.meta.clone(),
        }
    }
}

/// A record as listed: its address and its content.
pub struct AlignmentOutput {
    pub hash: String,
    pub content: Alignment,
}

impl View for AlignmentOutput {
    type V = (Seq<char>, AlignmentView);

    open spec fn view(&self) -> (Seq<char>, AlignmentView) {
        (self.hash@, self.content@)
    }
}

} // verus!
