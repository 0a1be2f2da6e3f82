//! The records that extraction produces.
use vstd::prelude::*;

use crate::text::same_text;

verus! {

/// An ordered list of string keys and values; extraction never repeats a key
/// (see `laws::lemma_metadata_keys_distinct`).
pub struct Metadata {
    pub entries: Vec<(String, String)>,
}

impl View for Metadata {
    type V = Seq<(Seq<char>, Seq<char>)>;

    open spec fn view(&self) -> Seq<(Seq<char>, Seq<char>)> {
        self.entries@.map_values(|e: (String, String)| (e.0@, e.1@))
    }
}

/// The value of the first entry under `key`.
pub open spec fn lookup(entries: Seq<(Seq<char>, Seq<char>)>, key: Seq<char>) -> Option<Seq<char>>
    decreases entries.len(),
{
    if entries.len() == 0 {
        None
    } else if entries[0].0 == key {
        Some(entries[0].1)
    } else {
        lookup(entries.drop_first(), key)
    }
}

impl Metadata {
    pub fn new() -> (r: Self)
        ensures
            r@ == Seq::<(Seq<char>, Seq<char>)>::empty(),
    {
        let r = Metadata { entries: Vec::new() };
        assert(r@ =~= Seq::<(Seq<char>, Seq<char>)>::empty());
        r
    }

    /// Adds an entry at the end.
    pub fn append(&mut self, key: String, value: String)
        ensures
            final(self)@ == old(self)@.push((key@, value@)),
    {
        self.entries.push((key, value));
        assert(final(self)@ =~= old(self)@.push((key@, value@)));
    }

    pub fn len(&self) -> (r: usize)
        ensures
            r == self@.len(),
    {
        self.entries.len()
    }

    pub fn is_empty(&self) -> (r: bool)
        ensures
            r == (self@.len() == 0),
    {
        self.entries.len() == 0
    }

    /// The value stored under `key`.
    pub fn get(&self, key: &str) -> (r: Option<&String>)
        ensures
            match r {
                Some(v) => lookup(self@, key@) == Some(v@),
                None => lookup(self@, key@) is None,
            },
    {
        let n = self.entries.len();
        let mut k: usize = 0;
        assert(self@.subrange(0, n as int) =~= self@);
        while k < n
            invariant
                n == self@.len(),
                k <= n,
                lookup(self@, key@) == lookup(self@.subrange(k as int, n as int), key@),
            decreases n - k,
        {
            let ghost rest = self@.subrange(k as int, n as int);
            assert(rest[0] == self@[k as int]);
            if same_text(self.entries[k].0.as_str(), key) {
                return Some(&self.entries[k].1);
            }
            assert(rest.drop_first() =~= self@.subrange(k + 1, n as int));
            k += 1;
        }
        None
    }
}

/// Inclusive source lines, counted from one.
pub struct LineRange {
    pub start: usize,
    pub end: usize,
}

/// One named declaration found in a source file.
pub struct SemanticConcept {
    /// `php::<label>::<file>::<name>`; not guaranteed unique within a file.
    pub id: String,
    pub name: String,
    /// One of class, interface, trait, enum, function, method, property, constant, namespace.
    pub concept_type: String,
    /// Certainty of the record in percent: fixed, as it rests on syntax alone.
    pub confidence_percent: u32,
    pub file_path: String,
    pub line_range: LineRange,
    /// Links to other concepts; none are made here.
    pub relationships: Metadata,
    pub metadata: Metadata,
}

/// What a concept holds, as mathematical values.
pub struct ConceptView {
    pub id: Seq<char>,
    pub name: Seq<char>,
    pub concept_type: Seq<char>,
    pub confidence_percent: nat,
    pub file_path: Seq<char>,
    pub start_line: nat,
    pub end_line: nat,
    pub relationships: Seq<(Seq<char>, Seq<char>)>,
    pub metadata: Seq<(Seq<char>, Seq<char>)>,
}

impl View for SemanticConcept {
    type V = ConceptView;

    open spec fn view(&self) -> ConceptView {
        ConceptView {
            id: self.id@,
            name: self.name@,
            concept_type: self.concept_type@,
            confidence_percent: self.confidence_percent as nat,
            file_path: self.file_path@,
            start_line: self.line_range.start as nat,
            end_line: self.line_range.end as nat,
            relationships: self.relationships@,
            metadata: self.metadata@,
        }
    }
}

pub open spec fn concept_views(s: Seq<SemanticConcept>) -> Seq<ConceptView> {
    s.map_values(|c: SemanticConcept| c@)
}

/// A node whose name could not be read: extraction of that node stopped.
pub struct ParseError {
    pub file_path: String,
    /// Index of the node in its tree.
    pub node: usize,
}

pub open spec fn digit(d: nat) -> char {
    seq!['0', '1', '2', '3', '4', '5', '6', '7', '8', '9'][d as int]
}

/// The decimal numeral of `n`.
pub open spec fn decimal(n: nat) -> Seq<char>
    decreases n,
{
    if n < 10 {
        seq![digit(n)]
    } else {
        decimal(n / 10).push(digit(n % 10))
    }
}

fn digit_text(d: usize) -> (r: &'static str)
    requires
        d < 10,
    ensures
        r@ == seq![digit(d as nat)],
{
    let digits = "0123456789";
    proof {
        reveal_strlit("0123456789");
    }
    let r = digits.substring_char(d, d + 1);
    assert(r@ =~= seq![digit(d as nat)]);
    r
}

/// The decimal numeral of `n`.
pub fn decimal_text(n: usize) -> (r: String)
    ensures
        r@ == decimal(n as nat),
    decreases n,
{
    if n < 10 {
        String::from_str(digit_text(n))
    } else {
        let r = decimal_text(n / 10).concat(digit_text(n % 10));
        assert(r@ =~= decimal((n / 10) as nat).push(digit((n % 10) as nat)));
        r
    }
}

} // verus!
