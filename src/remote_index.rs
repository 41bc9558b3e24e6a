//! The remote catalog's known files, keyed by exact size, and the
//! classification of a local file against it.
use std::collections::HashMap;
use vstd::prelude::*;
use crate::file_traversal::strings_view;
use crate::text::chars_of;

verus! {

broadcast use vstd::std_specs::hash::group_hash_axioms;

/// Whether a file is already in the remote catalog.
#[derive(Debug, PartialEq, Eq, Structural, Clone, Copy)]
pub enum DedupClass {
    New,
    Duplicate,
}

/// For each file size, the fingerprints that the remote catalog holds of files
/// of exactly that size.
pub struct RemoteIndex {
    pub buckets: HashMap<u64, Vec<String>>,
}

impl View for RemoteIndex {
    type V = Map<u64, Seq<Seq<char>>>;

    open spec fn view(&self) -> Map<u64, Seq<Seq<char>>> {
        self.buckets@.map_values(|v: Vec<String>| strings_view(v@))
    }
}

/// Whether the catalog holds a file of this size with this fingerprint.
pub open spec fn known(index: Map<u64, Seq<Seq<char>>>, size: u64, fingerprint: Seq<char>) -> bool {
    index.contains_key(size) && index[size].contains(fingerprint)
}

/// The classification of a file of `size` bytes with `fingerprint`.
pub open spec fn class_of(index: Map<u64, Seq<Seq<char>>>, size: u64, fingerprint: Seq<char>) -> DedupClass {
    if known(index, size, fingerprint) {
        DedupClass::Duplicate
    } else {
        DedupClass::New
    }
}

/// An index with one more fingerprint in the bucket of `size`.
pub open spec fn with_fingerprint(
    index: Map<u64, Seq<Seq<char>>>,
    size: u64,
    fingerprint: Seq<char>,
) -> Map<u64, Seq<Seq<char>>> {
    if index.contains_key(size) {
        index.insert(size, index[size].push(fingerprint))
    } else {
        index.insert(size, seq![fingerprint])
    }
}

pub open spec fn is_digit(c: char) -> bool {
    '0' <= c && c <= '9'
}

pub open spec fn digit_value(c: char) -> nat {
    if is_digit(c) {
        (c as u32 - 48) as nat
    } else {
        0
    }
}

/// The value of a string of decimal digits.
pub open spec fn digits_value(s: Seq<char>) -> nat
    decreases s.len(),
{
    if s.len() == 0 {
        0
    } else {
        digits_value(s.drop_last()) * 10 + digit_value(s.last())
    }
}

/// The digits of an unsigned number in text: an optional leading `+` is dropped.
pub open spec fn unsigned_digits(s: Seq<char>) -> Seq<char> {
    if s.len() > 0 && s[0] == '+' {
        s.drop_first()
    } else {
        s
    }
}

/// The `u64` written in decimal in `s`: one or more digits after an optional
/// `+`, of a value that fits.
pub open spec fn parsed_u64(s: Seq<char>) -> Option<u64> {
    let d = unsigned_digits(s);
    if d.len() > 0 && (forall|i: int| 0 <= i < d.len() ==> is_digit(#[trigger] d[i]))
        && digits_value(d) <= u64::MAX {
        Some(digits_value(d) as u64)
    } else {
        None
    }
}

pub proof fn lemma_digits_value_prefix(s: Seq<char>, j: int)
    requires
        0 <= j <= s.len(),
    ensures
        digits_value(s.subrange(0, j)) <= digits_value(s),
    decreases s.len() - j,
{
    if j < s.len() {
        lemma_digits_value_prefix(s, j + 1);
        assert(s.subrange(0, j + 1).drop_last() =~= s.subrange(0, j));
    } else {
        assert(s.subrange(0, j) =~= s);
    }
}

/// Reads an unsigned decimal number as `str::parse::<u64>` does.
pub fn parse_u64(s: &str) -> (r: Option<u64>)
    ensures
        r == parsed_u64(s@),
{
    let cs = chars_of(s);
    let start: usize = if cs.len() > 0 && cs[0] == '+' {
        1
    } else {
        0
    };
    let ghost d = unsigned_digits(cs@);
    assert(d =~= cs@.subrange(start as int, cs@.len() as int));
    if start >= cs.len() {
        return None;
    }
    let mut value: u64 = 0;
    let mut i: usize = start;
    while i < cs.len()
        invariant
            start <= i <= cs@.len(),
            cs@ == s@,
            d == unsigned_digits(s@),
            d == cs@.subrange(start as int, cs@.len() as int),
            forall|k: int| 0 <= k < i - start ==> is_digit(#[trigger] d[k]),
            value as nat == digits_value(d.subrange(0, i - start)),
        decreases cs@.len() - i,
    {
        let c = cs[i];
        if !('0' <= c && c <= '9') {
            assert(!is_digit(d[i - start]));
            return None;
        }
        let digit = (c as u32 - 48) as u64;
        assert(d.subrange(0, i - start + 1).drop_last() =~= d.subrange(0, i - start));
        assert(d[i - start] == c);
        if value > (u64::MAX - digit) / 10 {
            assert(value * 10 + digit > u64::MAX) by (nonlinear_arith)
                requires
                    value > (u64::MAX - digit) / 10,
                    digit <= 9,
            ;
            proof {
                lemma_digits_value_prefix(d, i - start + 1);
            }
            return None;
        }
        assert(value * 10 + digit <= u64::MAX) by (nonlinear_arith)
            requires
                value <= (u64::MAX - digit) / 10,
                digit <= 9,
        ;
        value = value * 10 + digit;
        i = i + 1;
    }
    assert(d.subrange(0, d.len() as int) =~= d);
    Some(value)
}

impl RemoteIndex {
    pub fn new() -> (r: RemoteIndex)
        ensures
            r@ == Map::<u64, Seq<Seq<char>>>::empty(),
    {
        let r = RemoteIndex { buckets: HashMap::new() };
        assert(r@ =~= Map::<u64, Seq<Seq<char>>>::empty());
        r
    }

    /// Adds a fingerprint to the bucket of `size`.
    pub fn insert(&mut self, size: u64, fingerprint: String)
        ensures
            final(self)@ == with_fingerprint(old(self)@, size, fingerprint@),
    {
        let ghost fp = fingerprint@;
        match self.buckets.remove(&size) {
            Some(mut bucket) => {
                let ghost before = bucket@;
                bucket.push(fingerprint);
                self.buckets.insert(size, bucket);
                assert(strings_view(bucket@) =~= strings_view(before).push(fp));
            },
            None => {
                let bucket = vec![fingerprint];
                self.buckets.insert(size, bucket);
                assert(strings_view(bucket@) =~= seq![fp]);
            },
        }
        assert(self@ =~= with_fingerprint(old(self)@, size, fp));
    }

    /// Whether the catalog holds any file of exactly this size.
    pub fn contains_size(&self, size: u64) -> (r: bool)
        ensures
            r == self@.contains_key(size),
    {
        self.buckets.contains_key(&size)
    }

    /// The number of distinct sizes in the catalog.
    pub fn size_count(&self) -> (r: usize)
        ensures
            r == self@.dom().len(),
    {
        assert(self@.dom() =~= self.buckets@.dom());
        self.buckets.len()
    }

    /// Classifies a file of `size` bytes whose fingerprint is `fingerprint`: a
    /// duplicate exactly when the bucket of its size holds that fingerprint.
    /// With no bucket for the size, the file is new whatever its content.
    pub fn classify(&self, size: u64, fingerprint: &String) -> (r: DedupClass)
        ensures
            r == class_of(self@, size, fingerprint@),
            !self@.contains_key(size) ==> r == DedupClass::New,
            known(self@, size, fingerprint@) ==> r == DedupClass::Duplicate,
    {
        match self.buckets.get(&size) {
            None => DedupClass::New,
            Some(bucket) => {
                assert(self.buckets@.contains_key(size));
                assert(self.buckets@[size] == *bucket);
                assert(self@.contains_key(size));
                let mut i: usize = 0;
                while i < bucket.len()
                    invariant
                        i <= bucket@.len(),
                        self@.contains_key(size),
                        self@[size] == strings_view(bucket@),
                        forall|j: int| 0 <= j < i ==> bucket@[j]@ != fingerprint@,
                    decreases bucket@.len() - i,
                {
                    if bucket[i] == *fingerprint {
                        assert(strings_view(bucket@)[i as int] == fingerprint@);
                        return DedupClass::Duplicate;
                    }
                    i = i + 1;
                }
                assert forall|j: int| 0 <= j < strings_view(bucket@).len() implies strings_view(
                    bucket@,
                )[j] != fingerprint@ by {
                    assert(bucket@[j]@ != fingerprint@);
                }
                DedupClass::New
            },
        }
    }

    /// The index of the catalog's `(size, fingerprint)` rows. A row with a
    /// missing field, or whose size is not an unsigned decimal number, is left out.
    pub fn from_rows(rows: &Vec<(Option<String>, Option<String>)>) -> (r: RemoteIndex)
        ensures
            r@ == rows_index(rows@),
    {
        let mut index = RemoteIndex::new();
        let mut i: usize = 0;
        while i < rows.len()
            invariant
                i <= rows@.len(),
                index@ == rows_index(rows@.subrange(0, i as int)),
            decreases rows@.len() - i,
        {
            assert(rows@.subrange(0, i + 1).drop_last() =~= rows@.subrange(0, i as int));
            let (size_text, hash) = &rows[i];
            match (size_text, hash) {
                (Some(size_text), Some(hash)) => {
                    match parse_u64(size_text.as_str()) {
                        Some(size) => {
                            index.insert(size, hash.clone());
                        },
                        None => {},
                    }
                },
                _ => {},
            }
            i = i + 1;
        }
        assert(rows@.subrange(0, rows@.len() as int) =~= rows@);
        index
    }
}

/// The index that a sequence of catalog rows builds, one row after another.
pub open spec fn rows_index(rows: Seq<(Option<String>, Option<String>)>) -> Map<u64, Seq<Seq<char>>>
    decreases rows.len(),
{
    if rows.len() == 0 {
        Map::empty()
    } else {
        let before = rows_index(rows.drop_last());
        match rows.last() {
            (Some(size_text), Some(hash)) => match parsed_u64(size_text@) {
                Some(size) => with_fingerprint(before, size, hash@),
                None => before,
            },
            _ => before,
        }
    }
}

} // verus!
