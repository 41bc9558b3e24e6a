//! Character-level helpers shared by the path, fingerprint and index logic.
use vstd::prelude::*;

verus! {

/// What `str::to_lowercase` makes of a string (full Unicode case mapping).
pub uninterp spec fn lower_of(s: Seq<char>) -> Seq<char>;

/// What `str::to_uppercase` makes of a string (full Unicode case mapping).
pub uninterp spec fn upper_of(s: Seq<char>) -> Seq<char>;

/// Relies on `str::chars`: the characters of the string, in order.
#[verifier::external_body]
pub(crate) fn chars_of(s: &str) -> (r: Vec<char>)
    ensures
        r@ == s@,
{
    s.chars().collect()
}

/// Relies on `String::from_iter`: a string made of exactly these characters.
#[verifier::external_body]
pub(crate) fn string_of(cs: &Vec<char>) -> (r: String)
    ensures
        r@ == cs@,
{
    cs.iter().collect()
}

/// Relies on `str::to_lowercase`; the result depends on the characters alone.
#[verifier::external_body]
pub(crate) fn lowercase(s: &str) -> (r: String)
    ensures
        r@ == lower_of(s@),
{
    s.to_lowercase()
}

/// Relies on `str::to_uppercase`; the result depends on the characters alone.
#[verifier::external_body]
pub(crate) fn uppercase(s: &str) -> (r: String)
    ensures
        r@ == upper_of(s@),
{
    s.to_uppercase()
}

/// Index of the last occurrence of `c` in `s`, or -1 when there is none.
pub open spec fn last_index_of(s: Seq<char>, c: char) -> int
    decreases s.len(),
{
    if s.len() == 0 {
        -1
    } else if s.last() == c {
        s.len() - 1
    } else {
        last_index_of(s.drop_last(), c)
    }
}

pub proof fn lemma_last_index_of_bounds(s: Seq<char>, c: char)
    ensures
        -1 <= last_index_of(s, c) < s.len(),
        last_index_of(s, c) >= 0 ==> s[last_index_of(s, c)] == c,
        forall|j: int| last_index_of(s, c) < j < s.len() ==> s[j] != c,
    decreases s.len(),
{
    if s.len() > 0 && s.last() != c {
        lemma_last_index_of_bounds(s.drop_last(), c);
        assert forall|j: int| last_index_of(s, c) < j < s.len() implies s[j] != c by {
            if j < s.len() - 1 {
                assert(s.drop_last()[j] == s[j]);
            }
        }
    }
}

/// Finds the last occurrence of `c` in `s`.
pub fn find_last(s: &Vec<char>, c: char) -> (r: Option<usize>)
    ensures
        match r {
            Some(i) => i as int == last_index_of(s@, c),
            None => last_index_of(s@, c) == -1,
        },
{
    let mut i: usize = s.len();
    assert(s@.subrange(0, i as int) =~= s@);
    while i > 0
        invariant
            i <= s@.len(),
            last_index_of(s@, c) == last_index_of(s@.subrange(0, i as int), c),
        decreases i,
    {
        if s[i - 1] == c {
            return Some(i - 1);
        }
        assert(s@.subrange(0, i as int).drop_last() =~= s@.subrange(0, i - 1));
        i = i - 1;
    }
    None
}

/// Copies `s[from..to]` into a new vector.
pub fn slice_chars(s: &Vec<char>, from: usize, to: usize) -> (r: Vec<char>)
    requires
        from <= to <= s@.len(),
    ensures
        r@ == s@.subrange(from as int, to as int),
{
    let mut r: Vec<char> = Vec::new();
    let mut i: usize = from;
    while i < to
        invariant
            from <= i <= to <= s@.len(),
            r@ == s@.subrange(from as int, i as int),
        decreases to - i,
    {
        r.push(s[i]);
        assert(r@ =~= s@.subrange(from as int, i + 1));
        i = i + 1;
    }
    r
}

/// ASCII lower-casing of one character; every other character is kept.
pub open spec fn ascii_lower(c: char) -> char {
    if 'A' <= c && c <= 'Z' {
        ((c as u8) + 32) as char
    } else {
        c
    }
}

/// ASCII lower-casing of a whole sequence.
pub open spec fn ascii_lower_seq(s: Seq<char>) -> Seq<char> {
    s.map_values(|c: char| ascii_lower(c))
}

pub fn ascii_lower_char(c: char) -> (r: char)
    ensures
        r == ascii_lower(c),
{
    if 'A' <= c && c <= 'Z' {
        ((c as u8) + 32) as char
    } else {
        c
    }
}

pub fn ascii_lower_chars(s: &Vec<char>) -> (r: Vec<char>)
    ensures
        r@ == ascii_lower_seq(s@),
{
    let mut r: Vec<char> = Vec::new();
    let mut i: usize = 0;
    while i < s.len()
        invariant
            i <= s@.len(),
            r@ == ascii_lower_seq(s@.subrange(0, i as int)),
        decreases s@.len() - i,
    {
        r.push(ascii_lower_char(s[i]));
        assert(r@ =~= ascii_lower_seq(s@.subrange(0, i + 1)));
        i = i + 1;
    }
    assert(s@.subrange(0, s@.len() as int) =~= s@);
    r
}

/// Decimal digit values of `n`, most significant first, without leading zeros.
pub open spec fn digits_of(n: nat) -> Seq<nat>
    decreases n,
{
    if n < 10 {
        seq![n]
    } else {
        digits_of(n / 10).push(n % 10)
    }
}

/// The character that writes the digit `d`.
pub open spec fn digit_char(d: nat) -> char {
    seq!['0', '1', '2', '3', '4', '5', '6', '7', '8', '9'][d as int]
}

/// `n` written in decimal, as characters.
pub open spec fn decimal_chars(n: nat) -> Seq<char> {
    digits_of(n).map_values(|d: nat| digit_char(d))
}

/// `n` written in decimal, as ASCII bytes.
pub open spec fn decimal_bytes(n: nat) -> Seq<u8> {
    digits_of(n).map_values(|d: nat| (d + 48) as u8)
}

pub proof fn lemma_digits_below_ten(n: nat)
    ensures
        forall|i: int| 0 <= i < digits_of(n).len() ==> digits_of(n)[i] < 10,
    decreases n,
{
    if n >= 10 {
        lemma_digits_below_ten(n / 10);
        let d = digits_of(n / 10).push(n % 10);
        assert(digits_of(n) == d);
        assert forall|i: int| 0 <= i < d.len() implies d[i] < 10 by {
            if i < d.len() - 1 {
                assert(d[i] == digits_of(n / 10)[i]);
            }
        }
    }
}

/// The decimal digit values of `n`.
pub fn digits(n: u64) -> (r: Vec<u8>)
    ensures
        r@.len() == digits_of(n as nat).len(),
        forall|i: int| 0 <= i < r@.len() ==> r@[i] as nat == digits_of(n as nat)[i],
    decreases n,
{
    if n < 10 {
        let r = vec![n as u8];
        r
    } else {
        let mut r = digits(n / 10);
        r.push((n % 10) as u8);
        r
    }
}

fn digit_to_char(d: u8) -> (r: char)
    requires
        d < 10,
    ensures
        r == digit_char(d as nat),
{
    if d == 0 {
        '0'
    } else if d == 1 {
        '1'
    } else if d == 2 {
        '2'
    } else if d == 3 {
        '3'
    } else if d == 4 {
        '4'
    } else if d == 5 {
        '5'
    } else if d == 6 {
        '6'
    } else if d == 7 {
        '7'
    } else if d == 8 {
        '8'
    } else {
        '9'
    }
}

/// `n` written in decimal, as characters.
pub fn decimal_string(n: u64) -> (r: Vec<char>)
    ensures
        r@ == decimal_chars(n as nat),
{
    let d = digits(n);
    proof {
        lemma_digits_below_ten(n as nat);
    }
    let mut r: Vec<char> = Vec::new();
    let mut i: usize = 0;
    while i < d.len()
        invariant
            i <= d@.len(),
            d@.len() == digits_of(n as nat).len(),
            forall|j: int| 0 <= j < d@.len() ==> d@[j] as nat == digits_of(n as nat)[j],
            forall|j: int| 0 <= j < digits_of(n as nat).len() ==> digits_of(n as nat)[j] < 10,
            r@ =~= decimal_chars(n as nat).subrange(0, i as int),
        decreases d@.len() - i,
    {
        r.push(digit_to_char(d[i]));
        i = i + 1;
    }
    r
}

/// `n` written in decimal, as ASCII bytes.
pub fn decimal_ascii(n: u64) -> (r: Vec<u8>)
    ensures
        r@ == decimal_bytes(n as nat),
{
    let d = digits(n);
    proof {
        lemma_digits_below_ten(n as nat);
    }
    let mut r: Vec<u8> = Vec::new();
    let mut i: usize = 0;
    while i < d.len()
        invariant
            i <= d@.len(),
            d@.len() == digits_of(n as nat).len(),
            forall|j: int| 0 <= j < d@.len() ==> d@[j] as nat == digits_of(n as nat)[j],
            forall|j: int| 0 <= j < digits_of(n as nat).len() ==> digits_of(n as nat)[j] < 10,
            r@ =~= decimal_bytes(n as nat).subrange(0, i as int),
        decreases d@.len() - i,
    {
        r.push(d[i] + 48);
        i = i + 1;
    }
    r
}

} // verus!
