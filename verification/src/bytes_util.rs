//! Byte-level helpers shared by the scanners, extractors and filters: exact
//! substring search, prefix tests and ASCII case folding, each specified over
//! `Seq<u8>`.

use vstd::prelude::*;
use vstd::string::StringSliceAdditionalSpecFns;

verus! {

/// The UTF-8 bytes of a string, as written in contracts about literals.
pub open spec fn sb(s: &str) -> Seq<u8> {
    s.spec_bytes()
}

/// The needle occurs in the haystack exactly at position `i`.
pub open spec fn match_at(hay: Seq<u8>, needle: Seq<u8>, i: int) -> bool {
    &&& 0 <= i
    &&& i + needle.len() <= hay.len()
    &&& hay.subrange(i, i + needle.len() as int) == needle
}

/// The needle occurs somewhere in the haystack.
pub open spec fn contains_seq(hay: Seq<u8>, needle: Seq<u8>) -> bool {
    exists|i: int| match_at(hay, needle, i)
}

/// `needle` is a prefix of `hay`.
pub open spec fn is_prefix_of(hay: Seq<u8>, needle: Seq<u8>) -> bool {
    needle.len() <= hay.len() && hay.subrange(0, needle.len() as int) == needle
}

/// ASCII lower-casing of one byte.
pub open spec fn lower_byte(b: u8) -> u8 {
    if 65 <= b && b <= 90 {
        (b + 32) as u8
    } else {
        b
    }
}

/// ASCII upper-casing of one byte.
pub open spec fn upper_byte(b: u8) -> u8 {
    if 97 <= b && b <= 122 {
        (b - 32) as u8
    } else {
        b
    }
}

/// ASCII lower-casing of a byte sequence.
pub open spec fn lower_bytes(s: Seq<u8>) -> Seq<u8> {
    s.map_values(|b: u8| lower_byte(b))
}

/// ASCII upper-casing of a byte sequence.
pub open spec fn upper_bytes(s: Seq<u8>) -> Seq<u8> {
    s.map_values(|b: u8| upper_byte(b))
}

/// A decimal digit byte.
pub open spec fn is_digit(b: u8) -> bool {
    48 <= b && b <= 57
}

/// An ASCII letter.
pub open spec fn is_alpha(b: u8) -> bool {
    (65 <= b && b <= 90) || (97 <= b && b <= 122)
}

/// Index of the first occurrence of `needle` in `hay` at or after `i`.
pub open spec fn find_idx(hay: Seq<u8>, needle: Seq<u8>, i: int) -> Option<int>
    decreases hay.len() - i,
{
    if i < 0 || i + needle.len() > hay.len() {
        None
    } else if needle.len() == 0 {
        Some(i)
    } else if match_at(hay, needle, i) {
        Some(i)
    } else {
        find_idx(hay, needle, i + 1)
    }
}

pub proof fn lemma_find_idx(hay: Seq<u8>, needle: Seq<u8>, i: int)
    requires
        0 <= i <= hay.len(),
    ensures
        match find_idx(hay, needle, i) {
            Some(j) => i <= j && match_at(hay, needle, j) && forall|k: int|
                i <= k < j ==> !match_at(hay, needle, k),
            None => forall|k: int| i <= k ==> !match_at(hay, needle, k),
        },
    decreases hay.len() - i,
{
    if i + needle.len() > hay.len() {
        assert(forall|k: int| i <= k ==> !match_at(hay, needle, k));
    } else if needle.len() == 0 {
        assert(hay.subrange(i, i) =~= needle);
    } else if match_at(hay, needle, i) {
    } else {
        lemma_find_idx(hay, needle, i + 1);
    }
}

/// First index at or after `i` whose byte fails `p`, or the end of `s`.
pub open spec fn scan_while(s: Seq<u8>, i: int, p: spec_fn(u8) -> bool) -> int
    decreases s.len() - i,
{
    if i < 0 {
        0
    } else if i >= s.len() {
        s.len() as int
    } else if p(s[i]) {
        scan_while(s, i + 1, p)
    } else {
        i
    }
}

/// `scan_while` is the unique index with its properties.
pub proof fn lemma_scan_while_unique(s: Seq<u8>, i: int, p: spec_fn(u8) -> bool, l: int)
    requires
        0 <= i <= l <= s.len(),
        forall|k: int| i <= k < l ==> p(#[trigger] s[k]),
        l < s.len() ==> !p(s[l]),
    ensures
        scan_while(s, i, p) == l,
    decreases l - i,
{
    if i < l {
        lemma_scan_while_unique(s, i + 1, p, l);
    }
}

pub proof fn lemma_scan_while(s: Seq<u8>, i: int, p: spec_fn(u8) -> bool)
    requires
        0 <= i <= s.len(),
    ensures
        i <= scan_while(s, i, p) <= s.len(),
        forall|k: int| i <= k < scan_while(s, i, p) ==> p(#[trigger] s[k]),
        scan_while(s, i, p) < s.len() ==> !p(s[scan_while(s, i, p)]),
    decreases s.len() - i,
{
    if i < s.len() && p(s[i]) {
        lemma_scan_while(s, i + 1, p);
    }
}

/// Space.
pub open spec fn sp_space() -> spec_fn(u8) -> bool {
    |b: u8| b == 32
}

/// Digit or decimal point: the characters of a decimal number.
pub open spec fn sp_num() -> spec_fn(u8) -> bool {
    |b: u8| is_digit(b) || b == 46
}

/// ASCII letter.
pub open spec fn sp_alpha() -> spec_fn(u8) -> bool {
    |b: u8| is_alpha(b)
}

/// Anything but a decimal point.
pub open spec fn sp_not_dot() -> spec_fn(u8) -> bool {
    |b: u8| b != 46
}

/// Decimal digit.
pub open spec fn sp_digit() -> spec_fn(u8) -> bool {
    |b: u8| is_digit(b)
}

/// Index of the first non-digit at or after `from`, or the end.
pub fn scan_digits(s: &[u8], from: usize) -> (r: usize)
    requires
        from <= s@.len(),
    ensures
        r == scan_while(s@, from as int, sp_digit()),
        from <= r <= s@.len(),
{
    proof {
        lemma_scan_while(s@, from as int, sp_digit());
    }
    let n = s.len();
    let mut j: usize = from;
    while j < n && 48 <= s[j] && s[j] <= 57
        invariant
            from <= j <= n,
            n == s@.len(),
            scan_while(s@, from as int, sp_digit()) == scan_while(s@, j as int, sp_digit()),
        decreases n - j,
    {
        proof {
            assert(scan_while(s@, j as int, sp_digit()) == scan_while(s@, j + 1, sp_digit()));
        }
        j = j + 1;
    }
    assert(scan_while(s@, j as int, sp_digit()) == j);
    j
}

/// ASCII whitespace: space, tab, newline, carriage return.
pub open spec fn is_ws(b: u8) -> bool {
    b == 32 || b == 9 || b == 10 || b == 13
}

/// Whitespace, as a scan predicate.
pub open spec fn sp_ws() -> spec_fn(u8) -> bool {
    |b: u8| is_ws(b)
}

/// Non-whitespace, as a scan predicate.
pub open spec fn sp_not_ws() -> spec_fn(u8) -> bool {
    |b: u8| !is_ws(b)
}

/// Skip whitespace from `from`; first non-whitespace index, or the end.
pub fn scan_ws(s: &[u8], from: usize) -> (r: usize)
    requires
        from <= s@.len(),
    ensures
        r == scan_while(s@, from as int, sp_ws()),
        from <= r <= s@.len(),
{
    proof {
        lemma_scan_while(s@, from as int, sp_ws());
    }
    let n = s.len();
    let mut j: usize = from;
    while j < n && (s[j] == 32 || s[j] == 9 || s[j] == 10 || s[j] == 13)
        invariant
            from <= j <= n,
            n == s@.len(),
            scan_while(s@, from as int, sp_ws()) == scan_while(s@, j as int, sp_ws()),
        decreases n - j,
    {
        proof {
            assert(scan_while(s@, j as int, sp_ws()) == scan_while(s@, j + 1, sp_ws()));
        }
        j = j + 1;
    }
    assert(scan_while(s@, j as int, sp_ws()) == j);
    j
}

/// Scan a run of non-whitespace from `from`: one token's end.
pub fn scan_token(s: &[u8], from: usize) -> (r: usize)
    requires
        from <= s@.len(),
    ensures
        r == scan_while(s@, from as int, sp_not_ws()),
        from <= r <= s@.len(),
{
    proof {
        lemma_scan_while(s@, from as int, sp_not_ws());
    }
    let n = s.len();
    let mut j: usize = from;
    while j < n && !(s[j] == 32 || s[j] == 9 || s[j] == 10 || s[j] == 13)
        invariant
            from <= j <= n,
            n == s@.len(),
            scan_while(s@, from as int, sp_not_ws()) == scan_while(s@, j as int, sp_not_ws()),
        decreases n - j,
    {
        proof {
            assert(scan_while(s@, j as int, sp_not_ws()) == scan_while(s@, j + 1, sp_not_ws()));
        }
        j = j + 1;
    }
    assert(scan_while(s@, j as int, sp_not_ws()) == j);
    j
}

/// Anything but a newline.
pub open spec fn sp_not_nl() -> spec_fn(u8) -> bool {
    |b: u8| b != 10
}

/// Anything but the delimiters that end an extracted `key=value` value:
/// space, comma, double quote, or the line's end.
pub open spec fn sp_not_delim() -> spec_fn(u8) -> bool {
    |b: u8| b != 32 && b != 44 && b != 34 && b != 10 && b != 13
}

/// Index of the first newline at or after `from`, or the end.
pub fn scan_to_nl(s: &[u8], from: usize) -> (r: usize)
    requires
        from <= s@.len(),
    ensures
        r == scan_while(s@, from as int, sp_not_nl()),
        from <= r <= s@.len(),
{
    proof {
        lemma_scan_while(s@, from as int, sp_not_nl());
    }
    let n = s.len();
    let mut j: usize = from;
    while j < n && s[j] != 10
        invariant
            from <= j <= n,
            n == s@.len(),
            scan_while(s@, from as int, sp_not_nl()) == scan_while(s@, j as int, sp_not_nl()),
        decreases n - j,
    {
        proof {
            assert(scan_while(s@, j as int, sp_not_nl()) == scan_while(s@, j + 1, sp_not_nl()));
        }
        j = j + 1;
    }
    assert(scan_while(s@, j as int, sp_not_nl()) == j);
    j
}

/// Index of the first value delimiter at or after `from`, or the end.
pub fn scan_to_delim(s: &[u8], from: usize) -> (r: usize)
    requires
        from <= s@.len(),
    ensures
        r == scan_while(s@, from as int, sp_not_delim()),
        from <= r <= s@.len(),
{
    proof {
        lemma_scan_while(s@, from as int, sp_not_delim());
    }
    let n = s.len();
    let mut j: usize = from;
    while j < n && s[j] != 32 && s[j] != 44 && s[j] != 34 && s[j] != 10 && s[j] != 13
        invariant
            from <= j <= n,
            n == s@.len(),
            scan_while(s@, from as int, sp_not_delim()) == scan_while(s@, j as int, sp_not_delim()),
        decreases n - j,
    {
        proof {
            assert(scan_while(s@, j as int, sp_not_delim()) == scan_while(
                s@,
                j + 1,
                sp_not_delim(),
            ));
        }
        j = j + 1;
    }
    assert(scan_while(s@, j as int, sp_not_delim()) == j);
    j
}

/// `needle` is a suffix of `hay`.
pub open spec fn is_suffix_of(hay: Seq<u8>, needle: Seq<u8>) -> bool {
    needle.len() <= hay.len() && hay.subrange(
        hay.len() - needle.len(),
        hay.len() as int,
    ) == needle
}

/// Does `hay` end with `needle`?
pub fn ends_with_bytes(hay: &[u8], needle: &[u8]) -> (r: bool)
    ensures
        r == is_suffix_of(hay@, needle@),
{
    if needle.len() > hay.len() {
        return false;
    }
    matches_at(hay, needle, hay.len() - needle.len())
}

/// Skip spaces from `from`; first non-space index, or the end.
pub fn scan_spaces(s: &[u8], from: usize) -> (r: usize)
    requires
        from <= s@.len(),
    ensures
        r == scan_while(s@, from as int, sp_space()),
        from <= r <= s@.len(),
{
    proof {
        lemma_scan_while(s@, from as int, sp_space());
    }
    let n = s.len();
    let mut j: usize = from;
    while j < n && s[j] == 32
        invariant
            from <= j <= n,
            n == s@.len(),
            scan_while(s@, from as int, sp_space()) == scan_while(s@, j as int, sp_space()),
        decreases n - j,
    {
        proof {
            assert(scan_while(s@, j as int, sp_space()) == scan_while(s@, j + 1, sp_space()));
        }
        j = j + 1;
    }
    assert(scan_while(s@, j as int, sp_space()) == j);
    j
}

/// Scan a run of decimal-number characters (digits and dots) from `from`.
pub fn scan_number(s: &[u8], from: usize) -> (r: usize)
    requires
        from <= s@.len(),
    ensures
        r == scan_while(s@, from as int, sp_num()),
        from <= r <= s@.len(),
{
    proof {
        lemma_scan_while(s@, from as int, sp_num());
    }
    let n = s.len();
    let mut j: usize = from;
    while j < n && ((48 <= s[j] && s[j] <= 57) || s[j] == 46)
        invariant
            from <= j <= n,
            n == s@.len(),
            scan_while(s@, from as int, sp_num()) == scan_while(s@, j as int, sp_num()),
        decreases n - j,
    {
        proof {
            assert(scan_while(s@, j as int, sp_num()) == scan_while(s@, j + 1, sp_num()));
        }
        j = j + 1;
    }
    assert(scan_while(s@, j as int, sp_num()) == j);
    j
}

/// Scan a run of ASCII letters from `from`.
pub fn scan_alpha(s: &[u8], from: usize) -> (r: usize)
    requires
        from <= s@.len(),
    ensures
        r == scan_while(s@, from as int, sp_alpha()),
        from <= r <= s@.len(),
{
    proof {
        lemma_scan_while(s@, from as int, sp_alpha());
    }
    let n = s.len();
    let mut j: usize = from;
    while j < n && ((65 <= s[j] && s[j] <= 90) || (97 <= s[j] && s[j] <= 122))
        invariant
            from <= j <= n,
            n == s@.len(),
            scan_while(s@, from as int, sp_alpha()) == scan_while(s@, j as int, sp_alpha()),
        decreases n - j,
    {
        proof {
            assert(scan_while(s@, j as int, sp_alpha()) == scan_while(s@, j + 1, sp_alpha()));
        }
        j = j + 1;
    }
    assert(scan_while(s@, j as int, sp_alpha()) == j);
    j
}

/// Index of the first decimal point at or after `from`, or the end.
pub fn scan_to_dot(s: &[u8], from: usize) -> (r: usize)
    requires
        from <= s@.len(),
    ensures
        r == scan_while(s@, from as int, sp_not_dot()),
        from <= r <= s@.len(),
{
    proof {
        lemma_scan_while(s@, from as int, sp_not_dot());
    }
    let n = s.len();
    let mut j: usize = from;
    while j < n && s[j] != 46
        invariant
            from <= j <= n,
            n == s@.len(),
            scan_while(s@, from as int, sp_not_dot()) == scan_while(s@, j as int, sp_not_dot()),
        decreases n - j,
    {
        proof {
            assert(scan_while(s@, j as int, sp_not_dot()) == scan_while(s@, j + 1, sp_not_dot()));
        }
        j = j + 1;
    }
    assert(scan_while(s@, j as int, sp_not_dot()) == j);
    j
}

pub fn eq_bytes(a: &[u8], b: &[u8]) -> (r: bool)
    ensures
        r == (a@ == b@),
{
    if a.len() != b.len() {
        assert(a@ != b@);
        return false;
    }
    let n = a.len();
    let mut i: usize = 0;
    while i < n
        invariant
            n == a@.len() == b@.len(),
            i <= n,
            forall|k: int| 0 <= k < i ==> a@[k] == b@[k],
        decreases n - i,
    {
        if a[i] != b[i] {
            return false;
        }
        i = i + 1;
    }
    assert(a@ =~= b@);
    true
}

/// Does `needle` occur in `hay` exactly at `i`?
pub fn matches_at(hay: &[u8], needle: &[u8], i: usize) -> (r: bool)
    requires
        i + needle@.len() <= hay@.len(),
    ensures
        r == match_at(hay@, needle@, i as int),
{
    let n = needle.len();
    let hl = hay.len();
    let mut j: usize = 0;
    while j < n
        invariant
            n == needle@.len(),
            hl == hay@.len(),
            i + n <= hl,
            j <= n,
            forall|k: int| 0 <= k < j ==> hay@[i + k] == needle@[k],
        decreases n - j,
    {
        if hay[i + j] != needle[j] {
            assert(hay@.subrange(i as int, i + n as int)[j as int] != needle@[j as int]);
            return false;
        }
        j = j + 1;
    }
    assert(hay@.subrange(i as int, i + n as int) =~= needle@);
    true
}

/// Position of the first occurrence of `needle` in `hay`, if any.
pub fn find_first(hay: &[u8], needle: &[u8]) -> (r: Option<usize>)
    ensures
        match r {
            Some(i) => match_at(hay@, needle@, i as int) && forall|j: int|
                0 <= j < i ==> !match_at(hay@, needle@, j),
            None => !contains_seq(hay@, needle@),
        },
{
    if needle.len() > hay.len() {
        assert(forall|j: int| !match_at(hay@, needle@, j));
        return None;
    }
    let last = hay.len() - needle.len();
    let mut i: usize = 0;
    loop
        invariant
            needle@.len() <= hay@.len(),
            last == hay@.len() - needle@.len(),
            i <= last,
            forall|j: int| 0 <= j < i ==> !match_at(hay@, needle@, j),
        decreases last - i,
    {
        if matches_at(hay, needle, i) {
            return Some(i);
        }
        if i == last {
            assert(forall|j: int| i < j ==> !match_at(hay@, needle@, j));
            return None;
        }
        i = i + 1;
    }
}

/// Does `needle` occur anywhere in `hay`?
pub fn contains_bytes(hay: &[u8], needle: &[u8]) -> (r: bool)
    ensures
        r == contains_seq(hay@, needle@),
{
    match find_first(hay, needle) {
        Some(_) => true,
        None => false,
    }
}

/// Does `hay` start with `needle`?
pub fn starts_with_bytes(hay: &[u8], needle: &[u8]) -> (r: bool)
    ensures
        r == is_prefix_of(hay@, needle@),
{
    if needle.len() > hay.len() {
        return false;
    }
    matches_at(hay, needle, 0)
}

pub fn to_lower_vec(s: &[u8]) -> (v: Vec<u8>)
    ensures
        v@ == lower_bytes(s@),
{
    let n = s.len();
    let mut v: Vec<u8> = Vec::new();
    let mut i: usize = 0;
    while i < n
        invariant
            n == s@.len(),
            i <= n,
            v@.len() == i,
            forall|k: int| 0 <= k < i ==> v@[k] == lower_byte(s@[k]),
        decreases n - i,
    {
        let b = s[i];
        if 65 <= b && b <= 90 {
            v.push(b + 32);
        } else {
            v.push(b);
        }
        i = i + 1;
    }
    assert(v@ =~= lower_bytes(s@));
    v
}

pub fn to_upper_vec(s: &[u8]) -> (v: Vec<u8>)
    ensures
        v@ == upper_bytes(s@),
{
    let n = s.len();
    let mut v: Vec<u8> = Vec::new();
    let mut i: usize = 0;
    while i < n
        invariant
            n == s@.len(),
            i <= n,
            v@.len() == i,
            forall|k: int| 0 <= k < i ==> v@[k] == upper_byte(s@[k]),
        decreases n - i,
    {
        let b = s[i];
        if 97 <= b && b <= 122 {
            v.push(b - 32);
        } else {
            v.push(b);
        }
        i = i + 1;
    }
    assert(v@ =~= upper_bytes(s@));
    v
}

/// Copy a byte slice into an owned vector.
pub fn copy_bytes(s: &[u8]) -> (v: Vec<u8>)
    ensures
        v@ == s@,
{
    let n = s.len();
    let mut v: Vec<u8> = Vec::new();
    let mut i: usize = 0;
    while i < n
        invariant
            n == s@.len(),
            i <= n,
            v@.len() == i,
            forall|k: int| 0 <= k < i ==> v@[k] == s@[k],
        decreases n - i,
    {
        v.push(s[i]);
        i = i + 1;
    }
    assert(v@ =~= s@);
    v
}

} // verus!
